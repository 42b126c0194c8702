use find_duplicates::report::{list_on_stdout, should_list, LISTING_LIMIT};

#[test]
fn a_terminal_is_spared_long_listings() {
    assert_eq!(LISTING_LIMIT, 25);
    assert!(should_list(0, true));
    assert!(should_list(24, true));
    assert!(!should_list(25, true));
    assert!(!should_list(1000, true));
}

#[test]
fn a_file_or_pipe_gets_every_listing() {
    assert!(should_list(0, false));
    assert!(should_list(24, false));
    assert!(should_list(25, false));
    assert!(should_list(1000, false));
}

#[test]
fn few_groups_are_listed_wherever_the_output_goes() {
    assert!(list_on_stdout(0));
    assert!(list_on_stdout(24));
}
