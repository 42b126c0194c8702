use find_duplicates::options::{parse_args, Arg, Options, UsageError};

fn flag(text: &str) -> Arg {
    Arg { text: text.to_string(), is_dir: false }
}

fn dir(text: &str) -> Arg {
    Arg { text: text.to_string(), is_dir: true }
}

#[test]
fn default_options_are_all_off() {
    let o = Options::default();
    assert!(o.target_dirs.is_empty());
    assert!(!o.verbose && !o.recursive && !o.quiet);
}

#[test]
fn a_directory_alone_is_enough() {
    let o = parse_args(vec![dir("some/dir")]).unwrap();
    assert_eq!(o.target_dirs, vec!["some/dir".to_string()]);
    assert!(!o.verbose && !o.recursive && !o.quiet);
}

#[test]
fn flags_are_read_in_both_spellings() {
    let o = parse_args(vec![flag("-v"), flag("-r"), dir("d")]).unwrap();
    assert!(o.verbose && o.recursive && !o.quiet);
    let o = parse_args(vec![dir("d"), flag("--verbose"), flag("--recursive")]).unwrap();
    assert!(o.verbose && o.recursive && !o.quiet);
    let o = parse_args(vec![flag("-q"), dir("d")]).unwrap();
    assert!(!o.verbose && !o.recursive && o.quiet);
    let o = parse_args(vec![flag("--quiet"), dir("d")]).unwrap();
    assert!(o.quiet);
}

#[test]
fn directories_are_kept_in_order() {
    let o = parse_args(vec![dir("b"), flag("-r"), dir("a"), dir("b")]).unwrap();
    assert_eq!(o.target_dirs, vec!["b".to_string(), "a".to_string(), "b".to_string()]);
}

#[test]
fn quiet_and_verbose_exclude_each_other() {
    assert!(matches!(
        parse_args(vec![flag("-q"), flag("-v"), dir("d")]),
        Err(UsageError::IncompatibleFlags)
    ));
    assert!(matches!(
        parse_args(vec![dir("d"), flag("--verbose"), flag("--quiet")]),
        Err(UsageError::IncompatibleFlags)
    ));
}

#[test]
fn help_turns_the_command_line_down() {
    assert!(matches!(parse_args(vec![dir("d"), flag("-h")]), Err(UsageError::HelpRequested)));
    assert!(matches!(parse_args(vec![flag("--help")]), Err(UsageError::HelpRequested)));
}

#[test]
fn an_argument_that_is_no_flag_and_no_directory_is_named() {
    match parse_args(vec![dir("d"), flag("--what"), flag("-h")]) {
        Err(UsageError::NoSuchDirectoryOrFlag(arg)) => assert_eq!(arg, "--what"),
        other => panic!("{:?}", other),
    }
}

#[test]
fn no_directory_is_an_error() {
    assert!(matches!(parse_args(vec![]), Err(UsageError::NoDirectories)));
    assert!(matches!(parse_args(vec![flag("-r"), flag("-v")]), Err(UsageError::NoDirectories)));
}

#[test]
fn the_first_error_wins() {
    assert!(matches!(
        parse_args(vec![flag("-h"), flag("nope"), flag("-q"), flag("-v")]),
        Err(UsageError::HelpRequested)
    ));
    assert!(matches!(
        parse_args(vec![flag("-q"), flag("-v"), flag("-h")]),
        Err(UsageError::IncompatibleFlags)
    ));
}

#[test]
fn a_flag_is_a_flag_even_where_a_directory_has_its_name() {
    let o = parse_args(vec![dir("-r"), dir("d")]).unwrap();
    assert!(o.recursive);
    assert_eq!(o.target_dirs, vec!["d".to_string()]);
}
