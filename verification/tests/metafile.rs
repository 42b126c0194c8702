use find_duplicates::metafile::{
    collect_into_metafiles, display_names, MetaFile, PathInfo, Registry,
};
use indexmap::IndexSet;

fn seen(path: &str, id: u64) -> PathInfo {
    PathInfo { path: path.to_string(), id: Some(id), is_dir: false, is_symlink: false }
}

fn symlink(path: &str, id: u64) -> PathInfo {
    PathInfo { path: path.to_string(), id: Some(id), is_dir: false, is_symlink: true }
}

fn dir(path: &str, id: u64) -> PathInfo {
    PathInfo { path: path.to_string(), id: Some(id), is_dir: true, is_symlink: false }
}

fn unresolved(path: &str) -> PathInfo {
    PathInfo { path: path.to_string(), id: None, is_dir: false, is_symlink: false }
}

fn strings(paths: &[&str]) -> Vec<String> {
    paths.iter().map(|p| p.to_string()).collect()
}

#[test]
fn metafiles_hard_link() {
    let file2 = "test-tmp/file2";
    let file1 = "test-tmp/file1";
    let link = "test-tmp/file1-hardlink";
    // file1 holds "meow" and file2 holds "nya"; the link shares file1's
    // identifier.
    let mut metafiles = Registry::new();
    collect_into_metafiles(
        &mut metafiles,
        vec![seen(file1, 11), seen(file2, 12), seen(link, 11)],
        false,
    );

    assert_eq!(metafiles.len(), 2);
    for file in metafiles.records() {
        assert!(file.paths() == strings(&[file2]) || file.paths() == strings(&[file1, link]))
    }
}

#[test]
fn metafiles_symlink() {
    let file2 = "test-tmp/file2";
    let file1 = "test-tmp/file1";
    let link = "test-tmp/file1-symlink";
    let mut metafiles = Registry::new();
    collect_into_metafiles(
        &mut metafiles,
        vec![seen(file1, 11), seen(file2, 12), symlink(link, 11)],
        false,
    );

    assert_eq!(metafiles.len(), 2);
    for file in metafiles.records() {
        assert!(file.paths() == strings(&[file2]) || file.paths() == strings(&[file1, link]))
    }
}

#[test]
fn records_keep_the_order_of_first_sight() {
    let mut reg = Registry::new();
    collect_into_metafiles(
        &mut reg,
        vec![seen("a", 7), seen("b", 3), seen("c", 7), seen("d", 5), seen("e", 3)],
        false,
    );
    let ids: Vec<u64> = reg.records().iter().map(|r| r.id()).collect();
    assert_eq!(ids, vec![7, 3, 5]);
    assert_eq!(reg.records()[0].paths(), strings(&["a", "c"]));
    assert_eq!(reg.records()[1].paths(), strings(&["b", "e"]));
    assert_eq!(reg.records()[2].paths(), strings(&["d"]));
}

#[test]
fn registering_a_path_twice_changes_nothing() {
    let mut reg = Registry::new();
    reg.register(seen("a", 1), false);
    reg.register(seen("b", 1), false);
    reg.register(seen("a", 1), false);
    assert_eq!(reg.len(), 1);
    assert_eq!(reg.records()[0].paths(), strings(&["a", "b"]));
}

#[test]
fn directories_are_skipped_unless_kept() {
    let mut reg = Registry::new();
    collect_into_metafiles(&mut reg, vec![dir("d", 1), seen("f", 2)], false);
    assert_eq!(reg.len(), 1);
    assert_eq!(reg.records()[0].id(), 2);

    let mut kept = Registry::new();
    collect_into_metafiles(&mut kept, vec![dir("d", 1), seen("f", 2)], true);
    assert_eq!(kept.len(), 2);
    assert_eq!(kept.records()[0].id(), 1);
    assert_eq!(kept.records()[0].paths(), strings(&["d"]));
}

#[test]
fn unresolved_paths_are_skipped() {
    let mut reg = Registry::new();
    collect_into_metafiles(
        &mut reg,
        vec![unresolved("gone"), seen("f", 2), unresolved("x")],
        false,
    );
    assert_eq!(reg.len(), 1);
    assert_eq!(reg.records()[0].paths(), strings(&["f"]));
}

#[test]
fn empty_input_gives_an_empty_registry() {
    let mut reg = Registry::new();
    collect_into_metafiles(&mut reg, vec![], false);
    assert_eq!(reg.len(), 0);
    assert!(reg.into_records().is_empty());
}

#[test]
fn equal_content_does_not_merge_identities() {
    // Two files that are no links of each other stay two records, whatever
    // they hold.
    let mut reg = Registry::new();
    collect_into_metafiles(&mut reg, vec![seen("a", 1), seen("b", 2)], false);
    assert_eq!(reg.len(), 2);
    assert_ne!(reg.records()[0], reg.records()[1]);
}

#[test]
fn try_add_path_accepts_only_its_own_identifier() {
    let mut mf = MetaFile::from_id_and_path(5, "a".to_string(), false);
    assert_eq!(mf.try_add_path(seen("b", 5)), Ok(true));
    assert_eq!(mf.try_add_path(seen("b", 5)), Ok(false));
    assert_eq!(mf.try_add_path(seen("c", 6)), Err(()));
    assert_eq!(mf.try_add_path(unresolved("d")), Err(()));
    assert_eq!(mf.paths(), strings(&["a", "b"]));
    assert_eq!(mf.id(), 5);
}

#[test]
fn paths_lists_regular_paths_before_symlinks() {
    let mut mf = MetaFile::from_id_and_path(5, "link1".to_string(), true);
    assert_eq!(mf.try_add_path(seen("file1", 5)), Ok(true));
    assert_eq!(mf.try_add_path(symlink("link2", 5)), Ok(true));
    assert_eq!(mf.try_add_path(seen("file2", 5)), Ok(true));
    assert_eq!(mf.paths(), strings(&["file1", "file2", "link1", "link2"]));
}

#[test]
fn a_path_seen_both_ways_is_listed_once() {
    let mut mf = MetaFile::from_id(9);
    assert!(mf.paths().is_empty());
    assert_eq!(mf.try_add_path(seen("p", 9)), Ok(true));
    assert_eq!(mf.try_add_path(symlink("p", 9)), Ok(true));
    assert_eq!(mf.try_add_path(symlink("q", 9)), Ok(true));
    assert_eq!(mf.paths(), strings(&["p", "q"]));
}

#[test]
fn new_takes_the_sets_as_they_are() {
    let mut files = IndexSet::new();
    files.insert("x".to_string());
    files.insert("y".to_string());
    let mut symlinks = IndexSet::new();
    symlinks.insert("y".to_string());
    symlinks.insert("z".to_string());
    let mf = MetaFile::new(3, files, symlinks);
    assert_eq!(mf.id(), 3);
    assert_eq!(mf.paths(), strings(&["x", "y", "z"]));
}

#[test]
fn records_are_equal_by_identifier_alone() {
    let a = MetaFile::from_id_and_path(1, "a".to_string(), false);
    let b = MetaFile::from_id_and_path(1, "b".to_string(), true);
    let c = MetaFile::from_id_and_path(2, "a".to_string(), false);
    assert!(a == b);
    assert!(a != c);
}

#[test]
fn a_record_is_shown_with_its_other_names() {
    let mut mf = MetaFile::from_id_and_path(1, "dir/a".to_string(), false);
    assert_eq!(mf.to_string(), "\"dir/a\"");
    assert_eq!(mf.try_add_path(seen("dir/b", 1)), Ok(true));
    assert_eq!(mf.to_string(), "\"dir/a\" (aka \"dir/b\")");
    assert_eq!(mf.try_add_path(seen("c", 1)), Ok(true));
    assert_eq!(mf.to_string(), "\"dir/a\" (aka \"dir/b\", \"c\")");
    assert_eq!(mf.try_add_path(symlink("d", 1)), Ok(true));
    assert_eq!(mf.to_string(), "\"dir/a\" (aka \"dir/b\", \"c\", \"d\")");
}

#[test]
fn shown_paths_are_escaped() {
    let mf = MetaFile::from_id_and_path(1, "a\"b\\c\n".to_string(), false);
    assert_eq!(mf.to_string(), "\"a\\\"b\\\\c\\n\"");
}

#[test]
fn records_c_command_by_their_first_paths() {
    let nya = MetaFile::from_id_and_path(1, "/animal/nya".to_string(), false);
    let mut awrf = MetaFile::from_id_and_path(2, "/animal/dog/awrf".to_string(), false);
    assert_eq!(awrf.try_add_path(seen("/meow", 2)), Ok(true));
    assert!(nya.c_commands(&awrf));
    assert!(!awrf.c_commands(&nya));
}

#[test]
fn names_are_laid_out_with_aka() {
    assert_eq!(display_names(&strings(&["x"])), "x");
    assert_eq!(display_names(&strings(&["x", "y"])), "x (aka y)");
    assert_eq!(display_names(&strings(&["x", "y", "z"])), "x (aka y, z)");
    assert_eq!(display_names(&strings(&["", "", "", ""])), " (aka , , )");
}
