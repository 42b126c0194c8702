use find_duplicates::checksum::checksum;
use find_duplicates::metafile::{MetaFile, PathInfo, Registry};
use find_duplicates::pipeline::{
    build_file_list, calc_file_checksums, filter_non_dups, find_sizewise_dups, DupFinder, Dups,
    FileStat, LoadedFile,
};
use std::collections::HashMap;

/// A file of the pretended file system: its path, its identifier and what it
/// holds.
struct Sample {
    path: &'static str,
    id: u64,
    content: &'static [u8],
}

fn sample(path: &'static str, id: u64, content: &'static [u8]) -> Sample {
    Sample { path, id, content }
}

fn seen(s: &Sample) -> PathInfo {
    PathInfo { path: s.path.to_string(), id: Some(s.id), is_dir: false, is_symlink: false }
}

fn content_of(samples: &[Sample], id: u64) -> Vec<u8> {
    samples.iter().find(|s| s.id == id).unwrap().content.to_vec()
}

fn stats_of(samples: &[Sample], reg: &Registry) -> Vec<FileStat> {
    reg.records()
        .iter()
        .map(|r| FileStat { is_dir: false, len: content_of(samples, r.id()).len() as u64 })
        .collect()
}

fn load(samples: &[Sample], sizewise: HashMap<u64, Vec<MetaFile>>) -> Vec<Vec<LoadedFile>> {
    let mut sizes: Vec<u64> = sizewise.keys().copied().collect();
    sizes.sort();
    let mut sizewise = sizewise;
    let mut groups = Vec::new();
    for size in sizes {
        let group = sizewise.remove(&size).unwrap();
        groups.push(
            group
                .into_iter()
                .map(|file| {
                    let content = content_of(samples, file.id());
                    LoadedFile { file, content }
                })
                .collect(),
        );
    }
    groups
}

/// The whole pipeline on the pretended file system.
fn run(samples: &[Sample]) -> Dups {
    let reg = build_file_list(vec![samples.iter().map(seen).collect()]);
    let stats = stats_of(samples, &reg);
    let sizewise = find_sizewise_dups(reg, &stats);
    filter_non_dups(load(samples, sizewise))
}

fn ids(group: &[MetaFile]) -> Vec<u64> {
    group.iter().map(|r| r.id()).collect()
}

fn all_ids(dups: &Dups) -> Vec<u64> {
    let mut all: Vec<u64> = dups.values().flat_map(|g| g.iter().map(|r| r.id())).collect();
    all.sort();
    all
}

const HELLO: u32 = 0x062C_0215;

#[test]
fn end_to_end_hello_hello_world() {
    let samples =
        [sample("dir/a", 1, b"hello"), sample("dir/b", 2, b"hello"), sample("dir/c", 3, b"world")];
    let dups = run(&samples);
    assert_eq!(dups.len(), 1);
    let group = &dups[&HELLO];
    assert_eq!(ids(group), vec![1, 2]);
    assert_eq!(group[0].paths(), vec!["dir/a".to_string()]);
    assert_eq!(group[1].paths(), vec!["dir/b".to_string()]);
}

#[test]
fn end_to_end_world_of_another_size_leaves_at_the_size_stage() {
    let samples =
        [sample("dir/a", 1, b"hello"), sample("dir/b", 2, b"hello"), sample("dir/c", 3, b"worlds")];
    let reg = build_file_list(vec![samples.iter().map(seen).collect()]);
    let stats = stats_of(&samples, &reg);
    let sizewise = find_sizewise_dups(reg, &stats);
    assert_eq!(sizewise.len(), 1);
    assert_eq!(ids(&sizewise[&5]), vec![1, 2]);
    let dups = filter_non_dups(load(&samples, sizewise));
    assert_eq!(dups.len(), 1);
    assert_eq!(ids(&dups[&HELLO]), vec![1, 2]);
}

#[test]
fn end_to_end_world_of_the_same_size_leaves_at_the_checksum_stage() {
    let samples =
        [sample("dir/a", 1, b"hello"), sample("dir/b", 2, b"hello"), sample("dir/c", 3, b"world")];
    let reg = build_file_list(vec![samples.iter().map(seen).collect()]);
    let stats = stats_of(&samples, &reg);
    let sizewise = find_sizewise_dups(reg, &stats);
    assert_eq!(sizewise.len(), 1);
    assert_eq!(ids(&sizewise[&5]), vec![1, 2, 3]);
    let dups = filter_non_dups(load(&samples, sizewise));
    assert_eq!(all_ids(&dups), vec![1, 2]);
}

#[test]
fn empty_input_round_trip() {
    let reg = build_file_list(vec![vec![]]);
    assert_eq!(reg.len(), 0);
    let sizewise = find_sizewise_dups(reg, &vec![]);
    assert!(sizewise.is_empty());
    let dups = filter_non_dups(vec![]);
    assert!(dups.is_empty());

    let none = build_file_list(vec![]);
    assert_eq!(none.len(), 0);
}

#[test]
fn hard_links_count_as_one_file() {
    // `b` is a link to `a`: one file, so nothing is duplicated.
    let samples = [sample("a", 1, b"hello"), sample("b", 1, b"hello")];
    let reg = build_file_list(vec![samples.iter().map(seen).collect()]);
    assert_eq!(reg.len(), 1);
    assert_eq!(reg.records()[0].paths(), vec!["a".to_string(), "b".to_string()]);
    let stats = stats_of(&samples, &reg);
    let sizewise = find_sizewise_dups(reg, &stats);
    assert!(sizewise.is_empty());
}

#[test]
fn a_linked_file_with_a_true_duplicate() {
    let samples =
        [sample("a", 1, b"hello"), sample("a-link", 1, b"hello"), sample("copy", 2, b"hello")];
    let dups = run(&samples);
    assert_eq!(dups.len(), 1);
    let group = &dups[&HELLO];
    assert_eq!(ids(group), vec![1, 2]);
    assert_eq!(group[0].paths(), vec!["a".to_string(), "a-link".to_string()]);
    assert_eq!(group[0].to_string(), "\"a\" (aka \"a-link\")");
}

#[test]
fn a_record_of_unique_size_is_in_no_size_group() {
    let samples = [
        sample("a", 1, b"12345"),
        sample("b", 2, b"1234"),
        sample("c", 3, b"abcde"),
        sample("d", 4, b"xy"),
        sample("e", 5, b"zw"),
        sample("f", 6, b""),
    ];
    let reg = build_file_list(vec![samples.iter().map(seen).collect()]);
    let stats = stats_of(&samples, &reg);
    let sizewise = find_sizewise_dups(reg, &stats);
    assert_eq!(sizewise.len(), 2);
    assert_eq!(ids(&sizewise[&5]), vec![1, 3]);
    assert_eq!(ids(&sizewise[&2]), vec![4, 5]);
    assert!(!sizewise.contains_key(&4));
    assert!(!sizewise.contains_key(&0));
    for group in sizewise.values() {
        assert!(!ids(group).contains(&2));
        assert!(!ids(group).contains(&6));
    }
}

#[test]
fn a_record_of_unique_checksum_is_in_no_duplicate_group() {
    let samples = [
        sample("a", 1, b"aaaa"),
        sample("b", 2, b"bbbb"),
        sample("c", 3, b"aaaa"),
        sample("d", 4, b"cccc"),
    ];
    let dups = run(&samples);
    assert_eq!(dups.len(), 1);
    assert_eq!(all_ids(&dups), vec![1, 3]);
}

#[test]
fn equal_content_is_grouped_and_stays_two_records() {
    let samples = [sample("x/one", 10, b"same bytes"), sample("y/two", 20, b"same bytes")];
    let reg = build_file_list(vec![samples.iter().map(seen).collect()]);
    assert_eq!(reg.len(), 2);
    let stats = stats_of(&samples, &reg);
    let dups = filter_non_dups(load(&samples, find_sizewise_dups(reg, &stats)));
    assert_eq!(dups.len(), 1);
    let group = dups.values().next().unwrap();
    assert_eq!(group.len(), 2);
    assert_ne!(group[0], group[1]);
    assert_eq!(ids(group), vec![10, 20]);
}

#[test]
fn checksums_are_gathered_over_all_size_groups() {
    // [1, 4] and [0, 0, 5] have the same checksum. Neither has a partner of
    // its own size with that checksum, and still they form a group.
    let samples = [
        sample("a", 1, &[1, 4]),
        sample("b", 2, &[9, 9]),
        sample("c", 3, &[0, 0, 5]),
        sample("d", 4, &[7, 7, 7]),
    ];
    let dups = run(&samples);
    assert_eq!(dups.len(), 1);
    assert_eq!(ids(&dups[&0x0008_0006]), vec![1, 3]);
}

#[test]
fn several_groups_of_several_sizes() {
    let samples = [
        sample("a", 1, b"one"),
        sample("b", 2, b"two"),
        sample("c", 3, b"one"),
        sample("d", 4, b"three"),
        sample("e", 5, b"three"),
        sample("f", 6, b"three"),
        sample("g", 7, b"seven"),
        sample("h", 8, b"lonely!"),
    ];
    let dups = run(&samples);
    assert_eq!(dups.len(), 2);
    assert_eq!(all_ids(&dups), vec![1, 3, 4, 5, 6]);
    let mut groups: Vec<Vec<u64>> = dups.values().map(|g| ids(g)).collect();
    groups.sort();
    assert_eq!(groups, vec![vec![1, 3], vec![4, 5, 6]]);
}

#[test]
fn checksums_are_paired_in_order() {
    let fs = vec![
        LoadedFile {
            file: MetaFile::from_id_and_path(1, "a".to_string(), false),
            content: b"hello".to_vec(),
        },
        LoadedFile {
            file: MetaFile::from_id_and_path(2, "b".to_string(), false),
            content: b"world".to_vec(),
        },
        LoadedFile {
            file: MetaFile::from_id_and_path(3, "c".to_string(), false),
            content: Vec::new(),
        },
    ];
    let cs = calc_file_checksums(fs);
    let got: Vec<(u32, u64)> = cs.iter().map(|(sum, f)| (*sum, f.id())).collect();
    assert_eq!(got, vec![(0x062C_0215, 1), (0x06A6_0229, 2), (1, 3)]);
}

#[test]
fn the_running_grouping_takes_one_group_after_the_other() {
    let rec = |id: u64| MetaFile::from_id_and_path(id, format!("p{}", id), false);
    let mut finder = DupFinder::new();
    finder.add_group(vec![(7, rec(1)), (8, rec(2)), (7, rec(3))]);
    finder.add_group(vec![]);
    finder.add_group(vec![(9, rec(4)), (8, rec(5)), (10, rec(6))]);
    let dups = finder.finish();
    assert_eq!(dups.len(), 2);
    assert_eq!(ids(&dups[&7]), vec![1, 3]);
    assert_eq!(ids(&dups[&8]), vec![2, 5]);
}

#[test]
fn a_running_grouping_that_took_nothing_gives_nothing() {
    assert!(DupFinder::new().finish().is_empty());
}

#[test]
fn roots_are_folded_into_one_registry() {
    let first = vec![
        PathInfo { path: "r1/a".to_string(), id: Some(1), is_dir: false, is_symlink: false },
        PathInfo { path: "r1/sub".to_string(), id: Some(2), is_dir: true, is_symlink: false },
    ];
    let second = vec![
        PathInfo { path: "r2/a-link".to_string(), id: Some(1), is_dir: false, is_symlink: false },
        PathInfo { path: "r2/b".to_string(), id: Some(3), is_dir: false, is_symlink: false },
        PathInfo { path: "r2/gone".to_string(), id: None, is_dir: false, is_symlink: false },
    ];
    let reg = build_file_list(vec![first, second]);
    assert_eq!(reg.len(), 2);
    assert_eq!(reg.records()[0].id(), 1);
    assert_eq!(reg.records()[0].paths(), vec!["r1/a".to_string(), "r2/a-link".to_string()]);
    assert_eq!(reg.records()[1].id(), 3);
}

#[test]
fn many_checksums_come_back_in_the_order_of_the_files() {
    let contents: Vec<Vec<u8>> =
        (0..2000u32).map(|i| format!("content number {}", i * 7919).into_bytes()).collect();
    let fs: Vec<LoadedFile> = contents
        .iter()
        .enumerate()
        .map(|(i, content)| LoadedFile {
            file: MetaFile::from_id_and_path(i as u64, format!("f{}", i), false),
            content: content.clone(),
        })
        .collect();
    let first = fs[0].checksum();
    assert_eq!(first, checksum(&contents[0]));
    let cs = calc_file_checksums(fs);
    assert_eq!(cs.len(), contents.len());
    for (i, (sum, file)) in cs.iter().enumerate() {
        assert_eq!(file.id(), i as u64);
        assert_eq!(*sum, checksum(&contents[i]));
    }
}
