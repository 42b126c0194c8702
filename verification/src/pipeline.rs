//! The stages that follow the registry: grouping the records by size, then
//! the survivors by checksum.

use crate::checksum::{adler32_spec, checksum};
use crate::grouping::{
    grouped, groups_view, lemma_flatten_members, lemma_lone_key_dropped,
    lemma_shared_key_grouped, Grouping,
};
use crate::metafile::identity_merge::lemma_collect_concat;
use crate::metafile::{
    collect_into_metafiles, collect_spec, record_ids, registry_wf, MetaFile, MetaFileView,
    PathInfo, PathInfoView, Registry,
};
use rayon::iter::{IntoParallelRefIterator, ParallelIterator};
use std::collections::HashMap;
use vstd::prelude::*;

verus! {

broadcast use vstd::std_specs::hash::group_hash_axioms;

/// What the file system reports of a record's representative path.
#[derive(Debug, Clone, Copy)]
pub struct FileStat {
    pub is_dir: bool,
    pub len: u64,
}

/// Builds the registry of every path found under the root directories.
///
/// `roots[d]` holds what was found under the `d`-th root, in the order in
/// which its directories were walked. Directories are passed over.
pub fn build_file_list(roots: Vec<Vec<PathInfo>>) -> (acc: Registry)
    ensures
        acc.wf(),
        acc@ == collect_spec(Seq::empty(), roots.deep_view().flatten(), false),
{
    let ghost all = roots.deep_view();
    let mut acc = Registry::new();
    for found in it: roots.into_iter()
        invariant
            acc.wf(),
            it.seq().len() == all.len(),
            forall|d: int| 0 <= d < all.len() ==> (#[trigger] it.seq()[d]).deep_view() == all[d],
            acc@ == collect_spec(Seq::empty(), all.take(it.index() as int).flatten_alt(), false),
    {
        let ghost n = it.index() as int;
        proof {
            assert(all.take(n + 1).drop_last() =~= all.take(n));
            lemma_collect_concat(Seq::empty(), all.take(n).flatten_alt(), all[n], false);
        }
        collect_into_metafiles(&mut acc, found, false);
    }
    proof {
        assert(all.take(all.len() as int) =~= all);
        all.lemma_flatten_and_flatten_alt_are_equivalent();
    }
    acc
}

/// Each record paired with the length of its representative path.
pub open spec fn sized(recs: Seq<MetaFileView>, stats: Seq<FileStat>) -> Seq<(u64, MetaFileView)> {
    Seq::new(recs.len(), |i: int| (stats[i].len, recs[i]))
}

/// Groups the records by file size and keeps the groups of two or more.
///
/// `stats[i]` is what the file system reported of the first path of the
/// `i`-th record. A directory among them means that the registry was built
/// wrongly, and is not accepted.
pub fn find_sizewise_dups(files: Registry, stats: &Vec<FileStat>) -> (res: HashMap<
    u64,
    Vec<MetaFile>,
>)
    requires
        stats.len() == files@.len(),
        forall|i: int| 0 <= i < stats.len() ==> !(#[trigger] stats[i]).is_dir,
    ensures
        groups_view(res@) == grouped(sized(files@, stats@)),
{
    let ghost items = sized(files@, stats@);
    let records = files.into_records();
    let mut sizes: Grouping<u64> = Grouping::new();
    let mut seen: usize = 0;
    for de in it: records.into_iter()
        invariant
            seen == it.index(),
            items == sized(files@, stats@),
            stats.len() == files@.len(),
            it.seq().len() == items.len(),
            forall|i: int| 0 <= i < items.len() ==> (#[trigger] it.seq()[i])@ == items[i].1,
            sizes.wf(),
            sizes.items() == items.take(it.index() as int),
    {
        sizes.add(stats[seen].len, de);
        seen = seen + 1;
    }
    assert(items.take(items.len() as int) =~= items);
    sizes.finish()
}

/// Size-bucket pruning: a record whose size no other record of the registry
/// shares is a member of no size group.
pub proof fn lemma_unique_size_pruned(recs: Seq<MetaFileView>, stats: Seq<FileStat>, i: int)
    requires
        registry_wf(recs),
        stats.len() == recs.len(),
        0 <= i < recs.len(),
        forall|j: int| 0 <= j < recs.len() && j != i ==> (#[trigger] stats[j]).len != stats[i].len,
    ensures
        forall|size: u64, r: MetaFileView|
            grouped(sized(recs, stats)).contains_key(size) && #[trigger] grouped(
                sized(recs, stats),
            )[size].contains(r) ==> r.id != recs[i].id,
{
    let items = sized(recs, stats);
    lemma_lone_key_dropped(items, i);
    assert forall|size: u64, r: MetaFileView|
        grouped(items).contains_key(size) && #[trigger] grouped(items)[size].contains(
            r,
        ) implies r.id != recs[i].id by {
        let j = choose|j: int| 0 <= j < items.len() && j != i && #[trigger] items[j] == (size, r);
        assert(record_ids(recs)[j] == r.id);
        assert(record_ids(recs)[i] == recs[i].id);
    }
}

/// Two different records of one size are members of one size group, the
/// group of that size.
pub proof fn lemma_same_size_grouped(
    recs: Seq<MetaFileView>,
    stats: Seq<FileStat>,
    i: int,
    j: int,
)
    requires
        stats.len() == recs.len(),
        0 <= i < recs.len(),
        0 <= j < recs.len(),
        i != j,
        stats[i].len == stats[j].len,
    ensures
        grouped(sized(recs, stats)).contains_key(stats[i].len),
        grouped(sized(recs, stats))[stats[i].len].contains(recs[i]),
        grouped(sized(recs, stats))[stats[i].len].contains(recs[j]),
{
    lemma_shared_key_grouped(sized(recs, stats), i, j);
}

/// A record together with the whole content of its representative path.
#[derive(Debug)]
pub struct LoadedFile {
    pub file: MetaFile,
    pub content: Vec<u8>,
}

/// The mathematical value of a [`LoadedFile`].
pub struct LoadedFileView {
    pub file: MetaFileView,
    pub content: Seq<u8>,
}

impl View for LoadedFile {
    type V = LoadedFileView;

    open spec fn view(&self) -> LoadedFileView {
        LoadedFileView { file: self.file@, content: self.content@ }
    }
}

impl DeepView for LoadedFile {
    type V = LoadedFileView;

    open spec fn deep_view(&self) -> LoadedFileView {
        self@
    }
}

/// Each record paired with the checksum of its content.
pub open spec fn checksummed(fs: Seq<LoadedFileView>) -> Seq<(u32, MetaFileView)> {
    fs.map_values(|f: LoadedFileView| (adler32_spec(f.content), f.file))
}

impl LoadedFile {
    /// The checksum of the content.
    pub fn checksum(&self) -> (sum: u32)
        ensures
            sum == adler32_spec(self.content@),
    {
        checksum(self.content.as_slice())
    }
}

/// `par_iter`, `map` and `collect` of rayon: the checksum of each file, each
/// computed by [`LoadedFile::checksum`] on a worker of the thread pool, and
/// collected in the order of the files.
#[verifier::external_body]
fn par_checksums(fs: &Vec<LoadedFile>) -> (sums: Vec<u32>)
    ensures
        sums.len() == fs.len(),
        forall|i: int| 0 <= i < fs.len() ==> sums[i] == adler32_spec(#[trigger] fs[i].content@),
{
    fs.par_iter().map(LoadedFile::checksum).collect()
}

/// Pairs every record with the checksum of its content, keeping the order.
/// The checksums are computed in parallel; each depends on its own file
/// alone, so the result is the same on every schedule.
pub fn calc_file_checksums(fs: Vec<LoadedFile>) -> (cs: Vec<(u32, MetaFile)>)
    ensures
        cs.deep_view() == checksummed(fs.deep_view()),
{
    let ghost all = fs.deep_view();
    let sums = par_checksums(&fs);
    let mut cs: Vec<(u32, MetaFile)> = Vec::new();
    let mut done: usize = 0;
    for f in it: fs.into_iter()
        invariant
            done == it.index(),
            sums.len() == all.len(),
            it.seq().len() == all.len(),
            forall|i: int| 0 <= i < all.len() ==> (#[trigger] it.seq()[i])@ == all[i],
            forall|i: int| 0 <= i < all.len() ==> sums[i] == adler32_spec(#[trigger] all[i].content),
            cs.deep_view() == checksummed(all.take(it.index() as int)),
    {
        let ghost n = it.index() as int;
        cs.push((sums[done], f.file));
        assert(checksummed(all.take(n + 1)) =~= checksummed(all.take(n)).push(
            (adler32_spec(all[n].content), all[n].file),
        ));
        done = done + 1;
    }
    cs
}

/// The duplicate groups, each under the checksum its members share.
pub type Dups = HashMap<u32, Vec<MetaFile>>;

/// The running checksum grouping: it takes the checksummed records of one
/// size group after the other, and gives the duplicate groups at the end.
pub struct DupFinder {
    sums: Grouping<u32>,
}

impl View for DupFinder {
    type V = Seq<(u32, MetaFileView)>;

    /// Every checksummed record taken so far, in the order taken.
    closed spec fn view(&self) -> Seq<(u32, MetaFileView)> {
        self.sums.items()
    }
}

impl DupFinder {
    /// The validity of the running grouping: it holds each record taken so
    /// far under its checksum, and knows which checksums occurred twice.
    pub closed spec fn wf(&self) -> bool {
        self.sums.wf()
    }

    /// The running grouping that has taken no record.
    pub fn new() -> (finder: Self)
        ensures
            finder.wf(),
            finder@ == Seq::<(u32, MetaFileView)>::empty(),
    {
        DupFinder { sums: Grouping::new() }
    }

    /// Takes the checksummed records of one size group.
    pub fn add_group(&mut self, cs: Vec<(u32, MetaFile)>)
        requires
            old(self).wf(),
        ensures
            final(self).wf(),
            final(self)@ == old(self)@ + cs.deep_view(),
    {
        let ghost all = cs.deep_view();
        for pair in it: cs.into_iter()
            invariant
                self.wf(),
                it.seq().len() == all.len(),
                forall|i: int|
                    0 <= i < all.len() ==> (#[trigger] it.seq()[i]).deep_view() == all[i],
                self@ == old(self)@ + all.take(it.index() as int),
        {
            let (checksum, fil) = pair;
            self.sums.add(checksum, fil);
        }
    }

    /// The duplicate groups among all the records taken: the checksums that
    /// two or more records share, each with those records.
    pub fn finish(self) -> (res: Dups)
        requires
            self.wf(),
        ensures
            groups_view(res@) == grouped(self@),
    {
        self.sums.finish()
    }
}

/// Every loaded file of every size group, group after group.
pub open spec fn all_loaded(groups: Seq<Seq<LoadedFileView>>) -> Seq<LoadedFileView> {
    groups.flatten()
}

/// The records of the loaded files, in order.
pub open spec fn loaded_records(fs: Seq<LoadedFileView>) -> Seq<MetaFileView> {
    fs.map_values(|f: LoadedFileView| f.file)
}

/// Checksum-bucket pruning: a record whose checksum no other record shares,
/// in its own size group or in another, is a member of no duplicate group.
///
/// The records must describe different files. Sharing a checksum with a
/// record of another size group is ruled out as well, because the grouping
/// runs over all size groups at once.
pub proof fn lemma_unique_checksum_pruned(groups: Seq<Seq<LoadedFileView>>, g: int, i: int)
    requires
        record_ids(loaded_records(all_loaded(groups))).no_duplicates(),
        0 <= g < groups.len(),
        0 <= i < groups[g].len(),
        forall|j: int|
            0 <= j < groups[g].len() && j != i ==> adler32_spec((#[trigger] groups[g][j]).content)
                != adler32_spec(groups[g][i].content),
        forall|h: int, j: int|
            0 <= h < groups.len() && h != g && 0 <= j < groups[h].len() ==> adler32_spec(
                (#[trigger] groups[h][j]).content,
            ) != adler32_spec(groups[g][i].content),
    ensures
        forall|sum: u32, r: MetaFileView|
            grouped(checksummed(all_loaded(groups))).contains_key(sum) && #[trigger] grouped(
                checksummed(all_loaded(groups)),
            )[sum].contains(r) ==> r.id != groups[g][i].file.id,
{
    let flat = all_loaded(groups);
    let items = checksummed(flat);
    let ids = record_ids(loaded_records(flat));
    let me = groups[g][i];
    lemma_flatten_members(groups);
    let at = choose|m: int| 0 <= m < flat.len() && flat[m] == me;
    assert forall|m: int| 0 <= m < items.len() && m != at implies (#[trigger] items[m]).0
        != items[at].0 by {
        assert(flat.contains(flat[m]));
        let (h, j) = choose|h: int, j: int|
            0 <= h < groups.len() && 0 <= j < groups[h].len() && #[trigger] groups[h][j] == flat[m];
        if h == g && j == i {
            assert(ids[m] == ids[at]);
        }
    }
    lemma_lone_key_dropped(items, at);
    assert forall|sum: u32, r: MetaFileView|
        grouped(items).contains_key(sum) && #[trigger] grouped(items)[sum].contains(
            r,
        ) implies r.id != me.file.id by {
        let m = choose|m: int| 0 <= m < items.len() && m != at && #[trigger] items[m] == (sum, r);
        assert(ids[m] == r.id);
        assert(ids[at] == me.file.id);
    }
}

/// Two different loaded files with the same content are members of one
/// duplicate group, the group of that content's checksum.
pub proof fn lemma_equal_content_grouped(fs: Seq<LoadedFileView>, i: int, j: int)
    requires
        0 <= i < fs.len(),
        0 <= j < fs.len(),
        i != j,
        fs[i].content == fs[j].content,
    ensures
        grouped(checksummed(fs)).contains_key(adler32_spec(fs[i].content)),
        grouped(checksummed(fs))[adler32_spec(fs[i].content)].contains(fs[i].file),
        grouped(checksummed(fs))[adler32_spec(fs[i].content)].contains(fs[j].file),
{
    lemma_shared_key_grouped(checksummed(fs), i, j);
}

/// Groups the members of the size groups by the checksum of their content
/// and keeps the groups of two or more.
///
/// Checksums are gathered over all size groups before any group is dropped,
/// so two records of different sizes whose checksums collide form a group.
/// A size group of fewer than two records is not accepted.
pub fn filter_non_dups(sizewise_dups: Vec<Vec<LoadedFile>>) -> (res: Dups)
    requires
        forall|g: int| 0 <= g < sizewise_dups.len() ==> (#[trigger] sizewise_dups[g]).len() > 1,
    ensures
        groups_view(res@) == grouped(checksummed(all_loaded(sizewise_dups.deep_view()))),
{
    let ghost groups = sizewise_dups.deep_view();
    let mut finder = DupFinder::new();
    for files in it: sizewise_dups.into_iter()
        invariant
            finder.wf(),
            it.seq().len() == groups.len(),
            forall|g: int|
                0 <= g < groups.len() ==> (#[trigger] it.seq()[g]).deep_view() == groups[g],
            finder@ == checksummed(groups.take(it.index() as int).flatten_alt()),
    {
        let ghost n = it.index() as int;
        let cs = calc_file_checksums(files);
        finder.add_group(cs);
        proof {
            assert(groups.take(n + 1).drop_last() =~= groups.take(n));
        }
    }
    proof {
        assert(groups.take(groups.len() as int) =~= groups);
        groups.lemma_flatten_and_flatten_alt_are_equivalent();
    }
    finder.finish()
}

} // verus!
