//! Identity records: one logical file, with every path known to reach it.

use crate::ordered_set::{
    id_set_insert_full, id_set_new, id_set_view, path_set_insert, path_set_new, path_set_union,
    path_set_view,
};
use identity_merge::lemma_register_preserves_wf;
use indexmap::IndexSet;
use vstd::prelude::*;
use vstd::string::StringExecFns;

pub mod c_command;
pub mod identity_merge;

verus! {

/// What is known of one path when it is handed to the library: the identifier
/// the OS reports for it (`None` when it could not be resolved), whether it
/// denotes a directory, and whether it is itself a symbolic link.
#[derive(Debug)]
pub struct PathInfo {
    pub path: String,
    pub id: Option<u64>,
    pub is_dir: bool,
    pub is_symlink: bool,
}

/// The mathematical value of a [`PathInfo`].
pub struct PathInfoView {
    pub path: Seq<char>,
    pub id: Option<u64>,
    pub is_dir: bool,
    pub is_symlink: bool,
}

impl View for PathInfo {
    type V = PathInfoView;

    open spec fn view(&self) -> PathInfoView {
        PathInfoView {
            path: self.path@,
            id: self.id,
            is_dir: self.is_dir,
            is_symlink: self.is_symlink,
        }
    }
}

impl DeepView for PathInfo {
    type V = PathInfoView;

    open spec fn deep_view(&self) -> PathInfoView {
        self@
    }
}

/// A path as the debug rendering of strings writes it: between double
/// quotes, with the characters that need it escaped.
pub uninterp spec fn quoted(path: Seq<char>) -> Seq<char>;

/// `format!` with `{:?}`, on a string.
#[verifier::external_body]
fn debug_quoted(path: &str) -> (q: String)
    ensures
        q@ == quoted(path@),
{
    format!("{:?}", path)
}

/// Each of the paths, quoted.
pub open spec fn quoted_paths(paths: Seq<Seq<char>>) -> Seq<Seq<char>> {
    paths.map_values(|p: Seq<char>| quoted(p))
}

/// The names of `names`, each followed by a comma and a space.
pub open spec fn comma_list(names: Seq<Seq<char>>) -> Seq<char>
    decreases names.len(),
{
    if names.len() == 0 {
        Seq::empty()
    } else {
        comma_list(names.drop_last()) + names.last() + seq![',', ' ']
    }
}

/// How a record is shown, given the names it is to be shown by: the first
/// name; where there are more, the others follow in brackets after `aka`,
/// separated by commas.
pub open spec fn display_spec(names: Seq<Seq<char>>) -> Seq<char> {
    if names.len() <= 1 {
        names[0]
    } else {
        names[0] + seq![' ', '(', 'a', 'k', 'a', ' '] + comma_list(
            names.subrange(1, names.len() - 1),
        ) + names.last() + seq![')']
    }
}

/// Lays out the names of one record: `first (aka second, third)`.
pub fn display_names(names: &Vec<String>) -> (shown: String)
    requires
        names.len() > 0,
    ensures
        shown@ == display_spec(names.deep_view()),
{
    proof {
        reveal_strlit(" (aka ");
        reveal_strlit(", ");
        reveal_strlit(")");
    }
    let ghost views = names.deep_view();
    let mut shown = names[0].clone();
    if names.len() > 1 {
        shown.append(" (aka ");
        let last = names.len() - 1;
        let mut idx: usize = 1;
        while idx < last
            invariant
                1 <= idx <= last,
                last == names.len() - 1,
                views == names.deep_view(),
                ", "@ == seq![',', ' '],
                shown@ == views[0] + seq![' ', '(', 'a', 'k', 'a', ' '] + comma_list(
                    views.subrange(1, idx as int),
                ),
            decreases last - idx,
        {
            shown.append(names[idx].as_str());
            shown.append(", ");
            assert(views.subrange(1, idx + 1).drop_last() =~= views.subrange(1, idx as int));
            assert(shown@ =~= views[0] + seq![' ', '(', 'a', 'k', 'a', ' '] + comma_list(
                views.subrange(1, idx + 1),
            ));
            idx = idx + 1;
        }
        assert(views[last as int] == names[last as int]@);
        shown.append(names[last].as_str());
        shown.append(")");
    }
    shown
}

/// One logical file: an OS identifier and the paths that share it.
#[derive(Debug)]
pub struct MetaFile {
    id: u64,
    files: IndexSet<String>,
    symlinks: IndexSet<String>,
}

/// The mathematical value of a [`MetaFile`]: its identifier, and its regular
/// paths and its symbolic-link paths, each in insertion order.
pub struct MetaFileView {
    pub id: u64,
    pub files: Seq<Seq<char>>,
    pub symlinks: Seq<Seq<char>>,
}

impl MetaFileView {
    /// The record that holds `path` alone.
    pub open spec fn single(id: u64, path: Seq<char>, is_symlink: bool) -> MetaFileView {
        if is_symlink {
            MetaFileView { id, files: Seq::empty(), symlinks: seq![path] }
        } else {
            MetaFileView { id, files: seq![path], symlinks: Seq::empty() }
        }
    }

    /// Every path of the record: the regular paths, then the symbolic links
    /// that are not also among the regular paths.
    pub open spec fn paths(self) -> Seq<Seq<char>> {
        self.files + self.symlinks.filter(|p: Seq<char>| !self.files.contains(p))
    }

    /// Whether `path` is one of the record's paths, regular or symbolic link.
    pub open spec fn knows(self, path: Seq<char>) -> bool {
        self.files.contains(path) || self.symlinks.contains(path)
    }

    /// Whether the record has at least one path.
    pub open spec fn has_path(self) -> bool {
        self.files.len() > 0 || self.symlinks.len() > 0
    }

    /// Whether no path occurs twice among the regular paths, nor among the
    /// symbolic links.
    pub open spec fn distinct_paths(self) -> bool {
        self.files.no_duplicates() && self.symlinks.no_duplicates()
    }

    /// Whether the record already holds `path` in the subset it belongs to.
    pub open spec fn holds(self, path: Seq<char>, is_symlink: bool) -> bool {
        if is_symlink {
            self.symlinks.contains(path)
        } else {
            self.files.contains(path)
        }
    }

    /// The record after `path` was added: unchanged where it already holds
    /// the path, else with the path appended to the subset it belongs to.
    pub open spec fn with_path(self, path: Seq<char>, is_symlink: bool) -> MetaFileView {
        if self.holds(path, is_symlink) {
            self
        } else if is_symlink {
            MetaFileView { symlinks: self.symlinks.push(path), ..self }
        } else {
            MetaFileView { files: self.files.push(path), ..self }
        }
    }
}

impl View for MetaFile {
    type V = MetaFileView;

    closed spec fn view(&self) -> MetaFileView {
        MetaFileView {
            id: self.id,
            files: path_set_view(self.files),
            symlinks: path_set_view(self.symlinks),
        }
    }
}

impl DeepView for MetaFile {
    type V = MetaFileView;

    open spec fn deep_view(&self) -> MetaFileView {
        self@
    }
}

impl MetaFile {
    /// The record of `id` with the given regular paths and symbolic links.
    pub fn new(id: u64, files: IndexSet<String>, symlinks: IndexSet<String>) -> (mf: Self)
        ensures
            mf@ == (MetaFileView {
                id,
                files: path_set_view(files),
                symlinks: path_set_view(symlinks),
            }),
    {
        Self { id, files, symlinks }
    }

    /// The record of `id` that has no path yet.
    pub fn from_id(id: u64) -> (mf: Self)
        ensures
            mf@ == (MetaFileView { id, files: Seq::empty(), symlinks: Seq::empty() }),
    {
        Self { id, files: path_set_new(), symlinks: path_set_new() }
    }

    /// The record of `id` whose one path is `file`, filed as a symbolic link
    /// or as a regular path.
    pub fn from_id_and_path(id: u64, file: String, is_symlink: bool) -> (mf: Self)
        ensures
            mf@ == MetaFileView::single(id, file@, is_symlink),
    {
        let mut files = path_set_new();
        let mut symlinks = path_set_new();
        if is_symlink {
            path_set_insert(&mut symlinks, file);
        } else {
            path_set_insert(&mut files, file);
        }
        let mf = Self::new(id, files, symlinks);
        mf
    }

    /// Adds a path to the record if the path resolved to the record's
    /// identifier. `Ok` tells whether the path was new to the record; `Err`
    /// means that the path did not resolve, or resolved to another file, and
    /// leaves the record as it was.
    pub fn try_add_path(&mut self, p: PathInfo) -> (r: Result<bool, ()>)
        ensures
            match r {
                Ok(added) => {
                    &&& p@.id == Some(old(self)@.id)
                    &&& added == !old(self)@.holds(p@.path, p@.is_symlink)
                    &&& final(self)@ == old(self)@.with_path(p@.path, p@.is_symlink)
                },
                Err(_) => p@.id != Some(old(self)@.id) && final(self)@ == old(self)@,
            },
    {
        if p.id != Some(self.id) {
            return Err(());
        }
        let added = if p.is_symlink {
            path_set_insert(&mut self.symlinks, p.path)
        } else {
            path_set_insert(&mut self.files, p.path)
        };
        Ok(added)
    }

    /// The identifier that all paths of the record share.
    pub fn id(&self) -> (id: u64)
        ensures
            id == self@.id,
    {
        self.id
    }

    /// Every path of the record: the regular paths in the order in which
    /// they were added, then the symbolic links that are not also among them.
    pub fn paths(&self) -> (all: Vec<String>)
        ensures
            all.deep_view() == self@.paths(),
    {
        path_set_union(&self.files, &self.symlinks)
    }

    /// Whether the first path of `other` lies under the directory that holds
    /// the first path of `self`. Both records must have a path.
    pub fn c_commands(&self, other: &Self) -> (r: bool)
        requires
            self@.paths().len() > 0,
            other@.paths().len() > 0,
        ensures
            r == c_command::c_commands_spec(self@.paths()[0], other@.paths()[0]),
    {
        let mine = self.paths();
        let theirs = other.paths();
        c_command::c_commands(mine[0].as_str(), theirs[0].as_str())
    }

    /// The record as it is shown to the user: its first path, quoted, and
    /// after it the other paths it is also known as. The record must have a
    /// path.
    pub fn to_string(&self) -> (shown: String)
        requires
            self@.paths().len() > 0,
        ensures
            shown@ == display_spec(quoted_paths(self@.paths())),
    {
        let paths = self.paths();
        let ghost views = paths.deep_view();
        let mut names: Vec<String> = Vec::new();
        let mut i: usize = 0;
        while i < paths.len()
            invariant
                i <= paths.len(),
                views == paths.deep_view(),
                names.deep_view() == quoted_paths(views.take(i as int)),
            decreases paths.len() - i,
        {
            let q = debug_quoted(paths[i].as_str());
            names.push(q);
            assert(quoted_paths(views.take(i + 1)) =~= quoted_paths(views.take(i as int)).push(
                quoted(views[i as int]),
            ));
            i = i + 1;
        }
        assert(views.take(paths.len() as int) =~= views);
        display_names(&names)
    }
}

impl PartialEq for MetaFile {
    /// Two records are equal when they describe the same file, whatever
    /// paths each has gathered.
    fn eq(&self, other: &Self) -> (r: bool) {
        self.id == other.id
    }
}

impl Eq for MetaFile {

}

impl vstd::std_specs::cmp::PartialEqSpecImpl for MetaFile {
    open spec fn obeys_eq_spec() -> bool {
        true
    }

    open spec fn eq_spec(&self, other: &Self) -> bool {
        self@.id == other@.id
    }
}

/// The identifiers of a sequence of records, in order.
pub open spec fn record_ids(recs: Seq<MetaFileView>) -> Seq<u64> {
    recs.map_values(|r: MetaFileView| r.id)
}

/// What holds of the records of a registry: no two describe the same file,
/// each has at least one path, and none holds a path twice.
pub open spec fn registry_wf(recs: Seq<MetaFileView>) -> bool {
    &&& record_ids(recs).no_duplicates()
    &&& forall|i: int| 0 <= i < recs.len() ==> (#[trigger] recs[i]).has_path()
    &&& forall|i: int| 0 <= i < recs.len() ==> (#[trigger] recs[i]).distinct_paths()
}

/// The registry after one path was offered to it. A directory is passed over
/// unless `keep_dirs`, and so is a path that did not resolve; any other path
/// joins the record of its identifier, or founds that record.
pub open spec fn register_spec(
    recs: Seq<MetaFileView>,
    p: PathInfoView,
    keep_dirs: bool,
) -> Seq<MetaFileView> {
    if !keep_dirs && p.is_dir {
        recs
    } else {
        match p.id {
            None => recs,
            Some(id) => if record_ids(recs).contains(id) {
                let i = record_ids(recs).index_of(id);
                recs.update(i, recs[i].with_path(p.path, p.is_symlink))
            } else {
                recs.push(MetaFileView::single(id, p.path, p.is_symlink))
            },
        }
    }
}

/// The registry after a sequence of paths was offered to it, one after the
/// other.
pub open spec fn collect_spec(
    recs: Seq<MetaFileView>,
    paths: Seq<PathInfoView>,
    keep_dirs: bool,
) -> Seq<MetaFileView>
    decreases paths.len(),
{
    if paths.len() == 0 {
        recs
    } else {
        register_spec(collect_spec(recs, paths.drop_last(), keep_dirs), paths.last(), keep_dirs)
    }
}

/// The set of identity records: every path seen so far, filed under the
/// identifier it resolved to. Records stay in the order in which their
/// identifiers were first seen.
#[derive(Debug)]
pub struct Registry {
    index: IndexSet<u64>,
    records: Vec<MetaFile>,
}

impl View for Registry {
    type V = Seq<MetaFileView>;

    closed spec fn view(&self) -> Seq<MetaFileView> {
        self.records.deep_view()
    }
}

impl Registry {
    /// Whether the index holds the identifier of each record at the record's
    /// own position.
    pub closed spec fn indexed(&self) -> bool {
        id_set_view(self.index) == record_ids(self@)
    }

    /// The validity of a registry.
    pub open spec fn wf(&self) -> bool {
        self.indexed() && registry_wf(self@)
    }

    /// The registry that has seen no path.
    pub fn new() -> (reg: Self)
        ensures
            reg.wf(),
            reg@ == Seq::<MetaFileView>::empty(),
    {
        let reg = Registry { index: id_set_new(), records: Vec::new() };
        assert(record_ids(reg@) =~= Seq::<u64>::empty());
        reg
    }

    /// The number of records.
    pub fn len(&self) -> (n: usize)
        ensures
            n == self@.len(),
    {
        self.records.len()
    }

    /// The records, in the registry's order.
    pub fn records(&self) -> (records: &Vec<MetaFile>)
        ensures
            records.deep_view() == self@,
    {
        &self.records
    }

    /// The records, in the registry's order.
    pub fn into_records(self) -> (records: Vec<MetaFile>)
        ensures
            records.deep_view() == self@,
    {
        self.records
    }

    /// Offers one path to the registry.
    pub fn register(&mut self, p: PathInfo, keep_dirs: bool)
        requires
            old(self).wf(),
        ensures
            final(self).wf(),
            final(self)@ == register_spec(old(self)@, p@, keep_dirs),
    {
        proof {
            lemma_register_preserves_wf(self@, p@, keep_dirs);
        }
        if !keep_dirs && p.is_dir {
            return ;
        }
        let id = match p.id {
            Some(id) => id,
            None => {
                return ;
            },
        };
        let ghost before = self@;
        let (at, fresh) = id_set_insert_full(&mut self.index, id);
        if fresh {
            self.records.push(MetaFile::from_id_and_path(id, p.path, p.is_symlink));
            assert(self@ =~= before.push(MetaFileView::single(id, p@.path, p@.is_symlink)));
            assert(record_ids(self@) =~= record_ids(before).push(id));
        } else {
            let joined = self.records[at].try_add_path(p);
            assert(joined is Ok);
            assert(self@ =~= before.update(
                at as int,
                before[at as int].with_path(p@.path, p@.is_symlink),
            ));
            assert(record_ids(self@) =~= record_ids(before));
        }
    }
}

/// Offers each of `paths` to the registry, in order.
pub fn collect_into_metafiles(acc: &mut Registry, paths: Vec<PathInfo>, keep_dirs: bool)
    requires
        old(acc).wf(),
    ensures
        final(acc).wf(),
        final(acc)@ == collect_spec(old(acc)@, paths.deep_view(), keep_dirs),
{
    let ghost all = paths.deep_view();
    for p in it: paths.into_iter()
        invariant
            acc.wf(),
            it.seq().len() == all.len(),
            forall|k: int| 0 <= k < all.len() ==> (#[trigger] it.seq()[k])@ == all[k],
            acc@ == collect_spec(old(acc)@, all.take(it.index() as int), keep_dirs),
    {
        assert(all.take(it.index() + 1).drop_last() =~= all.take(it.index() as int));
        acc.register(p, keep_dirs);
    }
    assert(all.take(all.len() as int) =~= all);
}

} // verus!
