//! What the registry makes of the paths it is offered: links to one file
//! collapse into one record, and different files stay apart.

use crate::metafile::{
    collect_spec, record_ids, register_spec, registry_wf, MetaFileView, PathInfoView,
};
use vstd::prelude::*;

verus! {

/// Offering a path to a well-formed registry leaves it well formed.
pub proof fn lemma_register_preserves_wf(recs: Seq<MetaFileView>, p: PathInfoView, keep_dirs: bool)
    requires
        registry_wf(recs),
    ensures
        registry_wf(register_spec(recs, p, keep_dirs)),
{
    let out = register_spec(recs, p, keep_dirs);
    if out != recs {
        let id = p.id.unwrap();
        if record_ids(recs).contains(id) {
            assert(record_ids(out) =~= record_ids(recs));
        } else {
            assert(record_ids(out) =~= record_ids(recs).push(id));
        }
    }
}

/// Offering a path a second time changes nothing.
pub proof fn lemma_register_idempotent(recs: Seq<MetaFileView>, p: PathInfoView, keep_dirs: bool)
    requires
        registry_wf(recs),
    ensures
        register_spec(register_spec(recs, p, keep_dirs), p, keep_dirs) == register_spec(
            recs,
            p,
            keep_dirs,
        ),
{
    let once = register_spec(recs, p, keep_dirs);
    if (keep_dirs || !p.is_dir) && p.id is Some {
        let id = p.id.unwrap();
        lemma_register_preserves_wf(recs, p, keep_dirs);
        let at = if record_ids(recs).contains(id) {
            record_ids(recs).index_of(id)
        } else {
            recs.len() as int
        };
        assert(record_ids(once)[at] == id);
        assert(once[at].holds(p.path, p.is_symlink)) by {
            let grown = once[at];
            if p.is_symlink {
                assert(grown.symlinks.last() == p.path || recs[at].symlinks.contains(p.path));
            } else {
                assert(grown.files.last() == p.path || recs[at].files.contains(p.path));
            }
        }
    }
}

/// Whether the registry takes a path in: the path resolved to an identifier,
/// and it is no directory unless directories are kept.
pub open spec fn accepted(p: PathInfoView, keep_dirs: bool) -> bool {
    (keep_dirs || !p.is_dir) && p.id is Some
}

/// The paths among `paths` that the registry takes in under the identifier
/// `id`: the paths that are linked to that one file.
pub open spec fn linked_paths(paths: Seq<PathInfoView>, id: u64, keep_dirs: bool) -> Set<
    Seq<char>,
> {
    Set::new(
        |q: Seq<char>|
            exists|i: int|
                0 <= i < paths.len() && accepted(#[trigger] paths[i], keep_dirs) && paths[i].id
                    == Some(id) && paths[i].path == q,
    )
}

/// The paths that the records file under the identifier `id`.
pub open spec fn paths_of(recs: Seq<MetaFileView>, id: u64) -> Set<Seq<char>> {
    Set::new(
        |q: Seq<char>|
            exists|r: int| 0 <= r < recs.len() && (#[trigger] recs[r]).id == id && recs[r].knows(q),
    )
}

/// The paths of a record are the paths it knows.
pub proof fn lemma_paths_are_known(r: MetaFileView)
    ensures
        forall|q: Seq<char>| #[trigger] r.paths().contains(q) <==> r.knows(q),
        r.has_path() <==> r.paths().len() > 0,
{
    let unfiled = |p: Seq<char>| !r.files.contains(p);
    let rest = r.symlinks.filter(unfiled);
    assert forall|q: Seq<char>| #[trigger] r.paths().contains(q) <==> r.knows(q) by {
        if r.paths().contains(q) {
            let i = choose|i: int| 0 <= i < r.paths().len() && r.paths()[i] == q;
            if i >= r.files.len() {
                r.symlinks.lemma_filter_contains_rev(unfiled, q);
            }
        }
        if r.files.contains(q) {
            let i = choose|i: int| 0 <= i < r.files.len() && r.files[i] == q;
            assert(r.paths()[i] == q);
        } else if r.symlinks.contains(q) {
            let i = choose|i: int| 0 <= i < r.symlinks.len() && r.symlinks[i] == q;
            r.symlinks.lemma_filter_contains(unfiled, i);
            let j = choose|j: int| 0 <= j < rest.len() && rest[j] == q;
            assert(r.paths()[r.files.len() + j] == q);
        }
    }
    if r.has_path() {
        let q = if r.files.len() > 0 {
            r.files[0]
        } else {
            r.symlinks[0]
        };
        assert(r.paths().contains(q));
    }
}

/// Offering a path adds it to the paths filed under its identifier, if the
/// registry takes it in, and changes the paths of no other identifier.
pub proof fn lemma_register_paths(
    recs: Seq<MetaFileView>,
    p: PathInfoView,
    keep_dirs: bool,
    id: u64,
)
    ensures
        paths_of(register_spec(recs, p, keep_dirs), id) == if accepted(p, keep_dirs) && p.id
            == Some(id) {
            paths_of(recs, id).insert(p.path)
        } else {
            paths_of(recs, id)
        },
{
    let out = register_spec(recs, p, keep_dirs);
    if accepted(p, keep_dirs) {
        let pid = p.id.unwrap();
        if record_ids(recs).contains(pid) {
            let i = record_ids(recs).index_of(pid);
            let grown = recs[i].with_path(p.path, p.is_symlink);
            assert forall|q: Seq<char>| grown.knows(q) <==> recs[i].knows(q) || q == p.path by {
                if p.is_symlink {
                    if !recs[i].symlinks.contains(p.path) {
                        lemma_push_contains(recs[i].symlinks, p.path, q);
                    }
                } else {
                    if !recs[i].files.contains(p.path) {
                        lemma_push_contains(recs[i].files, p.path, q);
                    }
                }
            }
            assert forall|q: Seq<char>|
                paths_of(out, id).contains(q) <==> (paths_of(recs, id).contains(q) || (pid == id
                    && q == p.path)) by {
                if pid == id && q == p.path {
                    assert(out[i].id == id && out[i].knows(q));
                }
            }
        } else {
            let fresh = MetaFileView::single(pid, p.path, p.is_symlink);
            assert forall|q: Seq<char>| fresh.knows(q) <==> q == p.path by {
                lemma_push_contains(Seq::empty(), p.path, q);
            }
            assert forall|q: Seq<char>|
                paths_of(out, id).contains(q) <==> (paths_of(recs, id).contains(q) || (pid == id
                    && q == p.path)) by {
                if pid == id && q == p.path {
                    let r = recs.len() as int;
                    assert(out[r].id == id && out[r].knows(q));
                }
            }
            if pid == id {
                assert(paths_of(out, id) =~= paths_of(recs, id).insert(p.path));
            } else {
                assert(paths_of(out, id) =~= paths_of(recs, id));
            }
        }
    }
}

/// What a sequence holds after a push: what it held, and the new value.
proof fn lemma_push_contains<T>(s: Seq<T>, v: T, q: T)
    ensures
        s.push(v).contains(q) <==> s.contains(q) || q == v,
{
    if s.contains(q) {
        let i = choose|i: int| 0 <= i < s.len() && s[i] == q;
        assert(s.push(v)[i] == q);
    }
    if q == v {
        assert(s.push(v)[s.len() as int] == q);
    }
}

/// After a run of paths was offered, the paths filed under an identifier
/// are those filed before and the paths of the run that are linked to it.
pub proof fn lemma_collect_paths(
    recs: Seq<MetaFileView>,
    paths: Seq<PathInfoView>,
    keep_dirs: bool,
    id: u64,
)
    ensures
        paths_of(collect_spec(recs, paths, keep_dirs), id) == paths_of(recs, id).union(
            linked_paths(paths, id, keep_dirs),
        ),
    decreases paths.len(),
{
    if paths.len() > 0 {
        let init = paths.drop_last();
        let last = paths.last();
        lemma_collect_paths(recs, init, keep_dirs, id);
        lemma_register_paths(collect_spec(recs, init, keep_dirs), last, keep_dirs, id);
        assert forall|q: Seq<char>|
            linked_paths(paths, id, keep_dirs).contains(q) <==> (linked_paths(
                init,
                id,
                keep_dirs,
            ).contains(q) || (accepted(last, keep_dirs) && last.id == Some(id) && last.path
                == q)) by {
            if linked_paths(paths, id, keep_dirs).contains(q) {
                let i = choose|i: int|
                    0 <= i < paths.len() && accepted(#[trigger] paths[i], keep_dirs) && paths[i].id
                        == Some(id) && paths[i].path == q;
                if i < init.len() {
                    assert(init[i] == paths[i]);
                }
            }
        }
    }
}

/// Identity merge: after any run of paths was offered to an empty registry,
/// no two records describe the same file; every path that was taken in finds
/// the record of its identifier; and the paths of each record are exactly
/// the paths of the run that are linked to the record's file. So paths that
/// are links to one file collapse into one record, and a path to another
/// file is kept in another record.
pub proof fn lemma_identity_merge(paths: Seq<PathInfoView>, keep_dirs: bool)
    ensures
        ({
            let recs = collect_spec(Seq::empty(), paths, keep_dirs);
            &&& registry_wf(recs)
            &&& forall|i: int|
                0 <= i < paths.len() && accepted(#[trigger] paths[i], keep_dirs)
                    ==> record_ids(recs).contains(paths[i].id.unwrap())
            &&& forall|r: int|
                0 <= r < recs.len() ==> (#[trigger] recs[r]).paths().to_set() == linked_paths(
                    paths,
                    recs[r].id,
                    keep_dirs,
                )
        }),
{
    let none = Seq::<MetaFileView>::empty();
    let recs = collect_spec(none, paths, keep_dirs);
    lemma_collect_preserves_wf(none, paths, keep_dirs);
    assert forall|i: int|
        0 <= i < paths.len() && accepted(#[trigger] paths[i], keep_dirs) implies record_ids(
        recs,
    ).contains(paths[i].id.unwrap()) by {
        let id = paths[i].id.unwrap();
        lemma_collect_paths(none, paths, keep_dirs, id);
        assert(paths_of(recs, id).contains(paths[i].path));
        let r = choose|r: int|
            0 <= r < recs.len() && (#[trigger] recs[r]).id == id && recs[r].knows(paths[i].path);
        assert(record_ids(recs)[r] == id);
    }
    assert forall|r: int| 0 <= r < recs.len() implies (#[trigger] recs[r]).paths().to_set()
        == linked_paths(paths, recs[r].id, keep_dirs) by {
        let id = recs[r].id;
        lemma_collect_paths(none, paths, keep_dirs, id);
        lemma_paths_are_known(recs[r]);
        assert forall|q: Seq<char>| recs[r].knows(q) <==> paths_of(recs, id).contains(q) by {
            if paths_of(recs, id).contains(q) {
                let o = choose|o: int|
                    0 <= o < recs.len() && (#[trigger] recs[o]).id == id && recs[o].knows(q);
                assert(record_ids(recs)[o] == record_ids(recs)[r]);
            }
        }
    }
}

/// Offering two runs of paths one after the other is offering their
/// concatenation.
pub proof fn lemma_collect_concat(
    recs: Seq<MetaFileView>,
    a: Seq<PathInfoView>,
    b: Seq<PathInfoView>,
    keep_dirs: bool,
)
    ensures
        collect_spec(recs, a + b, keep_dirs) == collect_spec(
            collect_spec(recs, a, keep_dirs),
            b,
            keep_dirs,
        ),
    decreases b.len(),
{
    if b.len() > 0 {
        lemma_collect_concat(recs, a, b.drop_last(), keep_dirs);
        assert((a + b).drop_last() =~= a + b.drop_last());
    }
}

/// Offering paths to a well-formed registry leaves it well formed.
pub proof fn lemma_collect_preserves_wf(
    recs: Seq<MetaFileView>,
    paths: Seq<PathInfoView>,
    keep_dirs: bool,
)
    requires
        registry_wf(recs),
    ensures
        registry_wf(collect_spec(recs, paths, keep_dirs)),
    decreases paths.len(),
{
    if paths.len() > 0 {
        lemma_collect_preserves_wf(recs, paths.drop_last(), keep_dirs);
        lemma_register_preserves_wf(
            collect_spec(recs, paths.drop_last(), keep_dirs),
            paths.last(),
            keep_dirs,
        );
    }
}

} // verus!
