//! Whether one path lies somewhere under the directory that holds another.
//!
//! Paths are taken apart by `std::path::Path`, so that repeated separators,
//! `.` components and trailing separators count as `Path` counts them. The
//! question itself is then settled on the components.

use std::path::{Component, Path};
use vstd::prelude::*;

verus! {

/// One component of a path, as `std::path::Component` tells them apart.
#[derive(Debug)]
pub enum PathPart {
    /// A prefix such as a drive letter; none occurs on Unix.
    Prefix(String),
    /// The root directory, at the start of an absolute path.
    RootDir,
    /// A leading `.`.
    CurDir,
    /// A `..`.
    ParentDir,
    /// The name of a file or directory.
    Normal(String),
}

/// The mathematical value of a [`PathPart`].
pub enum PathPartView {
    Prefix(Seq<char>),
    RootDir,
    CurDir,
    ParentDir,
    Normal(Seq<char>),
}

impl View for PathPart {
    type V = PathPartView;

    open spec fn view(&self) -> PathPartView {
        match self {
            PathPart::Prefix(p) => PathPartView::Prefix(p@),
            PathPart::RootDir => PathPartView::RootDir,
            PathPart::CurDir => PathPartView::CurDir,
            PathPart::ParentDir => PathPartView::ParentDir,
            PathPart::Normal(name) => PathPartView::Normal(name@),
        }
    }
}

impl DeepView for PathPart {
    type V = PathPartView;

    open spec fn deep_view(&self) -> PathPartView {
        self@
    }
}

/// The components that `Path::components` gives for a path, in order.
pub uninterp spec fn path_parts(p: Seq<char>) -> Seq<PathPartView>;

/// `Path::components`, on a path given as a string, each component handed
/// out as a [`PathPart`].
#[verifier::external_body]
fn parts_of(p: &str) -> (parts: Vec<PathPart>)
    ensures
        parts.deep_view() == path_parts(p@),
{
    let mut parts = Vec::new();
    for component in Path::new(p).components() {
        parts.push(
            match component {
                Component::Prefix(p) => PathPart::Prefix(
                    p.as_os_str().to_string_lossy().into_owned(),
                ),
                Component::RootDir => PathPart::RootDir,
                Component::CurDir => PathPart::CurDir,
                Component::ParentDir => PathPart::ParentDir,
                Component::Normal(name) => PathPart::Normal(name.to_string_lossy().into_owned()),
            },
        );
    }
    parts
}

/// Whether a component can be left off to reach a parent: a name, or `.` or
/// `..`, but no root and no prefix.
pub open spec fn is_step(part: PathPartView) -> bool {
    part is Normal || part is CurDir || part is ParentDir
}

/// The parent of a path: the path without its final component, or `None`
/// where the path is empty or ends in a root or a prefix.
pub open spec fn parent_parts(parts: Seq<PathPartView>) -> Option<Seq<PathPartView>> {
    if parts.len() > 0 && is_step(parts.last()) {
        Some(parts.drop_last())
    } else {
        None
    }
}

/// The path reached by taking the parent `n` times, while there is one. The
/// ancestors of a path are the paths reached so, the path itself being the
/// first.
pub open spec fn nth_ancestor(parts: Seq<PathPartView>, n: nat) -> Option<Seq<PathPartView>>
    decreases n,
{
    if n == 0 {
        Some(parts)
    } else {
        match nth_ancestor(parts, (n - 1) as nat) {
            Some(p) => parent_parts(p),
            None => None,
        }
    }
}

/// Whether `b` is `a`'s parent directory or lies anywhere below it: `a` has
/// a parent, and `b` or one of its ancestors equals that parent, component
/// by component.
pub open spec fn lies_under_parent(a: Seq<PathPartView>, b: Seq<PathPartView>) -> bool {
    match parent_parts(a) {
        Some(dir) => exists|n: nat| #[trigger] nth_ancestor(b, n) == Some(dir),
        None => false,
    }
}

/// What [`c_commands`] decides for two paths given as strings.
pub open spec fn c_commands_spec(a: Seq<char>, b: Seq<char>) -> bool {
    lies_under_parent(path_parts(a), path_parts(b))
}

/// Every ancestor is a leading part of the path, and the ones that exist are
/// those that are reached by leaving off steps only.
pub proof fn lemma_nth_ancestor(parts: Seq<PathPartView>, n: nat)
    ensures
        nth_ancestor(parts, n) == if n <= parts.len() && forall|i: int|
            parts.len() - n <= i < parts.len() ==> is_step(#[trigger] parts[i]) {
            Some(parts.take(parts.len() - n))
        } else {
            None
        },
    decreases n,
{
    if n > 0 {
        lemma_nth_ancestor(parts, (n - 1) as nat);
    }
}

/// The second path lies under the directory that holds the first exactly
/// when the first ends in a step, the components before that step are the
/// leading components of the second, and the second goes on with steps only.
pub proof fn lemma_c_command_is_leading_part(a: Seq<PathPartView>, b: Seq<PathPartView>)
    ensures
        lies_under_parent(a, b) <==> {
            &&& a.len() > 0
            &&& is_step(a.last())
            &&& a.len() - 1 <= b.len()
            &&& b.take(a.len() - 1) == a.drop_last()
            &&& forall|i: int| a.len() - 1 <= i < b.len() ==> is_step(#[trigger] b[i])
        },
{
    if a.len() > 0 && is_step(a.last()) {
        let dir = a.drop_last();
        if lies_under_parent(a, b) {
            let n = choose|n: nat| #[trigger] nth_ancestor(b, n) == Some(dir);
            lemma_nth_ancestor(b, n);
        }
        if a.len() - 1 <= b.len() && b.take(a.len() - 1) == dir && forall|i: int|
            a.len() - 1 <= i < b.len() ==> is_step(#[trigger] b[i]) {
            let n = (b.len() - dir.len()) as nat;
            lemma_nth_ancestor(b, n);
            assert(nth_ancestor(b, n) == Some(dir));
        }
    }
}

/// Whether two components are the same.
fn same_part(a: &PathPart, b: &PathPart) -> (same: bool)
    ensures
        same == (a@ == b@),
{
    match (a, b) {
        (PathPart::Prefix(x), PathPart::Prefix(y)) => *x == *y,
        (PathPart::RootDir, PathPart::RootDir) => true,
        (PathPart::CurDir, PathPart::CurDir) => true,
        (PathPart::ParentDir, PathPart::ParentDir) => true,
        (PathPart::Normal(x), PathPart::Normal(y)) => *x == *y,
        _ => false,
    }
}

/// Whether a component is a name, a `.` or a `..`.
fn step(part: &PathPart) -> (r: bool)
    ensures
        r == is_step(part@),
{
    match part {
        PathPart::Normal(_) => true,
        PathPart::CurDir => true,
        PathPart::ParentDir => true,
        _ => false,
    }
}

/// Whether the first `len` components of `a` and of `b` are the same.
fn same_start(a: &Vec<PathPart>, b: &Vec<PathPart>, len: usize) -> (same: bool)
    requires
        len <= a.len(),
        len <= b.len(),
    ensures
        same == (a.deep_view().take(len as int) == b.deep_view().take(len as int)),
{
    let mut i: usize = 0;
    while i < len
        invariant
            i <= len,
            len <= a.len(),
            len <= b.len(),
            forall|j: int| 0 <= j < i ==> a[j]@ == b[j]@,
        decreases len - i,
    {
        if !same_part(&a[i], &b[i]) {
            assert(a.deep_view().take(len as int)[i as int] != b.deep_view().take(
                len as int,
            )[i as int]);
            return false;
        }
        i = i + 1;
    }
    assert(a.deep_view().take(len as int) =~= b.deep_view().take(len as int));
    true
}

/// Decides on the components of two paths whether the second lies under the
/// directory that holds the first.
pub fn parts_c_commands(a: &Vec<PathPart>, b: &Vec<PathPart>) -> (r: bool)
    ensures
        r == lies_under_parent(a.deep_view(), b.deep_view()),
{
    let ghost av = a.deep_view();
    let ghost bv = b.deep_view();
    if a.len() == 0 || !step(&a[a.len() - 1]) {
        return false;
    }
    // The parent of `a` is `a` without its last component; `b` can reach a
    // path of that length only by leaving off steps.
    let dir_len = a.len() - 1;
    let ghost dir = av.drop_last();
    assert(dir =~= av.take(dir_len as int));
    if dir_len > b.len() {
        proof {
            assert forall|n: nat| #[trigger] nth_ancestor(bv, n) != Some(dir) by {
                lemma_nth_ancestor(bv, n);
            }
        }
        return false;
    }
    let mut at: usize = b.len();
    while at > dir_len
        invariant
            dir_len <= at <= b.len(),
            av == a.deep_view(),
            bv == b.deep_view(),
            parent_parts(av) == Some(dir),
            dir.len() == dir_len,
            forall|i: int| at <= i < b.len() ==> is_step(#[trigger] bv[i]),
        decreases at,
    {
        if !step(&b[at - 1]) {
            proof {
                assert(!is_step(bv[at - 1]));
                assert forall|n: nat| #[trigger] nth_ancestor(bv, n) != Some(dir) by {
                    lemma_nth_ancestor(bv, n);
                }
            }
            return false;
        }
        at = at - 1;
    }
    let same = same_start(a, b, dir_len);
    proof {
        if same {
            lemma_nth_ancestor(bv, (b.len() - dir_len) as nat);
        } else {
            assert forall|n: nat| #[trigger] nth_ancestor(bv, n) != Some(dir) by {
                lemma_nth_ancestor(bv, n);
            }
        }
    }
    same
}

/// Returns true if `b` is a descendant of `a`'s parent.
///
/// This is slightly broader than the linguistic definition of c-command when
/// `a` is a directory, as it includes all nodes dominated by `a`.
pub fn c_commands(a: &str, b: &str) -> (r: bool)
    ensures
        r == c_commands_spec(a@, b@),
{
    let a_parts = parts_of(a);
    let b_parts = parts_of(b);
    parts_c_commands(&a_parts, &b_parts)
}

} // verus!
