//! The bookkeeping of a recursive directory walk.
//!
//! A walk reads one directory at a time. The subdirectories it meets are not
//! entered at once: they wait on a stack, and when the directory being read
//! is exhausted the walk goes on with the subdirectory found last. The
//! caller does the reading and tells the walk what each read gave; the walk
//! answers with what to do next.

use vstd::prelude::*;

verus! {

/// What reading the current directory gave.
#[derive(Debug)]
pub enum DirEvent {
    /// An entry, with its path and whether it is a directory. A symbolic link
    /// is no directory, whatever it points to.
    Entry { path: String, is_dir: bool },
    /// An entry that could not be read.
    Unreadable,
    /// Nothing: the directory has no further entry, or could not be opened.
    Exhausted,
}

/// What the caller is to do next.
#[derive(Debug)]
pub enum WalkStep {
    /// Hand on what was just read, and read the next entry.
    Yield,
    /// Open this directory and read its entries from now on.
    Open(String),
    /// Stop: every directory has been read.
    Done,
}

/// The mathematical value of a [`WalkStep`].
pub enum WalkStepView {
    Yield,
    Open(Seq<char>),
    Done,
}

impl View for WalkStep {
    type V = WalkStepView;

    open spec fn view(&self) -> WalkStepView {
        match self {
            WalkStep::Yield => WalkStepView::Yield,
            WalkStep::Open(dir) => WalkStepView::Open(dir@),
            WalkStep::Done => WalkStepView::Done,
        }
    }
}

/// The directories that a walk has met and not yet read, the one met last on
/// top.
#[derive(Debug)]
pub struct RecReadDir {
    dirs: Vec<String>,
}

impl View for RecReadDir {
    type V = Seq<Seq<char>>;

    closed spec fn view(&self) -> Seq<Seq<char>> {
        self.dirs.deep_view()
    }
}

/// The waiting directories after an event.
pub open spec fn pending_after(pending: Seq<Seq<char>>, ev: DirEvent) -> Seq<Seq<char>> {
    match ev {
        DirEvent::Entry { path, is_dir } => if is_dir {
            pending.push(path@)
        } else {
            pending
        },
        DirEvent::Unreadable => pending,
        DirEvent::Exhausted => if pending.len() == 0 {
            pending
        } else {
            pending.drop_last()
        },
    }
}

/// The step that answers an event.
pub open spec fn step_after(pending: Seq<Seq<char>>, ev: DirEvent) -> WalkStepView {
    match ev {
        DirEvent::Entry { .. } => WalkStepView::Yield,
        DirEvent::Unreadable => WalkStepView::Yield,
        DirEvent::Exhausted => if pending.len() == 0 {
            WalkStepView::Done
        } else {
            WalkStepView::Open(pending.last())
        },
    }
}

impl RecReadDir {
    /// A walk in which no directory waits: the caller has opened the start
    /// directory and is about to read it.
    pub fn new() -> (walk: RecReadDir)
        ensures
            walk@ == Seq::<Seq<char>>::empty(),
    {
        let walk = RecReadDir { dirs: Vec::new() };
        walk
    }

    /// Takes what the last read gave and says what to do next.
    ///
    /// Every entry is handed on, readable or not; a directory among them is
    /// put on the stack first. When the current directory is exhausted the
    /// walk asks for the directory on top of the stack, and ends when none is
    /// left.
    pub fn step(&mut self, ev: DirEvent) -> (next: WalkStep)
        ensures
            final(self)@ == pending_after(old(self)@, ev),
            next@ == step_after(old(self)@, ev),
    {
        match ev {
            DirEvent::Entry { path, is_dir } => {
                if is_dir {
                    self.dirs.push(path);
                }
                WalkStep::Yield
            },
            DirEvent::Unreadable => WalkStep::Yield,
            DirEvent::Exhausted => match self.dirs.pop() {
                Some(dir) => {
                    WalkStep::Open(dir)
                },
                None => WalkStep::Done,
            },
        }
    }
}

} // verus!
