//! The command line: which directories to search, and how.

use vstd::prelude::*;

verus! {

/// What the command line asked for.
#[derive(Debug)]
pub struct Options {
    pub target_dirs: Vec<String>,
    pub verbose: bool,
    pub recursive: bool,
    pub quiet: bool,
}

/// The mathematical value of [`Options`].
pub struct OptionsView {
    pub target_dirs: Seq<Seq<char>>,
    pub verbose: bool,
    pub recursive: bool,
    pub quiet: bool,
}

impl View for Options {
    type V = OptionsView;

    open spec fn view(&self) -> OptionsView {
        OptionsView {
            target_dirs: self.target_dirs.deep_view(),
            verbose: self.verbose,
            recursive: self.recursive,
            quiet: self.quiet,
        }
    }
}

impl OptionsView {
    /// No directory, and every flag off.
    pub open spec fn initial() -> OptionsView {
        OptionsView { target_dirs: Seq::empty(), verbose: false, recursive: false, quiet: false }
    }
}

/// One argument after the program's name, with the answer to the one question
/// that only the file system can settle: whether it names a directory.
#[derive(Debug)]
pub struct Arg {
    pub text: String,
    pub is_dir: bool,
}

/// The mathematical value of an [`Arg`].
pub struct ArgView {
    pub text: Seq<char>,
    pub is_dir: bool,
}

impl View for Arg {
    type V = ArgView;

    open spec fn view(&self) -> ArgView {
        ArgView { text: self.text@, is_dir: self.is_dir }
    }
}

impl DeepView for Arg {
    type V = ArgView;

    open spec fn deep_view(&self) -> ArgView {
        self@
    }
}

/// Why a command line is turned down.
#[derive(Debug)]
pub enum UsageError {
    /// Both the quiet and the verbose flag were given.
    IncompatibleFlags,
    /// The help flag was given.
    HelpRequested,
    /// An argument is neither a flag nor a directory.
    NoSuchDirectoryOrFlag(String),
    /// No directory was given.
    NoDirectories,
}

/// The mathematical value of a [`UsageError`].
pub enum UsageErrorView {
    IncompatibleFlags,
    HelpRequested,
    NoSuchDirectoryOrFlag(Seq<char>),
    NoDirectories,
}

impl View for UsageError {
    type V = UsageErrorView;

    open spec fn view(&self) -> UsageErrorView {
        match self {
            UsageError::IncompatibleFlags => UsageErrorView::IncompatibleFlags,
            UsageError::HelpRequested => UsageErrorView::HelpRequested,
            UsageError::NoSuchDirectoryOrFlag(arg) => UsageErrorView::NoSuchDirectoryOrFlag(arg@),
            UsageError::NoDirectories => UsageErrorView::NoDirectories,
        }
    }
}

/// The options after one more argument, or the error the argument raises.
pub open spec fn apply_arg(o: OptionsView, arg: ArgView) -> Result<OptionsView, UsageErrorView> {
    if arg.text == "-v"@ || arg.text == "--verbose"@ {
        if o.quiet {
            Err(UsageErrorView::IncompatibleFlags)
        } else {
            Ok(OptionsView { verbose: true, ..o })
        }
    } else if arg.text == "-q"@ || arg.text == "--quiet"@ {
        if o.verbose {
            Err(UsageErrorView::IncompatibleFlags)
        } else {
            Ok(OptionsView { quiet: true, ..o })
        }
    } else if arg.text == "-r"@ || arg.text == "--recursive"@ {
        Ok(OptionsView { recursive: true, ..o })
    } else if arg.text == "-h"@ || arg.text == "--help"@ {
        Err(UsageErrorView::HelpRequested)
    } else if arg.is_dir {
        Ok(OptionsView { target_dirs: o.target_dirs.push(arg.text), ..o })
    } else {
        Err(UsageErrorView::NoSuchDirectoryOrFlag(arg.text))
    }
}

/// The options after a run of arguments, read from left to right, or the
/// error of the first argument that raises one.
pub open spec fn apply_args(args: Seq<ArgView>) -> Result<OptionsView, UsageErrorView>
    decreases args.len(),
{
    if args.len() == 0 {
        Ok(OptionsView::initial())
    } else {
        match apply_args(args.drop_last()) {
            Ok(o) => apply_arg(o, args.last()),
            Err(e) => Err(e),
        }
    }
}

/// What a command line means: the options its arguments add up to, which
/// must name at least one directory.
pub open spec fn parse_spec(args: Seq<ArgView>) -> Result<OptionsView, UsageErrorView> {
    match apply_args(args) {
        Ok(o) => if o.target_dirs.len() == 0 {
            Err(UsageErrorView::NoDirectories)
        } else {
            Ok(o)
        },
        Err(e) => Err(e),
    }
}

impl Options {
    /// No directory, and every flag off.
    pub fn default() -> (o: Options)
        ensures
            o@ == OptionsView::initial(),
    {
        let o = Options { target_dirs: Vec::new(), verbose: false, quiet: false, recursive: false };
        assert(o@.target_dirs =~= Seq::<Seq<char>>::empty());
        o
    }
}

/// Whether an argument is exactly `word`.
fn is_word(text: &String, word: &str) -> (same: bool)
    ensures
        same == (text@ == word@),
{
    let word = word.to_owned();
    *text == word
}

/// Reads the arguments that follow the program's name.
pub fn parse_args(args: Vec<Arg>) -> (r: Result<Options, UsageError>)
    ensures
        match r {
            Ok(o) => parse_spec(args.deep_view()) == Ok::<OptionsView, UsageErrorView>(o@),
            Err(e) => parse_spec(args.deep_view()) == Err::<OptionsView, UsageErrorView>(e@),
        },
{
    let ghost all = args.deep_view();
    let mut res = Options::default();
    for arg in it: args.into_iter()
        invariant
            all == args.deep_view(),
            it.seq().len() == all.len(),
            forall|i: int| 0 <= i < all.len() ==> (#[trigger] it.seq()[i])@ == all[i],
            apply_args(all.take(it.index() as int)) == Ok::<OptionsView, UsageErrorView>(res@),
    {
        let ghost n = it.index() as int;
        let ghost before = res@;
        proof {
            assert(all.take(n + 1).drop_last() =~= all.take(n));
            lemma_first_error_stands(all, n + 1);
        }
        let text = &arg.text;
        if is_word(text, "-v") || is_word(text, "--verbose") {
            if res.quiet {
                return Err(UsageError::IncompatibleFlags);
            }
            res.verbose = true;
        } else if is_word(text, "-q") || is_word(text, "--quiet") {
            if res.verbose {
                return Err(UsageError::IncompatibleFlags);
            }
            res.quiet = true;
        } else if is_word(text, "-r") || is_word(text, "--recursive") {
            res.recursive = true;
        } else if is_word(text, "-h") || is_word(text, "--help") {
            return Err(UsageError::HelpRequested);
        } else if arg.is_dir {
            res.target_dirs.push(arg.text);
            assert(res@.target_dirs =~= before.target_dirs.push(arg@.text));
        } else {
            return Err(UsageError::NoSuchDirectoryOrFlag(arg.text));
        }
    }
    assert(all.take(all.len() as int) =~= all);
    if res.target_dirs.len() == 0 {
        return Err(UsageError::NoDirectories);
    }
    Ok(res)
}

/// Once a prefix of the arguments raises an error, the whole run raises it.
proof fn lemma_first_error_stands(args: Seq<ArgView>, n: int)
    requires
        0 <= n <= args.len(),
    ensures
        apply_args(args.take(n)) is Err ==> apply_args(args) == apply_args(args.take(n)),
    decreases args.len() - n,
{
    if n < args.len() {
        lemma_first_error_stands(args, n + 1);
        assert(args.take(n + 1).drop_last() =~= args.take(n));
    } else {
        assert(args.take(n) =~= args);
    }
}

} // verus!
