//! Whether the duplicate groups are listed when the run ends.

use vstd::prelude::*;

verus! {

/// From this many duplicate groups on, a terminal is spared the listing.
pub const LISTING_LIMIT: usize = 25;

/// `atty::is` for the standard output: whether it is a terminal. The answer
/// depends on how the process was started, so nothing is promised of it.
#[verifier::external_body]
fn stdout_is_terminal() -> (is_terminal: bool) {
    atty::is(atty::Stream::Stdout)
}

/// Whether `groups` duplicate groups are listed: always when the output goes
/// to a file or a pipe, and on a terminal only while they are fewer than
/// [`LISTING_LIMIT`].
pub fn should_list(groups: usize, to_terminal: bool) -> (list: bool)
    ensures
        list == (groups < LISTING_LIMIT || !to_terminal),
{
    groups < LISTING_LIMIT || !to_terminal
}

/// Whether `groups` duplicate groups are listed on the standard output of
/// this process. Fewer than [`LISTING_LIMIT`] groups are listed wherever the
/// output goes.
pub fn list_on_stdout(groups: usize) -> (list: bool)
    ensures
        groups < LISTING_LIMIT ==> list,
{
    should_list(groups, stdout_is_terminal())
}

} // verus!
