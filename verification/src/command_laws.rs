//! What holds of the commands as a whole: what they refuse, and which
//! directories they scan.

use vstd::prelude::*;

use crate::ls;
use crate::ls::{LsOutcome, LsState, LsTask};
use crate::ls_laws;
use crate::messages;
use crate::purge_command;
use crate::purge_command::{RunOutcome, RunState, RunTask};
use crate::scan;
use crate::scan::{Candidate, Scan};
use crate::style::Style;

verus! {

/// `purge` and `ls` accept, and reject, exactly the same arguments, and read
/// in them the same scan.
pub proof fn the_commands_accept_the_same_arguments(
    purge: RunState,
    ls: LsState,
    args: Seq<Seq<u8>>,
    style: Style,
    error_style: Style,
)
    requires
        purge_command::is_begun(purge, args, style, error_style),
        ls::is_begun(ls, args, style, error_style),
    ensures
        purge.task is Reject <==> ls.task is Reject,
        !(purge.task is Reject) ==> scan::same_reading(Ok(purge.scan), Ok(ls.scan)),
{
    let one = choose|reading: Result<Scan, String>|
        #[trigger] scan::is_reading_of(args, reading) && match reading {
            Ok(scan) => purge == RunState::admitted(style, error_style, scan),
            Err(error) => purge.style == style && purge.error_style == error_style && purge.task
                == RunTask::Reject(
                messages::usage_error(error_style, error@, purge_command::purge_usage()),
            ),
        };
    let other = choose|reading: Result<Scan, String>|
        #[trigger] scan::is_reading_of(args, reading) && match reading {
            Ok(scan) => ls == LsState::admitted(style, error_style, scan),
            Err(error) => ls.style == style && ls.error_style == error_style && ls.task
                == LsTask::Reject(messages::usage_error(error_style, error@, ls::ls_usage())),
        };
    scan::arguments_have_one_reading(args, one, other);
}

/// The purge command after the first `i` replies.
pub open spec fn at(start: RunState, replies: Seq<RunOutcome>, i: int) -> RunState
    decreases i,
{
    if i <= 0 {
        start
    } else {
        at(start, replies, i - 1).next(replies[i - 1])
    }
}

/// A refused purge does nothing more.
pub proof fn a_refused_purge_does_nothing(s: RunState, replies: Seq<RunOutcome>, i: int)
    requires
        s.task is Reject,
    ensures
        at(s, replies, i) == s,
    decreases i,
{
    if i > 0 {
        a_refused_purge_does_nothing(s, replies, i - 1);
    }
}

/// Ahead of `i` the directory that the user named was found to be one.
pub open spec fn root_checked(
    start: RunState,
    replies: Seq<RunOutcome>,
    i: int,
    root: Seq<u8>,
) -> bool {
    exists|j: int|
        0 <= j < i && (#[trigger] at(start, replies, j)).task == RunTask::CheckDir(root)
            && replies[j] == RunOutcome::DirChecked(true)
}

/// Nothing is purged under a directory that the user named before it was found
/// to be one.
pub proof fn a_named_root_is_checked_first(
    style: Style,
    error_style: Style,
    root: Vec<u8>,
    replies: Seq<RunOutcome>,
    i: int,
)
    requires
        0 <= i <= replies.len(),
    ensures
        ({
            let start = RunState::admitted(style, error_style, Scan::Explicit(root));
            let s = at(start, replies, i);
            s.task is Reject || s.task == RunTask::CheckDir(root@) || root_checked(
                start,
                replies,
                i,
                root@,
            )
        }),
    decreases i,
{
    let start = RunState::admitted(style, error_style, Scan::Explicit(root));
    if i > 0 {
        a_named_root_is_checked_first(style, error_style, root, replies, i - 1);
        if root_checked(start, replies, i - 1, root@) {
            assert(root_checked(start, replies, i, root@));
        }
        if at(start, replies, i - 1).task == RunTask::CheckDir(root@) && replies[i - 1]
            == RunOutcome::DirChecked(true) {
            assert(root_checked(start, replies, i, root@));
        }
    }
}

/// Ahead of `i` the usual places turned out to be `usual`.
pub open spec fn were_resolved(
    start: RunState,
    replies: Seq<RunOutcome>,
    i: int,
    usual: Seq<Candidate>,
) -> bool {
    exists|j: int|
        0 <= j < i && (#[trigger] at(start, replies, j)).task is Resolve && replies[j]
            == RunOutcome::Resolved(usual)
}

/// Roots that a purge may scan: those of the scan it was asked for, under what
/// the usual places turned out to be where none was named.
pub open spec fn are_asked_for(
    start: RunState,
    replies: Seq<RunOutcome>,
    i: int,
    roots: Seq<Seq<u8>>,
) -> bool {
    match start.scan {
        Scan::Defaults => exists|usual: Seq<Candidate>|
            #[trigger] were_resolved(start, replies, i, usual) && roots == start.scan.covered(
                usual,
            ),
        _ => roots == start.scan.covered(Seq::empty()),
    }
}

/// A purge scans the roots that it was asked for, and no others: none without
/// the option, the directory that the user named, or the usual places.
pub proof fn a_purge_scans_what_it_was_asked_for(
    style: Style,
    error_style: Style,
    scan: Scan,
    replies: Seq<RunOutcome>,
    i: int,
)
    requires
        0 <= i <= replies.len(),
    ensures
        ({
            let start = RunState::admitted(style, error_style, scan);
            let s = at(start, replies, i);
            &&& s.scan == scan
            &&& s.task matches RunTask::Announce(roots) ==> are_asked_for(start, replies, i, roots)
            &&& s.task matches RunTask::ReadRows(roots) ==> are_asked_for(start, replies, i, roots)
        }),
    decreases i,
{
    let start = RunState::admitted(style, error_style, scan);
    if i > 0 {
        a_purge_scans_what_it_was_asked_for(style, error_style, scan, replies, i - 1);
        let s = at(start, replies, i - 1);
        assert forall|usual: Seq<Candidate>| #[trigger]
            were_resolved(start, replies, i - 1, usual) implies were_resolved(
            start,
            replies,
            i,
            usual,
        ) by {}
        if let (RunTask::Resolve, RunOutcome::Resolved(usual)) = (s.task, replies[i - 1]) {
            assert(were_resolved(start, replies, i, usual));
            assert(scan is Defaults) by {
                lemma_only_defaults_resolve(style, error_style, scan, replies, i - 1);
            }
        }
    }
}

proof fn lemma_only_defaults_resolve(
    style: Style,
    error_style: Style,
    scan: Scan,
    replies: Seq<RunOutcome>,
    i: int,
)
    requires
        0 <= i <= replies.len(),
    ensures
        ({
            let s = at(RunState::admitted(style, error_style, scan), replies, i);
            s.scan == scan && (s.task is Resolve ==> scan is Defaults)
        }),
    decreases i,
{
    if i > 0 {
        lemma_only_defaults_resolve(style, error_style, scan, replies, i - 1);
    }
}

/// A task with the roots of the scan settled.
pub open spec fn is_rooted(task: LsTask) -> bool {
    task is Walking || task is MeasureHits || task is ShowHits
}

/// Ahead of `i` the usual places turned out to be `usual`.
pub open spec fn ls_resolved(
    states: Seq<LsState>,
    replies: Seq<LsOutcome>,
    i: int,
    usual: Seq<Candidate>,
) -> bool {
    exists|j: int|
        0 <= j < i && (#[trigger] states[j]).task is Resolve && replies[j] == LsOutcome::Resolved(
            usual,
        )
}

/// A list scans the roots that it was asked for, as a purge does.
pub proof fn a_list_scans_what_it_was_asked_for(
    style: Style,
    error_style: Style,
    scan: Scan,
    states: Seq<LsState>,
    replies: Seq<LsOutcome>,
    i: int,
)
    requires
        ls_laws::is_run(states, replies),
        states[0] == LsState::admitted(style, error_style, scan),
        0 <= i <= replies.len(),
    ensures
        states[i].scan == scan,
        states[i].task is Resolve ==> scan is Defaults,
        is_rooted(states[i].task) ==> match scan {
            Scan::Defaults => exists|usual: Seq<Candidate>|
                #[trigger] ls_resolved(states, replies, i, usual) && states[i].roots
                    == scan.covered(usual),
            _ => states[i].roots == scan.covered(Seq::empty()),
        },
    decreases i,
{
    if i > 0 {
        a_list_scans_what_it_was_asked_for(style, error_style, scan, states, replies, i - 1);
        assert(ls_laws::is_step(states, replies, i - 1));
        let s = states[i - 1];
        assert forall|usual: Seq<Candidate>| #[trigger]
            ls_resolved(states, replies, i - 1, usual) implies ls_resolved(
            states,
            replies,
            i,
            usual,
        ) by {}
        if let (LsTask::Resolve(_), LsOutcome::Resolved(usual)) = (s.task, replies[i - 1]) {
            assert(ls_resolved(states, replies, i, usual));
        }
    }
}

} // verus!
