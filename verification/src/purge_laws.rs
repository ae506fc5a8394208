//! What holds of every purge, whatever the disk and the user reply.

use vstd::prelude::*;

use crate::path;
use crate::purge;
use crate::purge::{Deletion, Gate, Outcome, Phase, PurgeState, Row, Task};
use crate::walk::{Hit, WalkState};
use crate::walk_laws;
use crate::walk_laws::Disk;

verus! {

/// The purge after the first `i` replies.
pub open spec fn at(start: PurgeState, replies: Seq<Outcome>, i: int) -> PurgeState
    decreases i,
{
    if i <= 0 {
        start
    } else {
        at(start, replies, i - 1).next(replies[i - 1])
    }
}

/// A reply says that a recorded target is a directory, with cargo's markers or
/// without.
pub open spec fn is_finding(reply: Outcome, markers: bool) -> bool {
    reply matches Outcome::Inspected(Some(found)) && found.markers == markers
}

/// Some reply ahead of `i` said that a recorded target is a directory, with
/// cargo's markers or without.
pub open spec fn was_inspected(
    start: PurgeState,
    replies: Seq<Outcome>,
    i: int,
    target: Seq<u8>,
    markers: bool,
) -> bool {
    exists|j: int|
        0 <= j < i && (#[trigger] at(start, replies, j)).task == Task::Inspect(target)
            && is_finding(replies[j], markers)
}

/// A reply ends the scan with a given hit among the findings.
pub open spec fn hands_over(s: PurgeState, reply: Outcome, hit: Hit) -> bool {
    match (s.task, reply) {
        (Task::Walk(w), Outcome::Walked(answer)) => w.next(answer).question() is Finished
            && w.next(answer).hits.contains(hit),
        _ => false,
    }
}

/// Some reply ahead of `i` ended the scan with a given hit.
pub open spec fn was_found(
    start: PurgeState,
    replies: Seq<Outcome>,
    i: int,
    hit: Hit,
) -> bool {
    exists|j: int|
        0 <= j < i && hands_over(#[trigger] at(start, replies, j), replies[j], hit)
}

/// `target` is among some unsure ones.
pub open spec fn is_gated(unsure: Seq<Gate>, target: Seq<u8>) -> bool {
    exists|g: int| 0 <= g < unsure.len() && (#[trigger] unsure[g]).target == target
}

/// Ahead of `i` the user was asked about `target` and agreed.
pub open spec fn was_agreed(
    start: PurgeState,
    replies: Seq<Outcome>,
    i: int,
    target: Seq<u8>,
) -> bool {
    exists|j: int|
        0 <= j < i && (#[trigger] at(start, replies, j)).task is Confirm && replies[j]
            == Outcome::Confirmed(true) && is_gated(at(start, replies, j).unsure, target)
}

/// What allows a target to be deleted.
pub open spec fn has_leave(
    start: PurgeState,
    replies: Seq<Outcome>,
    i: int,
    target: Seq<u8>,
    phase: Phase,
) -> bool {
    match phase {
        Phase::Recorded => was_inspected(start, replies, i, target, true),
        Phase::Scanned => was_found(start, replies, i, Hit { target, verified: true }),
        Phase::Gated(_) => was_agreed(start, replies, i, target),
    }
}

/// What makes a target one that the user is asked about.
pub open spec fn is_doubtful(
    start: PurgeState,
    replies: Seq<Outcome>,
    i: int,
    target: Seq<u8>,
) -> bool {
    was_inspected(start, replies, i, target, false) || was_found(
        start,
        replies,
        i,
        Hit { target, verified: false },
    )
}

/// Ahead of `i` the user agreed to exactly some targets.
spec fn all_agreed(
    start: PurgeState,
    replies: Seq<Outcome>,
    i: int,
    unsure: Seq<Gate>,
) -> bool {
    exists|j: int|
        0 <= j < i && (#[trigger] at(start, replies, j)).task is Confirm && replies[j]
            == Outcome::Confirmed(true) && at(start, replies, j).unsure == unsure
}

/// What is left of the scan was found, and what is unsure is doubtful.
spec fn lists_grounded(
    start: PurgeState,
    replies: Seq<Outcome>,
    i: int,
    s: PurgeState,
) -> bool {
    &&& forall|k: int| 0 <= k < s.hits.len() ==> was_found(start, replies, i, #[trigger] s.hits[k])
    &&& forall|g: int|
        0 <= g < s.unsure.len() ==> is_doubtful(
            start,
            replies,
            i,
            (#[trigger] s.unsure[g]).target,
        )
}

spec fn grounded(start: PurgeState, replies: Seq<Outcome>, i: int, s: PurgeState) -> bool {
    &&& lists_grounded(start, replies, i, s)
    &&& match s.task {
        Task::Delete(target, phase) => has_leave(start, replies, i, target, phase) && (
        phase is Gated ==> all_agreed(start, replies, i, s.unsure)),
        Task::Measure(target, phase) => is_doubtful(start, replies, i, target) && !(
        phase is Gated),
        _ => true,
    }
}

proof fn lemma_grounded_hit(
    start: PurgeState,
    replies: Seq<Outcome>,
    i: int,
    s: PurgeState,
)
    requires
        lists_grounded(start, replies, i, s),
    ensures
        grounded(start, replies, i, s.take_hit()),
{
    let t = s.take_hit();
    if s.hits.len() > 0 {
        assert(forall|k: int| 0 <= k < t.hits.len() ==> #[trigger] t.hits[k] == s.hits[k + 1]);
        assert(was_found(start, replies, i, s.hits[0]));
        let hit = s.hits[0];
        assert(hit == Hit { target: hit.target, verified: hit.verified });
    }
}

proof fn lemma_grounded_proceed(
    start: PurgeState,
    replies: Seq<Outcome>,
    i: int,
    s: PurgeState,
    phase: Phase,
)
    requires
        lists_grounded(start, replies, i, s),
        phase is Gated ==> all_agreed(start, replies, i, s.unsure),
    ensures
        grounded(start, replies, i, s.proceed(phase)),
{
    match phase {
        Phase::Recorded => if s.recorded.len() == 0 {
            lemma_grounded_hit(
                start,
                replies,
                i,
                PurgeState {
                    roots: Seq::empty(),
                    seen: Seq::empty(),
                    hits: Seq::empty(),
                    ..s
                },
            );
        },
        Phase::Scanned => {
            lemma_grounded_hit(start, replies, i, s);
        },
        Phase::Gated(k) => if k < s.unsure.len() {
            let j = choose|j: int|
                0 <= j < i && (#[trigger] at(start, replies, j)).task is Confirm && replies[j]
                    == Outcome::Confirmed(true) && at(start, replies, j).unsure == s.unsure;
            assert(is_gated(at(start, replies, j).unsure, s.unsure[k as int].target));
        },
    }
}

proof fn lemma_grounded_step(start: PurgeState, replies: Seq<Outcome>, i: int)
    requires
        0 <= i < replies.len(),
        grounded(start, replies, i, at(start, replies, i)),
    ensures
        grounded(start, replies, i + 1, at(start, replies, i + 1)),
{
    let s = at(start, replies, i);
    let reply = replies[i];
    assert(lists_grounded(start, replies, i + 1, s)) by {
        assert forall|k: int| 0 <= k < s.hits.len() implies was_found(
            start,
            replies,
            i + 1,
            #[trigger] s.hits[k],
        ) by {
            assert(was_found(start, replies, i, s.hits[k]));
        }
        assert forall|g: int| 0 <= g < s.unsure.len() implies is_doubtful(
            start,
            replies,
            i + 1,
            (#[trigger] s.unsure[g]).target,
        ) by {
            assert(is_doubtful(start, replies, i, s.unsure[g].target));
        }
    }
    match (s.task, reply) {
        (Task::Inspect(_), Outcome::Inspected(None)) => {
            lemma_grounded_proceed(start, replies, i + 1, s, Phase::Recorded);
        },
        (Task::Inspect(target), Outcome::Inspected(Some(found))) => {
            assert(is_finding(replies[i], found.markers));
            assert(was_inspected(start, replies, i + 1, target, found.markers));
        },
        (Task::Delete(_, phase), Outcome::Deleted(deletion)) => {
            let counted = PurgeState { summary: s.summary.plus(deletion), ..s };
            lemma_grounded_proceed(start, replies, i + 1, counted, phase);
        },
        (Task::Measure(target, phase), Outcome::Measured(size)) => {
            let more = PurgeState { unsure: s.unsure.push(Gate { target, size }), ..s };
            assert(is_doubtful(start, replies, i + 1, target));
            assert forall|g: int| 0 <= g < more.unsure.len() implies is_doubtful(
                start,
                replies,
                i + 1,
                (#[trigger] more.unsure[g]).target,
            ) by {
                if g < s.unsure.len() {
                    assert(more.unsure[g] == s.unsure[g]);
                }
            }
            lemma_grounded_proceed(start, replies, i + 1, more, phase);
        },
        (Task::Walk(w), Outcome::Walked(answer)) => {
            let done = w.next(answer);
            if done.question() is Finished {
                assert forall|k: int| 0 <= k < done.hits.len() implies was_found(
                    start,
                    replies,
                    i + 1,
                    #[trigger] done.hits[k],
                ) by {
                    assert(done.hits.contains(done.hits[k]));
                    assert(hands_over(at(start, replies, i), replies[i], done.hits[k]));
                }
                lemma_grounded_proceed(
                    start,
                    replies,
                    i + 1,
                    PurgeState { hits: done.hits, ..s },
                    Phase::Scanned,
                );
            }
        },
        (Task::Confirm, Outcome::Confirmed(true)) => {
            assert(all_agreed(start, replies, i + 1, s.unsure));
            lemma_grounded_proceed(start, replies, i + 1, s, Phase::Gated(0));
        },
        _ => {
            if let Task::Delete(target, phase) = s.task {
                if phase is Gated {
                    assert(all_agreed(start, replies, i + 1, s.unsure));
                }
                assert(has_leave(start, replies, i + 1, target, phase));
            }
        },
    }
}

proof fn lemma_grounded(
    recorded: Seq<Seq<u8>>,
    roots: Seq<Seq<u8>>,
    replies: Seq<Outcome>,
    i: int,
)
    requires
        0 <= i <= replies.len(),
    ensures
        grounded(
            PurgeState::start(recorded, roots),
            replies,
            i,
            at(PurgeState::start(recorded, roots), replies, i),
        ),
    decreases i,
{
    let start = PurgeState::start(recorded, roots);
    if i == 0 {
        let blank = PurgeState {
            recorded,
            roots,
            seen: Seq::empty(),
            hits: Seq::empty(),
            unsure: Seq::empty(),
            summary: crate::purge::Summary::zero(),
            task: Task::Finished,
        };
        lemma_grounded_proceed(start, replies, 0, blank, Phase::Recorded);
    } else {
        lemma_grounded(recorded, roots, replies, i - 1);
        lemma_grounded_step(start, replies, i - 1);
    }
}

/// Nothing is deleted without leave. A recorded target is deleted outright
/// only where cargo's markers were found in it, a scanned one only where the
/// scan verified it, and everything else only where the user was asked about
/// it and agreed.
pub proof fn nothing_is_deleted_without_leave(
    recorded: Seq<Seq<u8>>,
    roots: Seq<Seq<u8>>,
    replies: Seq<Outcome>,
    i: int,
    target: Seq<u8>,
    phase: Phase,
)
    requires
        0 <= i <= replies.len(),
        at(PurgeState::start(recorded, roots), replies, i).task == Task::Delete(target, phase),
    ensures
        has_leave(PurgeState::start(recorded, roots), replies, i, target, phase),
{
    lemma_grounded(recorded, roots, replies, i);
}

/// What is gated behind the question is in doubt: a recorded target without
/// cargo's markers, or a scanned one that is not verified.
pub proof fn what_is_unsure_is_in_doubt(
    recorded: Seq<Seq<u8>>,
    roots: Seq<Seq<u8>>,
    replies: Seq<Outcome>,
    i: int,
    g: int,
)
    requires
        0 <= i <= replies.len(),
        0 <= g < at(PurgeState::start(recorded, roots), replies, i).unsure.len(),
    ensures
        is_doubtful(
            PurgeState::start(recorded, roots),
            replies,
            i,
            at(PurgeState::start(recorded, roots), replies, i).unsure[g].target,
        ),
{
    lemma_grounded(recorded, roots, replies, i);
}

/// The user is asked only where there is something to ask about, and only
/// about targets that are in doubt: recorded ones without cargo's markers, and
/// scanned ones that are not verified.
pub proof fn only_doubtful_targets_are_asked_about(
    recorded: Seq<Seq<u8>>,
    roots: Seq<Seq<u8>>,
    replies: Seq<Outcome>,
    i: int,
    g: int,
)
    requires
        0 <= i <= replies.len(),
        at(PurgeState::start(recorded, roots), replies, i).task is Confirm,
    ensures
        at(PurgeState::start(recorded, roots), replies, i).unsure.len() > 0,
        0 <= g < at(PurgeState::start(recorded, roots), replies, i).unsure.len() ==> is_doubtful(
            PurgeState::start(recorded, roots),
            replies,
            i,
            at(PurgeState::start(recorded, roots), replies, i).unsure[g].target,
        ),
{
    lemma_grounded(recorded, roots, replies, i);
    lemma_asked_about_something(recorded, roots, replies, i);
}

proof fn lemma_asked_about_something(
    recorded: Seq<Seq<u8>>,
    roots: Seq<Seq<u8>>,
    replies: Seq<Outcome>,
    i: int,
)
    requires
        0 <= i <= replies.len(),
    ensures
        at(PurgeState::start(recorded, roots), replies, i).task is Confirm ==> at(
            PurgeState::start(recorded, roots),
            replies,
            i,
        ).unsure.len() > 0,
    decreases i,
{
    if i > 0 {
        lemma_asked_about_something(recorded, roots, replies, i - 1);
    }
}

/// How far a purge has come.
pub open spec fn progress(task: Task) -> int {
    match task {
        Task::Inspect(_) => 0,
        Task::Delete(_, phase) | Task::Measure(_, phase) => match phase {
            Phase::Recorded => 0,
            Phase::Scanned => 2,
            Phase::Gated(_) => 4,
        },
        Task::Walk(_) => 1,
        Task::Confirm => 3,
        Task::Recheck => 5,
        Task::Prune(_) => 6,
        Task::Finished => 7,
    }
}

/// A purge never goes back to an earlier part of its work.
pub proof fn a_purge_only_goes_forward(start: PurgeState, replies: Seq<Outcome>, i: int, j: int)
    requires
        0 <= i <= j <= replies.len(),
    ensures
        progress(at(start, replies, i).task) <= progress(at(start, replies, j).task),
    decreases j,
{
    if i < j {
        a_purge_only_goes_forward(start, replies, i, j - 1);
    }
}

/// The user is asked once: after the reply the question does not come back.
pub proof fn the_user_is_asked_once(
    start: PurgeState,
    replies: Seq<Outcome>,
    i: int,
    j: int,
)
    requires
        0 <= i < j <= replies.len(),
        at(start, replies, i).task is Confirm,
        replies[i] is Confirmed,
    ensures
        !(at(start, replies, j).task is Confirm),
{
    assert(progress(at(start, replies, i + 1).task) > 3);
    a_purge_only_goes_forward(start, replies, i + 1, j);
}

/// Where the user declines, nothing more is deleted.
pub proof fn nothing_is_deleted_after_a_no(
    start: PurgeState,
    replies: Seq<Outcome>,
    i: int,
    j: int,
)
    requires
        0 <= i < j <= replies.len(),
        at(start, replies, i).task is Confirm,
        replies[i] == Outcome::Confirmed(false),
    ensures
        !(at(start, replies, j).task is Delete),
{
    assert(progress(at(start, replies, i + 1).task) == 5);
    a_purge_only_goes_forward(start, replies, i + 1, j);
}

/// The targets that were removed on the first `i` replies.
pub open spec fn removals(start: PurgeState, replies: Seq<Outcome>, i: int) -> int
    decreases i,
{
    if i <= 0 {
        0
    } else {
        removals(start, replies, i - 1) + (match (at(start, replies, i - 1).task, replies[i - 1]) {
            (Task::Delete(..), Outcome::Deleted(Deletion::Removed { .. })) => 1int,
            _ => 0int,
        })
    }
}

/// The targets that a running build kept on the first `i` replies.
pub open spec fn lockouts(start: PurgeState, replies: Seq<Outcome>, i: int) -> int
    decreases i,
{
    if i <= 0 {
        0
    } else {
        lockouts(start, replies, i - 1) + (match (at(start, replies, i - 1).task, replies[i - 1]) {
            (Task::Delete(..), Outcome::Deleted(Deletion::Locked)) => 1int,
            _ => 0int,
        })
    }
}

/// The bytes that were given back on the first `i` replies.
pub open spec fn gains(start: PurgeState, replies: Seq<Outcome>, i: int) -> int
    decreases i,
{
    if i <= 0 {
        0
    } else {
        gains(start, replies, i - 1) + (match (at(start, replies, i - 1).task, replies[i - 1]) {
            (Task::Delete(..), Outcome::Deleted(deletion)) => deletion.gain(),
            _ => 0int,
        })
    }
}

/// The summary counts every target that was removed, every one that a running
/// build kept, and every byte that was given back.
pub proof fn the_summary_counts_what_was_done(
    recorded: Seq<Seq<u8>>,
    roots: Seq<Seq<u8>>,
    replies: Seq<Outcome>,
    i: int,
)
    requires
        0 <= i <= replies.len(),
        forall|j: int|
            0 <= j < i ==> (#[trigger] at(
                PurgeState::start(recorded, roots),
                replies,
                j,
            )).can_take(replies[j]),
    ensures
        ({
            let start = PurgeState::start(recorded, roots);
            let summary = at(start, replies, i).summary;
            &&& summary.deleted == removals(start, replies, i)
            &&& summary.locked == lockouts(start, replies, i)
            &&& summary.freed == gains(start, replies, i)
        }),
    decreases i,
{
    let start = PurgeState::start(recorded, roots);
    if i > 0 {
        the_summary_counts_what_was_done(recorded, roots, replies, i - 1);
        assert(at(start, replies, i - 1).can_take(replies[i - 1]));
    }
}

/// The target that a purge looks at, deletes or measures.
pub open spec fn touched(task: Task) -> Option<Seq<u8>> {
    match task {
        Task::Inspect(target) => Some(target),
        Task::Delete(target, _) => Some(target),
        Task::Measure(target, _) => Some(target),
        _ => None,
    }
}

spec fn stays_recorded(recorded: Seq<Seq<u8>>, s: PurgeState) -> bool {
    &&& s.roots.len() == 0
    &&& s.hits.len() == 0
    &&& !(s.task is Walk)
    &&& forall|k: int| 0 <= k < s.recorded.len() ==> recorded.contains(#[trigger] s.recorded[k])
    &&& forall|g: int|
        0 <= g < s.unsure.len() ==> recorded.contains((#[trigger] s.unsure[g]).target)
    &&& touched(s.task) matches Some(target) ==> recorded.contains(target)
}

/// A purge without scan roots reads no directories and touches recorded
/// targets alone.
pub proof fn without_roots_only_recorded_targets_are_touched(
    recorded: Seq<Seq<u8>>,
    replies: Seq<Outcome>,
    i: int,
)
    requires
        0 <= i <= replies.len(),
    ensures
        ({
            let task = at(PurgeState::start(recorded, Seq::empty()), replies, i).task;
            &&& !(task is Walk)
            &&& touched(task) matches Some(target) ==> recorded.contains(target)
        }),
{
    lemma_stays_recorded(recorded, replies, i);
}

proof fn lemma_stays_recorded(recorded: Seq<Seq<u8>>, replies: Seq<Outcome>, i: int)
    requires
        0 <= i <= replies.len(),
    ensures
        stays_recorded(recorded, at(PurgeState::start(recorded, Seq::empty()), replies, i)),
    decreases i,
{
    let start = PurgeState::start(recorded, Seq::empty());
    if i == 0 {
        assert(forall|k: int|
            0 <= k < start.recorded.len() ==> #[trigger] start.recorded[k] == recorded[k + 1]);
    } else {
        lemma_stays_recorded(recorded, replies, i - 1);
        let s = at(start, replies, i - 1);
        let t = at(start, replies, i);
        if t.recorded.len() < s.recorded.len() {
            assert(forall|k: int|
                0 <= k < t.recorded.len() ==> #[trigger] t.recorded[k] == s.recorded[k + 1]);
        }
        assert(forall|g: int|
            0 <= g < s.unsure.len() ==> #[trigger] t.unsure[g] == s.unsure[g]);
    }
}

/// Up to `i` a purge set out to do something.
pub open spec fn came_to(start: PurgeState, replies: Seq<Outcome>, i: int, task: Task) -> bool {
    exists|j: int| 0 <= j <= i && (#[trigger] at(start, replies, j)).task == task
}

spec fn rows_covered(
    recorded: Seq<Seq<u8>>,
    start: PurgeState,
    replies: Seq<Outcome>,
    i: int,
) -> bool {
    let s = at(start, replies, i);
    &&& progress(s.task) > 0 ==> s.recorded.len() == 0
    &&& forall|k: int|
        0 <= k < recorded.len() ==> s.recorded.contains(#[trigger] recorded[k]) || came_to(
            start,
            replies,
            i,
            Task::Inspect(recorded[k]),
        )
}

/// Every recorded target was looked at by the time a purge goes on to
/// anything else.
pub proof fn every_recorded_target_is_looked_at(
    recorded: Seq<Seq<u8>>,
    roots: Seq<Seq<u8>>,
    replies: Seq<Outcome>,
    i: int,
    k: int,
)
    requires
        0 <= i <= replies.len(),
        0 <= k < recorded.len(),
        progress(at(PurgeState::start(recorded, roots), replies, i).task) > 0,
    ensures
        came_to(
            PurgeState::start(recorded, roots),
            replies,
            i,
            Task::Inspect(recorded[k]),
        ),
{
    lemma_rows_covered(recorded, roots, replies, i);
    assert(!Seq::<Seq<u8>>::empty().contains(recorded[k]));
}

proof fn lemma_rows_covered(
    recorded: Seq<Seq<u8>>,
    roots: Seq<Seq<u8>>,
    replies: Seq<Outcome>,
    i: int,
)
    requires
        0 <= i <= replies.len(),
    ensures
        rows_covered(recorded, PurgeState::start(recorded, roots), replies, i),
    decreases i,
{
    let start = PurgeState::start(recorded, roots);
    let t = at(start, replies, i);
    if i == 0 {
        assert forall|k: int| 0 <= k < recorded.len() implies t.recorded.contains(
            #[trigger] recorded[k],
        ) || came_to(start, replies, i, Task::Inspect(recorded[k])) by {
            if k > 0 {
                assert(t.recorded[k - 1] == recorded[k]);
            } else {
                assert(at(start, replies, 0).task == Task::Inspect(recorded[0]));
            }
        }
    } else {
        lemma_rows_covered(recorded, roots, replies, i - 1);
        let s = at(start, replies, i - 1);
        assert forall|k: int| 0 <= k < recorded.len() implies t.recorded.contains(
            #[trigger] recorded[k],
        ) || came_to(start, replies, i, Task::Inspect(recorded[k])) by {
            if came_to(start, replies, i - 1, Task::Inspect(recorded[k])) {
                let j = choose|j: int|
                    0 <= j <= i - 1 && (#[trigger] at(start, replies, j)).task == Task::Inspect(
                        recorded[k],
                    );
                assert(at(start, replies, j).task == Task::Inspect(recorded[k]));
            } else {
                let m = s.recorded.index_of(recorded[k]);
                if t.recorded.len() < s.recorded.len() {
                    if m == 0 {
                        assert(at(start, replies, i).task == Task::Inspect(recorded[k]));
                    } else {
                        assert(t.recorded[m - 1] == recorded[k]);
                    }
                }
            }
        }
    }
}

spec fn findings_covered(start: PurgeState, replies: Seq<Outcome>, i: int) -> bool {
    let s = at(start, replies, i);
    &&& progress(s.task) > 2 ==> s.hits.len() == 0
    &&& forall|hit: Hit| #[trigger]
        was_found(start, replies, i, hit) ==> progress(s.task) >= 2 && (s.hits.contains(hit) || (
        if hit.verified {
            came_to(start, replies, i, Task::Delete(hit.target, Phase::Scanned))
        } else {
            s.task == Task::Measure(hit.target, Phase::Scanned) || is_gated(s.unsure, hit.target)
        }))
}

proof fn lemma_findings_step(start: PurgeState, replies: Seq<Outcome>, i: int)
    requires
        0 <= i < replies.len(),
        findings_covered(start, replies, i),
    ensures
        findings_covered(start, replies, i + 1),
{
    let s = at(start, replies, i);
    let t = at(start, replies, i + 1);
    a_purge_only_goes_forward(start, replies, i, i + 1);
    assert forall|hit: Hit| #[trigger] was_found(start, replies, i + 1, hit) implies progress(t.task)
        >= 2 && (t.hits.contains(hit) || (if hit.verified {
        came_to(start, replies, i + 1, Task::Delete(hit.target, Phase::Scanned))
    } else {
        t.task == Task::Measure(hit.target, Phase::Scanned) || is_gated(t.unsure, hit.target)
    })) by {
        let j = choose|j: int|
            0 <= j < i + 1 && hands_over(#[trigger] at(start, replies, j), replies[j], hit);
        // The findings of which the purge now works on the first.
        let ahead = if j == i {
            let w = s.task->Walk_0;
            w.next(replies[i]->Walked_0).hits
        } else {
            assert(was_found(start, replies, i, hit));
            s.hits
        };
        if ahead.contains(hit) {
            let m = ahead.index_of(hit);
            if t.hits.len() < ahead.len() {
                if m == 0 {
                    assert(hit == ahead[0]);
                    if hit.verified {
                        assert(t.task == Task::Delete(hit.target, Phase::Scanned));
                        assert(at(start, replies, i + 1).task == Task::Delete(
                            hit.target,
                            Phase::Scanned,
                        ));
                    }
                } else {
                    assert(t.hits[m - 1] == hit);
                }
            } else {
                assert(t.hits[m] == hit);
            }
        } else if hit.verified {
            let m = choose|m: int|
                0 <= m <= i && (#[trigger] at(start, replies, m)).task == Task::Delete(
                    hit.target,
                    Phase::Scanned,
                );
            assert(at(start, replies, m).task == Task::Delete(hit.target, Phase::Scanned));
        } else if is_gated(s.unsure, hit.target) {
            let g = choose|g: int|
                0 <= g < s.unsure.len() && (#[trigger] s.unsure[g]).target == hit.target;
            assert(t.unsure[g].target == hit.target);
        } else if replies[i] is Measured {
            assert(t.unsure[s.unsure.len() as int].target == hit.target);
        }
    }
}

proof fn lemma_findings_covered(
    recorded: Seq<Seq<u8>>,
    roots: Seq<Seq<u8>>,
    replies: Seq<Outcome>,
    i: int,
)
    requires
        0 <= i <= replies.len(),
    ensures
        findings_covered(PurgeState::start(recorded, roots), replies, i),
    decreases i,
{
    if i > 0 {
        lemma_findings_covered(recorded, roots, replies, i - 1);
        lemma_findings_step(PurgeState::start(recorded, roots), replies, i - 1);
    }
}

/// Every finding of the scan is dealt with: a verified one is deleted, any
/// other is one the user is asked about.
pub proof fn every_finding_is_dealt_with(
    recorded: Seq<Seq<u8>>,
    roots: Seq<Seq<u8>>,
    replies: Seq<Outcome>,
    i: int,
    hit: Hit,
)
    requires
        0 <= i <= replies.len(),
        was_found(PurgeState::start(recorded, roots), replies, i, hit),
        progress(at(PurgeState::start(recorded, roots), replies, i).task) > 2,
    ensures
        hit.verified ==> came_to(
            PurgeState::start(recorded, roots),
            replies,
            i,
            Task::Delete(hit.target, Phase::Scanned),
        ),
        !hit.verified ==> is_gated(
            at(PurgeState::start(recorded, roots), replies, i).unsure,
            hit.target,
        ),
{
    lemma_findings_covered(recorded, roots, replies, i);
}

/// The recorded targets that were found, ahead of `i`, to be directories
/// without cargo's markers, in the order in which they were looked at.
pub open spec fn doubtful_records(
    start: PurgeState,
    replies: Seq<Outcome>,
    i: int,
) -> Seq<Seq<u8>>
    decreases i,
{
    if i <= 0 {
        Seq::empty()
    } else {
        let before = doubtful_records(start, replies, i - 1);
        match at(start, replies, i - 1).task {
            Task::Inspect(target) => if is_finding(replies[i - 1], false) {
                before.push(target)
            } else {
                before
            },
            _ => before,
        }
    }
}

/// What the scan handed over ahead of `i`.
pub open spec fn handed_over(start: PurgeState, replies: Seq<Outcome>, i: int) -> Seq<Hit>
    decreases i,
{
    if i <= 0 {
        Seq::empty()
    } else {
        match (at(start, replies, i - 1).task, replies[i - 1]) {
            (Task::Walk(w), Outcome::Walked(answer)) => if w.next(answer).question() is Finished {
                w.next(answer).hits
            } else {
                handed_over(start, replies, i - 1)
            },
            _ => handed_over(start, replies, i - 1),
        }
    }
}

/// The targets of the hits that are not verified, in their order.
pub open spec fn unverified(hits: Seq<Hit>) -> Seq<Seq<u8>>
    decreases hits.len(),
{
    if hits.len() == 0 {
        Seq::empty()
    } else {
        let rest = unverified(hits.drop_first());
        if hits[0].verified {
            rest
        } else {
            seq![hits[0].target] + rest
        }
    }
}

/// The targets of unsure ones, one by one.
pub open spec fn gated_targets(unsure: Seq<Gate>) -> Seq<Seq<u8>> {
    Seq::new(unsure.len(), |g: int| unsure[g].target)
}

/// The target that is being measured.
spec fn pending(task: Task) -> Seq<Seq<u8>> {
    match task {
        Task::Measure(target, _) => seq![target],
        _ => Seq::empty(),
    }
}

/// What is unsure already, and what is still to be measured.
spec fn to_ask(s: PurgeState) -> Seq<Seq<u8>> {
    gated_targets(s.unsure) + pending(s.task) + unverified(s.hits)
}

proof fn lemma_to_ask_hit(s: PurgeState)
    ensures
        to_ask(s.take_hit()) == gated_targets(s.unsure) + unverified(s.hits),
{
    let t = s.take_hit();
    if s.hits.len() > 0 {
        assert(to_ask(t) =~= gated_targets(s.unsure) + unverified(s.hits));
    } else {
        assert(to_ask(t) =~= gated_targets(s.unsure) + unverified(s.hits));
    }
}

proof fn lemma_to_ask_proceed(s: PurgeState, phase: Phase)
    requires
        phase is Recorded ==> s.hits.len() == 0,
    ensures
        to_ask(s.proceed(phase)) == gated_targets(s.unsure) + unverified(s.hits),
{
    let t = s.proceed(phase);
    match phase {
        Phase::Recorded => {
            assert(s.hits =~= Seq::empty());
            if s.recorded.len() > 0 {
                assert(to_ask(t) =~= gated_targets(s.unsure) + unverified(s.hits));
            } else {
                let moved = PurgeState {
                    roots: Seq::empty(),
                    seen: Seq::empty(),
                    hits: Seq::empty(),
                    ..s
                };
                lemma_to_ask_hit(moved);
                assert(to_ask(t) =~= gated_targets(s.unsure) + unverified(s.hits));
            }
        },
        Phase::Scanned => {
            lemma_to_ask_hit(s);
        },
        Phase::Gated(_) => {
            assert(to_ask(t) =~= gated_targets(s.unsure) + unverified(s.hits));
        },
    }
}

spec fn asks_in_order(start: PurgeState, replies: Seq<Outcome>, i: int) -> bool {
    let s = at(start, replies, i);
    &&& to_ask(s) == doubtful_records(start, replies, i) + unverified(
        handed_over(start, replies, i),
    )
    &&& progress(s.task) <= 1 ==> s.hits.len() == 0 && handed_over(start, replies, i).len() == 0
}

proof fn lemma_asks_in_order(
    recorded: Seq<Seq<u8>>,
    roots: Seq<Seq<u8>>,
    replies: Seq<Outcome>,
    i: int,
)
    requires
        0 <= i <= replies.len(),
    ensures
        asks_in_order(PurgeState::start(recorded, roots), replies, i),
    decreases i,
{
    let start = PurgeState::start(recorded, roots);
    if i == 0 {
        let blank = PurgeState {
            recorded,
            roots,
            seen: Seq::empty(),
            hits: Seq::empty(),
            unsure: Seq::empty(),
            summary: purge::Summary::zero(),
            task: Task::Finished,
        };
        lemma_to_ask_proceed(blank, Phase::Recorded);
        assert(gated_targets(blank.unsure) =~= Seq::empty());
    } else {
        lemma_asks_in_order(recorded, roots, replies, i - 1);
        a_purge_only_goes_forward(start, replies, i - 1, i);
        let s = at(start, replies, i - 1);
        let t = at(start, replies, i);
        assert(t == s.next(replies[i - 1]));
        let all = doubtful_records(start, replies, i) + unverified(handed_over(start, replies, i));
        match (s.task, replies[i - 1]) {
            (Task::Inspect(_), Outcome::Inspected(None)) => {
                lemma_to_ask_proceed(s, Phase::Recorded);
                assert(to_ask(t) =~= all);
            },
            (Task::Inspect(target), Outcome::Inspected(Some(found))) => {
                assert(s.hits =~= Seq::empty());
                assert(handed_over(start, replies, i) =~= Seq::empty());
                assert(handed_over(start, replies, i - 1) =~= Seq::empty());
                assert(to_ask(s) =~= gated_targets(s.unsure));
                assert(to_ask(t) =~= all);
            },
            (Task::Delete(_, phase), Outcome::Deleted(deletion)) => {
                let counted = PurgeState { summary: s.summary.plus(deletion), ..s };
                lemma_to_ask_proceed(counted, phase);
                assert(to_ask(t) =~= all);
            },
            (Task::Measure(target, phase), Outcome::Measured(size)) => {
                let more = PurgeState { unsure: s.unsure.push(Gate { target, size }), ..s };
                assert(gated_targets(more.unsure) =~= gated_targets(s.unsure).push(target));
                lemma_to_ask_proceed(more, phase);
                assert(to_ask(t) =~= to_ask(s));
            },
            (Task::Walk(w), Outcome::Walked(answer)) => {
                let done = w.next(answer);
                assert(s.hits =~= Seq::empty());
                assert(handed_over(start, replies, i - 1) =~= Seq::empty());
                assert(to_ask(s) =~= gated_targets(s.unsure));
                if done.question() is Finished {
                    lemma_to_ask_hit(PurgeState { hits: done.hits, ..s });
                    assert(to_ask(t) =~= all);
                } else {
                    assert(to_ask(t) =~= all);
                }
            },
            (Task::Confirm, Outcome::Confirmed(true)) => {
                lemma_to_ask_proceed(s, Phase::Gated(0));
                assert(to_ask(t) =~= all);
            },
            _ => {
                assert(to_ask(t) =~= to_ask(s));
                assert(to_ask(t) =~= all);
            },
        }
    }
}

/// The question lists exactly the recorded targets without cargo's markers, in
/// the order in which they were looked at, then the findings that are not
/// verified, in the order in which the scan found them.
pub proof fn the_question_lists_records_then_findings(
    recorded: Seq<Seq<u8>>,
    roots: Seq<Seq<u8>>,
    replies: Seq<Outcome>,
    i: int,
)
    requires
        0 <= i <= replies.len(),
        at(PurgeState::start(recorded, roots), replies, i).task is Confirm,
    ensures
        gated_targets(at(PurgeState::start(recorded, roots), replies, i).unsure)
            == doubtful_records(PurgeState::start(recorded, roots), replies, i) + unverified(
            handed_over(PurgeState::start(recorded, roots), replies, i),
        ),
{
    let s = at(PurgeState::start(recorded, roots), replies, i);
    lemma_asks_in_order(recorded, roots, replies, i);
    lemma_findings_covered(recorded, roots, replies, i);
    assert(s.hits =~= Seq::empty());
    assert(to_ask(s) =~= gated_targets(s.unsure));
}

spec fn agreement_followed(start: PurgeState, replies: Seq<Outcome>, j: int, i: int) -> bool {
    let s = at(start, replies, i);
    let unsure = at(start, replies, j).unsure;
    let done: int = match s.task {
        Task::Delete(_, Phase::Gated(k)) => k as int,
        _ => unsure.len() as int,
    };
    &&& s.unsure == unsure
    &&& progress(s.task) >= 4 && !(s.task is Measure)
    &&& 0 <= done <= unsure.len()
    &&& forall|g: int|
        0 <= g < done ==> came_to(
            start,
            replies,
            i,
            Task::Delete((#[trigger] unsure[g]).target, Phase::Gated((g + 1) as usize)),
        )
}

proof fn lemma_agreement_followed(start: PurgeState, replies: Seq<Outcome>, j: int, i: int)
    requires
        0 <= j < i <= replies.len(),
        at(start, replies, j).task is Confirm,
        at(start, replies, j).unsure.len() <= usize::MAX,
        replies[j] == Outcome::Confirmed(true),
    ensures
        agreement_followed(start, replies, j, i),
    decreases i,
{
    let unsure = at(start, replies, j).unsure;
    let t = at(start, replies, i);
    if i > j + 1 {
        lemma_agreement_followed(start, replies, j, i - 1);
    }
    let done: int = match t.task {
        Task::Delete(_, Phase::Gated(k)) => k as int,
        _ => unsure.len() as int,
    };
    assert forall|g: int| 0 <= g < done implies came_to(
        start,
        replies,
        i,
        Task::Delete((#[trigger] unsure[g]).target, Phase::Gated((g + 1) as usize)),
    ) by {
        let task = Task::Delete(unsure[g].target, Phase::Gated((g + 1) as usize));
        if i > j + 1 && came_to(start, replies, i - 1, task) {
            let m = choose|m: int| 0 <= m <= i - 1 && (#[trigger] at(start, replies, m)).task == task;
            assert(at(start, replies, m).task == task);
        } else {
            assert(at(start, replies, i).task == task);
        }
    }
}

/// Where the user agrees, every target they were asked about is deleted by the
/// time the records are read again.
pub proof fn every_agreed_target_is_deleted(
    start: PurgeState,
    replies: Seq<Outcome>,
    j: int,
    i: int,
    g: int,
)
    requires
        0 <= j < i <= replies.len(),
        at(start, replies, j).task is Confirm,
        at(start, replies, j).unsure.len() <= usize::MAX,
        replies[j] == Outcome::Confirmed(true),
        0 <= g < at(start, replies, j).unsure.len(),
        progress(at(start, replies, i).task) > 4,
    ensures
        came_to(
            start,
            replies,
            i,
            Task::Delete(
                at(start, replies, j).unsure[g].target,
                Phase::Gated((g + 1) as usize),
            ),
        ),
{
    lemma_agreement_followed(start, replies, j, i);
}

/// A record is pruned exactly where there is no directory at its place.
pub proof fn a_record_is_pruned_where_its_target_is_gone(
    rows: Seq<Row>,
    target_dir: Seq<char>,
)
    ensures
        purge::gone(rows, rows.len() as int).contains(target_dir) == exists|i: int|
            0 <= i < rows.len() && (#[trigger] rows[i]).target_dir == target_dir && !rows[i].is_dir,
{
    lemma_gone(rows, rows.len() as int, target_dir);
}

/// A record whose place holds no directory is pruned, whatever else is there.
pub proof fn a_missing_record_is_pruned(rows: Seq<Row>, i: int)
    requires
        0 <= i < rows.len(),
        !rows[i].is_dir,
    ensures
        purge::gone(rows, rows.len() as int).contains(rows[i].target_dir),
{
    lemma_gone(rows, rows.len() as int, rows[i].target_dir);
}

proof fn lemma_gone(rows: Seq<Row>, n: int, target_dir: Seq<char>)
    requires
        0 <= n <= rows.len(),
    ensures
        purge::gone(rows, n).contains(target_dir) == exists|i: int|
            0 <= i < n && (#[trigger] rows[i]).target_dir == target_dir && !rows[i].is_dir,
    decreases n,
{
    if n > 0 {
        lemma_gone(rows, n - 1, target_dir);
        let before = purge::gone(rows, n - 1);
        let all = purge::gone(rows, n);
        if before.contains(target_dir) {
            assert(all[before.index_of(target_dir)] == target_dir);
        }
        if !rows[n - 1].is_dir && rows[n - 1].target_dir == target_dir {
            assert(all[before.len() as int] == target_dir);
        }
        if all.contains(target_dir) {
            let k = all.index_of(target_dir);
            if k < before.len() {
                assert(before[k] == target_dir);
            }
        }
    }
}

/// The questions of the scan were answered by one disk.
pub open spec fn scans(disk: Disk, start: PurgeState, replies: Seq<Outcome>, i: int) -> bool {
    forall|j: int|
        0 <= j < i ==> ((#[trigger] at(start, replies, j)).task matches Task::Walk(w)
            ==> replies[j] == Outcome::Walked(disk.answer(w.question())))
}

/// Ahead of `i` a recorded target was found to be the directory at a canonical
/// path.
pub open spec fn was_noted(
    start: PurgeState,
    replies: Seq<Outcome>,
    i: int,
    place: Seq<u8>,
) -> bool {
    exists|j: int|
        0 <= j < i && (#[trigger] at(start, replies, j)).task is Inspect && is_at(
            replies[j],
            place,
        )
}

/// A reply says that a recorded target is the directory at a canonical path.
pub open spec fn is_at(reply: Outcome, place: Seq<u8>) -> bool {
    reply matches Outcome::Inspected(Some(found)) && found.canonical == Some(place)
}

/// `seen` holds exactly the places that were noted ahead of `i`.
pub open spec fn is_noted_list(
    start: PurgeState,
    replies: Seq<Outcome>,
    i: int,
    seen: Seq<Seq<u8>>,
) -> bool {
    forall|place: Seq<u8>| #[trigger] was_noted(start, replies, i, place) == seen.contains(place)
}

/// `w` is a scan of the roots that leaves out the recorded targets.
spec fn is_scan(
    disk: Disk,
    roots: Seq<Seq<u8>>,
    start: PurgeState,
    replies: Seq<Outcome>,
    i: int,
    w: WalkState,
) -> bool {
    exists|seen: Seq<Seq<u8>>, n: nat|
        w == #[trigger] disk.after(WalkState::start(roots, seen), n) && is_noted_list(
            start,
            replies,
            i,
            seen,
        )
}

/// A scan that left out exactly the noted places reported `hits`, and nothing
/// else was found ahead of `i`.
pub open spec fn is_outcome(
    disk: Disk,
    roots: Seq<Seq<u8>>,
    start: PurgeState,
    replies: Seq<Outcome>,
    i: int,
    seen: Seq<Seq<u8>>,
    hits: Seq<Hit>,
) -> bool {
    &&& is_noted_list(start, replies, i, seen)
    &&& walk_laws::finds(disk, roots, seen, hits)
    &&& forall|hit: Hit| #[trigger] was_found(start, replies, i, hit) == hits.contains(hit)
}

spec fn on_course(
    disk: Disk,
    roots: Seq<Seq<u8>>,
    start: PurgeState,
    replies: Seq<Outcome>,
    i: int,
) -> bool {
    let s = at(start, replies, i);
    &&& progress(s.task) == 0 ==> s.roots == roots && is_noted_list(start, replies, i, s.seen)
    &&& progress(s.task) <= 1 ==> forall|hit: Hit| !#[trigger] was_found(start, replies, i, hit)
    &&& s.task matches Task::Walk(w) ==> is_scan(disk, roots, start, replies, i, w)
    &&& progress(s.task) >= 2 ==> exists|seen: Seq<Seq<u8>>, hits: Seq<Hit>|
        #[trigger] is_outcome(disk, roots, start, replies, i, seen, hits)
}

proof fn lemma_noted_step(start: PurgeState, replies: Seq<Outcome>, i: int)
    requires
        0 <= i < replies.len(),
    ensures
        forall|place: Seq<u8>| #[trigger]
            was_noted(start, replies, i + 1, place) == (was_noted(start, replies, i, place) || (at(
                start,
                replies,
                i,
            ).task is Inspect && is_at(replies[i], place))),
{
    assert forall|place: Seq<u8>| #[trigger] was_noted(start, replies, i + 1, place) == (was_noted(
        start,
        replies,
        i,
        place,
    ) || (at(start, replies, i).task is Inspect && is_at(replies[i], place))) by {
        if was_noted(start, replies, i + 1, place) {
            let j = choose|j: int|
                0 <= j < i + 1 && (#[trigger] at(start, replies, j)).task is Inspect && is_at(
                    replies[j],
                    place,
                );
            if j < i {
                assert(was_noted(start, replies, i, place));
            }
        }
        if was_noted(start, replies, i, place) {
            let j = choose|j: int|
                0 <= j < i && (#[trigger] at(start, replies, j)).task is Inspect && is_at(
                    replies[j],
                    place,
                );
            assert(was_noted(start, replies, i + 1, place));
        }
    }
}

proof fn lemma_found_step(start: PurgeState, replies: Seq<Outcome>, i: int)
    requires
        0 <= i < replies.len(),
    ensures
        forall|hit: Hit| #[trigger]
            was_found(start, replies, i + 1, hit) == (was_found(start, replies, i, hit)
                || hands_over(at(start, replies, i), replies[i], hit)),
{
    assert forall|hit: Hit| #[trigger] was_found(start, replies, i + 1, hit) == (was_found(
        start,
        replies,
        i,
        hit,
    ) || hands_over(at(start, replies, i), replies[i], hit)) by {
        if was_found(start, replies, i + 1, hit) {
            let j = choose|j: int|
                0 <= j < i + 1 && hands_over(#[trigger] at(start, replies, j), replies[j], hit);
            if j < i {
                assert(was_found(start, replies, i, hit));
            }
        }
        if was_found(start, replies, i, hit) {
            let j = choose|j: int|
                0 <= j < i && hands_over(#[trigger] at(start, replies, j), replies[j], hit);
            assert(was_found(start, replies, i + 1, hit));
        }
    }
}

/// The scan about to begin, or skipped where there are no roots.
proof fn lemma_scan_begins(
    disk: Disk,
    roots: Seq<Seq<u8>>,
    start: PurgeState,
    replies: Seq<Outcome>,
    i: int,
    seen: Seq<Seq<u8>>,
)
    requires
        is_noted_list(start, replies, i, seen),
        forall|hit: Hit| !#[trigger] was_found(start, replies, i, hit),
    ensures
        is_scan(disk, roots, start, replies, i, WalkState::start(roots, seen)),
        WalkState::start(roots, seen).question() is Finished ==> is_outcome(
            disk,
            roots,
            start,
            replies,
            i,
            seen,
            Seq::empty(),
        ),
{
    let w = WalkState::start(roots, seen);
    assert(w == disk.after(w, 0));
    if w.question() is Finished {
        assert(walk_laws::finds(disk, roots, seen, w.hits));
    }
}

proof fn lemma_on_course_step(
    disk: Disk,
    roots: Seq<Seq<u8>>,
    start: PurgeState,
    replies: Seq<Outcome>,
    i: int,
)
    requires
        0 <= i < replies.len(),
        on_course(disk, roots, start, replies, i),
        scans(disk, start, replies, i + 1),
    ensures
        on_course(disk, roots, start, replies, i + 1),
{
    let s = at(start, replies, i);
    let t = at(start, replies, i + 1);
    a_purge_only_goes_forward(start, replies, i, i + 1);
    lemma_noted_step(start, replies, i);
    lemma_found_step(start, replies, i);
    if progress(s.task) == 0 {
        if let (Task::Inspect(_), Outcome::Inspected(Some(found))) = (s.task, replies[i]) {
            if let Some(p) = found.canonical {
                assert forall|place: Seq<u8>| #[trigger]
                    was_noted(start, replies, i + 1, place) == t.seen.contains(place) by {
                    if s.seen.contains(place) {
                        assert(t.seen[s.seen.index_of(place)] == place);
                    }
                    if place == p {
                        assert(t.seen[s.seen.len() as int] == place);
                    }
                    if t.seen.contains(place) {
                        let m = t.seen.index_of(place);
                        if m < s.seen.len() {
                            assert(s.seen[m] == place);
                        }
                    }
                }
            }
        }
        assert(progress(t.task) == 0 ==> is_noted_list(start, replies, i + 1, t.seen));
        if progress(t.task) > 0 {
            assert(is_noted_list(start, replies, i + 1, s.seen));
            lemma_scan_begins(disk, roots, start, replies, i + 1, s.seen);
        }
    } else if let Task::Walk(v) = s.task {
        let (seen, n) = choose|seen: Seq<Seq<u8>>, n: nat|
            v == #[trigger] disk.after(WalkState::start(roots, seen), n) && is_noted_list(
                start,
                replies,
                i,
                seen,
            );
        assert(replies[i] == Outcome::Walked(disk.answer(v.question())));
        let w = v.next(disk.answer(v.question()));
        assert(w == disk.after(WalkState::start(roots, seen), n + 1));
        assert(is_noted_list(start, replies, i + 1, seen));
        if w.question() is Finished {
            assert(walk_laws::finds(disk, roots, seen, w.hits));
            assert(is_outcome(disk, roots, start, replies, i + 1, seen, w.hits));
        }
    } else {
        let (seen, hits) = choose|seen: Seq<Seq<u8>>, hits: Seq<Hit>|
            #[trigger] is_outcome(disk, roots, start, replies, i, seen, hits);
        assert(is_outcome(disk, roots, start, replies, i + 1, seen, hits));
    }
}

proof fn lemma_on_course(
    disk: Disk,
    recorded: Seq<Seq<u8>>,
    roots: Seq<Seq<u8>>,
    replies: Seq<Outcome>,
    i: int,
)
    requires
        0 <= i <= replies.len(),
        scans(disk, PurgeState::start(recorded, roots), replies, i),
    ensures
        on_course(disk, roots, PurgeState::start(recorded, roots), replies, i),
    decreases i,
{
    let start = PurgeState::start(recorded, roots);
    if i == 0 {
        assert(is_noted_list(start, replies, 0, Seq::empty()));
        lemma_scan_begins(disk, roots, start, replies, 0, Seq::empty());
    } else {
        lemma_on_course(disk, recorded, roots, replies, i - 1);
        lemma_on_course_step(disk, roots, start, replies, i - 1);
    }
}

/// Once its scan is over, a purge found exactly what a scan of the disk
/// reports that leaves out the recorded targets found to be directories.
pub proof fn a_purge_finds_what_the_scan_reports(
    disk: Disk,
    recorded: Seq<Seq<u8>>,
    roots: Seq<Seq<u8>>,
    replies: Seq<Outcome>,
    i: int,
)
    requires
        0 <= i <= replies.len(),
        scans(disk, PurgeState::start(recorded, roots), replies, i),
        progress(at(PurgeState::start(recorded, roots), replies, i).task) >= 2,
    ensures
        exists|seen: Seq<Seq<u8>>, hits: Seq<Hit>|
            #[trigger] is_outcome(
                disk,
                roots,
                PurgeState::start(recorded, roots),
                replies,
                i,
                seen,
                hits,
            ),
{
    lemma_on_course(disk, recorded, roots, replies, i);
}

/// What a scan on a disk hands over is justified by that disk, and is no
/// recorded target that was found to be a directory before.
pub proof fn findings_are_justified_and_new(
    disk: Disk,
    recorded: Seq<Seq<u8>>,
    roots: Seq<Seq<u8>>,
    replies: Seq<Outcome>,
    i: int,
    hit: Hit,
    place: Seq<u8>,
)
    requires
        0 <= i <= replies.len(),
        scans(disk, PurgeState::start(recorded, roots), replies, i),
        was_found(PurgeState::start(recorded, roots), replies, i, hit),
    ensures
        disk.justifies(roots, Seq::empty(), hit),
        was_noted(PurgeState::start(recorded, roots), replies, i, place) ==> !path::same_path(
            place,
            disk.place(hit.target),
        ),
{
    let start = PurgeState::start(recorded, roots);
    lemma_on_course(disk, recorded, roots, replies, i);
    let (seen, hits) = choose|seen: Seq<Seq<u8>>, hits: Seq<Hit>|
        #[trigger] is_outcome(disk, roots, start, replies, i, seen, hits);
    let n = choose|n: nat|
        (#[trigger] disk.after(WalkState::start(roots, seen), n)).question() is Finished
            && disk.after(WalkState::start(roots, seen), n).hits == hits;
    let k = hits.index_of(hit);
    walk_laws::every_hit_is_vouched_for(disk, roots, seen, n, k);
    assert(!path::listed(Seq::empty(), disk.place(hit.target)));
    if was_noted(start, replies, i, place) {
        let q = seen.index_of(place);
        assert(!path::same_path(seen[q], disk.place(hit.target)));
    }
}

/// A scanned target is deleted outright only where a manifest stands beside it
/// and cargo's markers are inside.
pub proof fn scanned_deletions_have_manifest_and_markers(
    disk: Disk,
    recorded: Seq<Seq<u8>>,
    roots: Seq<Seq<u8>>,
    replies: Seq<Outcome>,
    i: int,
    target: Seq<u8>,
)
    requires
        0 <= i <= replies.len(),
        scans(disk, PurgeState::start(recorded, roots), replies, i),
        at(PurgeState::start(recorded, roots), replies, i).task == Task::Delete(
            target,
            Phase::Scanned,
        ),
    ensures
        exists|r: int, dir: Seq<u8>|
            0 <= r < roots.len() && #[trigger] disk.meets(roots[r], dir, target)
                && disk.has_manifest(dir) && (disk.markers)(target),
{
    nothing_is_deleted_without_leave(recorded, roots, replies, i, target, Phase::Scanned);
    let hit = Hit { target, verified: true };
    findings_are_justified_and_new(disk, recorded, roots, replies, i, hit, Seq::empty());
}

} // verus!
