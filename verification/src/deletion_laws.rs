//! What must be found before a directory is deleted unasked, and what a
//! deletion adds to the counters.

use vstd::prelude::*;
use vstd::utf8::*;

use crate::purge;
use crate::purge::{
    Deletion, Gate, Inspection, Outcome, Phase, PurgeReply, PurgeRequest, PurgeState, Row, RowState,
    Summary, Task, UnsureHit,
};
use crate::purge_laws;
use crate::scan;
use crate::scan::Evidence;
use crate::spelling;
use crate::walk::Hit;

verus! {

/// The letters of `cargo` stand in `tag` from `i` on.
pub open spec fn names_cargo_at(tag: Seq<u8>, i: int) -> bool {
    &&& 0 <= i
    &&& i + 5 <= tag.len()
    &&& tag[i] == 'c' as u8
    &&& tag[i + 1] == 'a' as u8
    &&& tag[i + 2] == 'r' as u8
    &&& tag[i + 3] == 'g' as u8
    &&& tag[i + 4] == 'o' as u8
}

/// Something of cargo's is in a directory: its probe cache, a compiled profile,
/// or a `CACHEDIR.TAG` that is a text with the word `cargo` in it.
pub open spec fn shows_cargo(found: Evidence) -> bool {
    ||| found.rustc_info
    ||| found.profile
    ||| found.tag matches Some(tag) && valid_utf8(tag@) && exists|i: int|
        #[trigger] names_cargo_at(tag@, i)
}

/// A directory is cargo's exactly where something of cargo's is in it.
pub proof fn a_directory_is_cargos_where_it_shows(found: Evidence)
    ensures
        found.vouches() == shows_cargo(found),
{
    spelling::cargo();
    let word = encode_utf8("cargo"@);
    if let Some(tag) = found.tag {
        if scan::occurs_in(word, tag@) {
            let i = choose|i: int|
                0 <= i <= tag@.len() - word.len() && #[trigger] tag@.subrange(i, i + word.len())
                    == word;
            let part = tag@.subrange(i, i + 5);
            assert(part[0] == tag@[i] && part[1] == tag@[i + 1] && part[2] == tag@[i + 2] && part[3]
                == tag@[i + 3] && part[4] == tag@[i + 4]);
            assert(names_cargo_at(tag@, i));
        }
        if exists|i: int| #[trigger] names_cargo_at(tag@, i) {
            let i = choose|i: int| #[trigger] names_cargo_at(tag@, i);
            assert(tag@.subrange(i, i + word.len()) =~= word);
        }
    }
}

/// What replies say, one by one.
pub open spec fn outcomes(replies: Seq<PurgeReply>) -> Seq<Outcome> {
    replies.map_values(|r: PurgeReply| r@)
}

/// A reply says that a directory is there and shows something of cargo's.
pub open spec fn is_evidence(reply: PurgeReply) -> bool {
    reply matches PurgeReply::Inspected(Some(at)) && shows_cargo(at.found)
}

/// Ahead of `i`, something of cargo's showed in a recorded directory.
pub open spec fn has_shown_cargo(
    start: PurgeState,
    replies: Seq<PurgeReply>,
    i: int,
    target: Seq<u8>,
) -> bool {
    exists|j: int|
        0 <= j < i && (#[trigger] purge_laws::at(start, outcomes(replies), j)).task
            == Task::Inspect(target) && is_evidence(replies[j])
}

/// As long as the user has not agreed to anything, a directory is deleted only
/// where something of cargo's showed in it, or where the scan found it and a
/// manifest beside it and cargo's markers in it both vouch for it.
pub proof fn only_what_shows_cargo_is_deleted_unasked(
    recorded: Seq<Seq<u8>>,
    roots: Seq<Seq<u8>>,
    replies: Seq<PurgeReply>,
    i: int,
    request: PurgeRequest,
    target: Vec<u8>,
)
    requires
        0 <= i <= replies.len(),
        forall|j: int| 0 <= j < i ==> #[trigger] replies[j] != PurgeReply::Confirmed(true),
        purge::asks_for(
            request,
            purge_laws::at(PurgeState::start(recorded, roots), outcomes(replies), i).task,
        ),
        request == PurgeRequest::Delete(target),
    ensures
        has_shown_cargo(PurgeState::start(recorded, roots), replies, i, target@)
            || purge_laws::was_found(
            PurgeState::start(recorded, roots),
            outcomes(replies),
            i,
            (Hit { target: target@, verified: true }),
        ),
{
    let start = PurgeState::start(recorded, roots);
    let said = outcomes(replies);
    assert forall|j: int| 0 <= j < i implies #[trigger] said[j] == replies[j]@ by {}
    let task = purge_laws::at(start, said, i).task;
    assert(task is Delete);
    if let Task::Delete(p, phase) = task {
        assert(p == target@);
        purge_laws::nothing_is_deleted_without_leave(recorded, roots, said, i, p, phase);
        match phase {
            Phase::Recorded => {
                let j = choose|j: int|
                    0 <= j < i && (#[trigger] purge_laws::at(start, said, j)).task
                        == Task::Inspect(p) && purge_laws::is_finding(said[j], true);
                assert(said[j] == replies[j]@);
                if let PurgeReply::Inspected(Some(at)) = replies[j] {
                    a_directory_is_cargos_where_it_shows(at.found);
                }
                assert(is_evidence(replies[j]));
                assert(has_shown_cargo(start, replies, i, p));
            },
            Phase::Scanned => {},
            Phase::Gated(_) => {
                let j = choose|j: int|
                    0 <= j < i && (#[trigger] purge_laws::at(start, said, j)).task is Confirm
                        && said[j] == Outcome::Confirmed(true) && purge_laws::is_gated(
                        purge_laws::at(start, said, j).unsure,
                        p,
                    );
                assert(said[j] == replies[j]@);
                assert(replies[j] == PurgeReply::Confirmed(true));
            },
        }
    }
}

/// A recorded directory in which something of cargo's shows is deleted at once,
/// one in which nothing does is measured first, and one that is not there is
/// passed over.
pub proof fn what_was_found_decides(
    s: PurgeState,
    target: Seq<u8>,
    at: Inspection,
)
    requires
        s.task == Task::Inspect(target),
    ensures
        shows_cargo(at.found) ==> s.next(PurgeReply::Inspected(Some(at))@).task == Task::Delete(
            target,
            Phase::Recorded,
        ),
        !shows_cargo(at.found) ==> s.next(PurgeReply::Inspected(Some(at))@).task
            == Task::Measure(target, Phase::Recorded),
        at.canonical matches Some(p) ==> s.next(PurgeReply::Inspected(Some(at))@).seen
            == s.seen.push(p@),
        at.canonical is None ==> s.next(PurgeReply::Inspected(Some(at))@).seen == s.seen,
        s.recorded.len() > 0 ==> s.next(PurgeReply::Inspected(None)@).task == Task::Inspect(
            s.recorded[0],
        ) && s.next(PurgeReply::Inspected(None)@).seen == s.seen,
{
    a_directory_is_cargos_where_it_shows(at.found);
}

proof fn lemma_hit_keeps_summary(s: PurgeState, phase: Phase)
    ensures
        s.proceed(phase).summary == s.summary,
{
}

/// A directory that was locked is counted as locked. One that was removed is
/// counted as deleted, and the bytes by which it shrank are freed; one that
/// grew meanwhile frees nothing. No other reply touches the counters.
pub proof fn deletions_are_counted(
    s: PurgeState,
    target: Seq<u8>,
    phase: Phase,
    before: u64,
    after: u64,
    other: PurgeReply,
)
    ensures
        s.task == Task::Delete(target, phase) && s.summary.locked < usize::MAX ==> {
            let now = s.next(PurgeReply::Deleted(Deletion::Locked)@).summary;
            now.locked == s.summary.locked + 1 && now.deleted == s.summary.deleted && now.freed
                == s.summary.freed
        },
        s.task == Task::Delete(target, phase) && s.summary.deleted < usize::MAX && s.summary.freed
            + before <= u64::MAX ==> {
            let now = s.next(
                PurgeReply::Deleted(Deletion::Removed { before, after })@,
            ).summary;
            &&& now.locked == s.summary.locked
            &&& now.deleted == s.summary.deleted + 1
            &&& before >= after ==> now.freed - s.summary.freed == before - after
            &&& before < after ==> now.freed == s.summary.freed
        },
        !(other is Deleted) ==> s.next(other@).summary == s.summary,
        PurgeState::start(Seq::empty(), Seq::empty()).summary == (Summary {
            freed: 0,
            deleted: 0,
            locked: 0,
        }),
{
    lemma_hit_keeps_summary(s, Phase::Recorded);
    lemma_hit_keeps_summary(s, phase);
}

/// The bytes that a deletion gives back are those by which the directory
/// shrank.
pub proof fn a_deletion_gives_back_what_is_gone(before: u64, after: u64)
    ensures
        before >= after ==> (Deletion::Removed { before, after }).gain() == before - after,
        before < after ==> (Deletion::Removed { before, after }).gain() == 0,
        Deletion::Locked.gain() == 0,
{
}

/// A directory that was measured is put behind those that the user will be
/// asked about, with its size.
pub proof fn what_was_measured_is_asked_about(
    s: PurgeState,
    target: Seq<u8>,
    phase: Phase,
    size: u64,
)
    requires
        s.task == Task::Measure(target, phase),
    ensures
        s.next(PurgeReply::Measured(size)@).unsure == s.unsure.push(Gate { target, size }),
{
}

/// A directory that the user is asked about is named by its path and size.
pub proof fn gates_are_taken_as_they_are(hits: Seq<UnsureHit>, k: int)
    requires
        0 <= k < hits.len(),
    ensures
        purge::gates(hits).len() == hits.len(),
        purge::gates(hits)[k].target == hits[k].target@,
        purge::gates(hits)[k].size == hits[k].size,
{
}

/// The records to remove are those without a directory, in their order: one
/// more row adds itself where there is no directory, and nothing where there is.
pub proof fn rows_without_directories_are_gone(rows: Seq<Row>, row: Row)
    ensures
        purge::gone(Seq::empty(), 0).len() == 0,
        row.is_dir ==> purge::gone(rows.push(row), (rows.len() + 1) as int) == purge::gone(
            rows,
            rows.len() as int,
        ),
        !row.is_dir ==> purge::gone(rows.push(row), (rows.len() + 1) as int) == purge::gone(
            rows,
            rows.len() as int,
        ).push(row.target_dir),
{
    lemma_gone_ahead(rows, row, rows.len() as int);
}

proof fn lemma_gone_ahead(rows: Seq<Row>, row: Row, n: int)
    requires
        n <= rows.len(),
    ensures
        purge::gone(rows.push(row), n) == purge::gone(rows, n),
    decreases n,
{
    if n > 0 {
        lemma_gone_ahead(rows, row, n - 1);
    }
}

/// What was read of the records is taken as it is, and the records without a
/// directory are the ones to remove.
pub proof fn rows_are_taken_as_they_are(s: PurgeState, rows: Vec<RowState>, k: int)
    requires
        s.task is Recheck,
        0 <= k < rows@.len(),
    ensures
        purge::rows_of(rows@).len() == rows@.len(),
        purge::rows_of(rows@)[k].target_dir == rows@[k].target_dir@,
        purge::rows_of(rows@)[k].is_dir == rows@[k].is_dir,
        s.next(PurgeReply::Rows(rows)@).task == Task::Prune(
            purge::gone(purge::rows_of(rows@), rows@.len() as int),
        ),
{
}

} // verus!
