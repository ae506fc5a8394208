//! What the answer of the user changes: a purge that was declined held against
//! one that was agreed to.

use vstd::prelude::*;
use vstd::utf8::*;

use crate::path;
use crate::purge::{Outcome, Phase, PurgeState, Row, Task};
use crate::purge_laws;
use crate::walk::{Hit, WalkState};
use crate::walk_laws;
use crate::walk_laws::Disk;

verus! {

/// Two lists of replies begin with the same `n`.
pub open spec fn share_a_head(a: Seq<Outcome>, b: Seq<Outcome>, n: int) -> bool {
    n <= a.len() && n <= b.len() && forall|i: int| 0 <= i < n ==> #[trigger] a[i] == b[i]
}

/// Where the scan comes across a target, it places it at `place`.
pub open spec fn is_placed(
    disk: Disk,
    roots: Seq<Seq<u8>>,
    target: Seq<u8>,
    place: Seq<u8>,
) -> bool {
    forall|r: int, dir: Seq<u8>|
        0 <= r < roots.len() && #[trigger] disk.meets(roots[r], dir, target) ==> path::same_path(
            place,
            disk.place(target),
        )
}

/// The scan comes across a target.
pub open spec fn is_met(disk: Disk, roots: Seq<Seq<u8>>, target: Seq<u8>) -> bool {
    exists|r: int, dir: Seq<u8>|
        0 <= r < roots.len() && #[trigger] disk.meets(roots[r], dir, target)
}

/// A reply about a recorded target that is a directory gives the canonical
/// path at which the scan places it too. It may lack one only where the scan
/// does not come across the target.
pub open spec fn has_its_place(
    disk: Disk,
    roots: Seq<Seq<u8>>,
    task: Task,
    reply: Outcome,
) -> bool {
    match (task, reply) {
        (Task::Inspect(target), Outcome::Inspected(Some(at))) => match at.canonical {
            Some(place) => is_placed(disk, roots, target, place),
            None => !is_met(disk, roots, target),
        },
        _ => true,
    }
}

/// All recorded targets that were found to be directories ahead of `i` have
/// their places.
pub open spec fn records_have_places(
    disk: Disk,
    roots: Seq<Seq<u8>>,
    start: PurgeState,
    replies: Seq<Outcome>,
    i: int,
) -> bool {
    forall|j: int|
        0 <= j < i ==> has_its_place(
            disk,
            roots,
            (#[trigger] purge_laws::at(start, replies, j)).task,
            replies[j],
        )
}

/// Ahead of `i` a target was not inspected both with cargo's markers in it and
/// without.
pub open spec fn was_inspected_one_way(
    start: PurgeState,
    replies: Seq<Outcome>,
    i: int,
    target: Seq<u8>,
) -> bool {
    !(purge_laws::was_inspected(start, replies, i, target, true) && purge_laws::was_inspected(
        start,
        replies,
        i,
        target,
        false,
    ))
}

/// A task is to delete a given target.
pub open spec fn deletes(task: Task, target: Seq<u8>) -> bool {
    task matches Task::Delete(p, _) && p == target
}

/// Up to `i` a purge set out to delete a target.
pub open spec fn set_out_to_delete(
    start: PurgeState,
    replies: Seq<Outcome>,
    i: int,
    target: Seq<u8>,
) -> bool {
    exists|k: int|
        0 <= k <= i && deletes((#[trigger] purge_laws::at(start, replies, k)).task, target)
}

proof fn lemma_same_head(
    start: PurgeState,
    a: Seq<Outcome>,
    b: Seq<Outcome>,
    n: int,
    i: int,
)
    requires
        share_a_head(a, b, n),
        0 <= i <= n,
    ensures
        purge_laws::at(start, a, i) == purge_laws::at(start, b, i),
    decreases i,
{
    if i > 0 {
        lemma_same_head(start, a, b, n, i - 1);
        assert(a[i - 1] == b[i - 1]);
    }
}

/// The records that a purge did not look at are the last ones of the list.
proof fn lemma_records_left(
    recorded: Seq<Seq<u8>>,
    roots: Seq<Seq<u8>>,
    replies: Seq<Outcome>,
    i: int,
)
    requires
        0 <= i <= replies.len(),
    ensures
        ({
            let s = purge_laws::at(PurgeState::start(recorded, roots), replies, i);
            let k = recorded.len() - s.recorded.len();
            &&& 0 <= k <= recorded.len()
            &&& s.recorded == recorded.skip(k)
            &&& s.task matches Task::Inspect(target) ==> k > 0 && target == recorded[k - 1]
        }),
    decreases i,
{
    let start = PurgeState::start(recorded, roots);
    let t = purge_laws::at(start, replies, i);
    if i == 0 {
        if recorded.len() > 0 {
            assert(t.recorded =~= recorded.skip(1));
        } else {
            assert(t.recorded =~= recorded.skip(0));
        }
    } else {
        lemma_records_left(recorded, roots, replies, i - 1);
        let s = purge_laws::at(start, replies, i - 1);
        let k = recorded.len() - s.recorded.len();
        if t.recorded.len() < s.recorded.len() {
            assert(t.recorded =~= recorded.skip(k + 1));
        }
    }
}

/// A record is looked at once.
proof fn lemma_inspected_once(
    recorded: Seq<Seq<u8>>,
    roots: Seq<Seq<u8>>,
    replies: Seq<Outcome>,
    j: int,
    i: int,
    target: Seq<u8>,
)
    requires
        recorded.no_duplicates(),
        0 <= j < i <= replies.len(),
        purge_laws::at(PurgeState::start(recorded, roots), replies, j).task == Task::Inspect(
            target,
        ),
        replies[j] is Inspected,
    ensures
        purge_laws::at(PurgeState::start(recorded, roots), replies, i).task != Task::Inspect(
            target,
        ),
        !purge_laws::at(PurgeState::start(recorded, roots), replies, i).recorded.contains(target),
    decreases i,
{
    let start = PurgeState::start(recorded, roots);
    let s = purge_laws::at(start, replies, i - 1);
    let t = purge_laws::at(start, replies, i);
    if i == j + 1 {
        lemma_records_left(recorded, roots, replies, j);
        let k = recorded.len() - s.recorded.len();
        if s.recorded.contains(target) {
            let m = s.recorded.index_of(target);
            assert(recorded[k + m] == recorded[k - 1]);
        }
    } else {
        lemma_inspected_once(recorded, roots, replies, j, i - 1, target);
    }
    if t.recorded.contains(target) {
        let m = t.recorded.index_of(target);
        if t.recorded.len() < s.recorded.len() {
            assert(s.recorded[m + 1] == target);
        }
        assert(s.recorded.contains(target));
    }
    if t.task == Task::Inspect(target) {
        assert(s.recorded.len() > 0 && s.recorded[0] == target);
        assert(s.recorded.contains(target));
    }
}

/// A target that is recorded once is inspected one way.
pub proof fn distinct_records_are_inspected_one_way(
    recorded: Seq<Seq<u8>>,
    roots: Seq<Seq<u8>>,
    replies: Seq<Outcome>,
    i: int,
    target: Seq<u8>,
)
    requires
        recorded.no_duplicates(),
        0 <= i <= replies.len(),
    ensures
        was_inspected_one_way(PurgeState::start(recorded, roots), replies, i, target),
{
    let start = PurgeState::start(recorded, roots);
    if purge_laws::was_inspected(start, replies, i, target, true) && purge_laws::was_inspected(
        start,
        replies,
        i,
        target,
        false,
    ) {
        let j = choose|j: int|
            0 <= j < i && (#[trigger] purge_laws::at(start, replies, j)).task == Task::Inspect(
                target,
            ) && purge_laws::is_finding(replies[j], true);
        let k = choose|k: int|
            0 <= k < i && (#[trigger] purge_laws::at(start, replies, k)).task == Task::Inspect(
                target,
            ) && purge_laws::is_finding(replies[k], false);
        if j < k {
            lemma_inspected_once(recorded, roots, replies, j, k, target);
        } else if k < j {
            lemma_inspected_once(recorded, roots, replies, k, j, target);
        }
    }
}

/// What the scan finds is no record that was found to be a directory.
pub proof fn a_finding_is_no_record(
    disk: Disk,
    recorded: Seq<Seq<u8>>,
    roots: Seq<Seq<u8>>,
    replies: Seq<Outcome>,
    i: int,
    hit: Hit,
    markers: bool,
)
    requires
        0 <= i <= replies.len(),
        purge_laws::scans(disk, PurgeState::start(recorded, roots), replies, i),
        records_have_places(disk, roots, PurgeState::start(recorded, roots), replies, i),
        purge_laws::was_found(PurgeState::start(recorded, roots), replies, i, hit),
    ensures
        !purge_laws::was_inspected(
            PurgeState::start(recorded, roots),
            replies,
            i,
            hit.target,
            markers,
        ),
{
    let start = PurgeState::start(recorded, roots);
    if purge_laws::was_inspected(start, replies, i, hit.target, markers) {
        let j = choose|j: int|
            0 <= j < i && (#[trigger] purge_laws::at(start, replies, j)).task == Task::Inspect(
                hit.target,
            ) && purge_laws::is_finding(replies[j], markers);
        assert(has_its_place(disk, roots, Task::Inspect(hit.target), replies[j]));
        let found = replies[j]->Inspected_0->Some_0;
        assert(replies[j] == Outcome::Inspected(Some(found)));
        let place = match found.canonical {
            Some(place) => place,
            None => Seq::empty(),
        };
        purge_laws::findings_are_justified_and_new(
            disk,
            recorded,
            roots,
            replies,
            i,
            hit,
            place,
        );
        let (r, dir) = choose|r: int, dir: Seq<u8>|
            0 <= r < roots.len() && #[trigger] disk.meets(roots[r], dir, hit.target) && (
            disk.has_manifest(dir) || (disk.markers)(hit.target)) && hit.verified == (
            disk.has_manifest(dir) && (disk.markers)(hit.target));
        assert(disk.meets(roots[r], dir, hit.target));
        assert(is_met(disk, roots, hit.target));
        assert(found.canonical is Some);
        assert(is_placed(disk, roots, hit.target, place));
        assert(purge_laws::is_at(replies[j], place));
        assert(purge_laws::was_noted(start, replies, i, place));
    }
}

/// A target is found as verified or as unverified, not as both.
pub proof fn a_target_is_found_one_way(
    disk: Disk,
    recorded: Seq<Seq<u8>>,
    roots: Seq<Seq<u8>>,
    replies: Seq<Outcome>,
    i: int,
    target: Seq<u8>,
)
    requires
        0 <= i <= replies.len(),
        purge_laws::scans(disk, PurgeState::start(recorded, roots), replies, i),
        purge_laws::progress(
            purge_laws::at(PurgeState::start(recorded, roots), replies, i).task,
        ) >= 2,
    ensures
        ({
            let start = PurgeState::start(recorded, roots);
            !(purge_laws::was_found(start, replies, i, Hit { target, verified: true })
                && purge_laws::was_found(start, replies, i, Hit { target, verified: false }))
        }),
{
    let start = PurgeState::start(recorded, roots);
    let (sure, unsure) = (Hit { target, verified: true }, Hit { target, verified: false });
    purge_laws::a_purge_finds_what_the_scan_reports(disk, recorded, roots, replies, i);
    let (seen, hits) = choose|seen: Seq<Seq<u8>>, hits: Seq<Hit>|
        #[trigger] purge_laws::is_outcome(disk, roots, start, replies, i, seen, hits);
    if purge_laws::was_found(start, replies, i, sure) && purge_laws::was_found(
        start,
        replies,
        i,
        unsure,
    ) {
        let n = choose|n: nat|
            (#[trigger] disk.after(WalkState::start(roots, seen), n)).question() is Finished
                && disk.after(WalkState::start(roots, seen), n).hits == hits;
        let (p, q) = (hits.index_of(sure), hits.index_of(unsure));
        if p < q {
            walk_laws::no_target_is_reported_twice(disk, roots, seen, n, p, q);
        } else {
            walk_laws::no_target_is_reported_twice(disk, roots, seen, n, q, p);
        }
    }
}

/// A target that the user is asked about is not deleted outright, and one that
/// is deleted outright is not asked about.
pub proof fn asking_and_deleting_outright_exclude_each_other(
    disk: Disk,
    recorded: Seq<Seq<u8>>,
    roots: Seq<Seq<u8>>,
    replies: Seq<Outcome>,
    i: int,
    target: Seq<u8>,
)
    requires
        0 <= i <= replies.len(),
        was_inspected_one_way(PurgeState::start(recorded, roots), replies, i, target),
        purge_laws::scans(disk, PurgeState::start(recorded, roots), replies, i),
        records_have_places(disk, roots, PurgeState::start(recorded, roots), replies, i),
        purge_laws::progress(
            purge_laws::at(PurgeState::start(recorded, roots), replies, i).task,
        ) >= 2,
        purge_laws::is_doubtful(PurgeState::start(recorded, roots), replies, i, target),
    ensures
        !purge_laws::was_inspected(
            PurgeState::start(recorded, roots),
            replies,
            i,
            target,
            true,
        ),
        !purge_laws::was_found(
            PurgeState::start(recorded, roots),
            replies,
            i,
            (Hit { target, verified: true }),
        ),
{
    let start = PurgeState::start(recorded, roots);
    let (sure, unsure) = (Hit { target, verified: true }, Hit { target, verified: false });
    a_target_is_found_one_way(disk, recorded, roots, replies, i, target);
    if purge_laws::was_found(start, replies, i, sure) {
        a_finding_is_no_record(disk, recorded, roots, replies, i, sure, false);
    }
    if purge_laws::was_found(start, replies, i, unsure) {
        a_finding_is_no_record(disk, recorded, roots, replies, i, unsure, true);
    }
}

/// Up to the question, no target that is asked about was set out to be
/// deleted.
proof fn lemma_asked_about_is_untouched(
    disk: Disk,
    recorded: Seq<Seq<u8>>,
    roots: Seq<Seq<u8>>,
    replies: Seq<Outcome>,
    n: int,
    g: int,
)
    requires
        0 <= n <= replies.len(),
        purge_laws::at(PurgeState::start(recorded, roots), replies, n).task is Confirm,
        purge_laws::scans(disk, PurgeState::start(recorded, roots), replies, n),
        records_have_places(disk, roots, PurgeState::start(recorded, roots), replies, n),
        0 <= g < purge_laws::at(PurgeState::start(recorded, roots), replies, n).unsure.len(),
        was_inspected_one_way(
            PurgeState::start(recorded, roots),
            replies,
            n,
            purge_laws::at(PurgeState::start(recorded, roots), replies, n).unsure[g].target,
        ),
    ensures
        !set_out_to_delete(
            PurgeState::start(recorded, roots),
            replies,
            n,
            purge_laws::at(PurgeState::start(recorded, roots), replies, n).unsure[g].target,
        ),
{
    let start = PurgeState::start(recorded, roots);
    let target = purge_laws::at(start, replies, n).unsure[g].target;
    purge_laws::only_doubtful_targets_are_asked_about(recorded, roots, replies, n, g);
    asking_and_deleting_outright_exclude_each_other(disk, recorded, roots, replies, n, target);
    assert forall|k: int| 0 <= k <= n implies !deletes(
        (#[trigger] purge_laws::at(start, replies, k)).task,
        target,
    ) by {
        if let Task::Delete(p, phase) = purge_laws::at(start, replies, k).task {
            purge_laws::a_purge_only_goes_forward(start, replies, k, n);
            purge_laws::nothing_is_deleted_without_leave(recorded, roots, replies, k, p, phase);
        }
    }
}

/// How far an agreed purge has come with the targets that were asked about.
proof fn lemma_counts_up(start: PurgeState, replies: Seq<Outcome>, n: int, j: int)
    requires
        0 <= n < j <= replies.len(),
        purge_laws::at(start, replies, n).task is Confirm,
        purge_laws::at(start, replies, n).unsure.len() <= usize::MAX,
        replies[n] == Outcome::Confirmed(true),
        forall|k: int|
            0 <= k < j ==> (#[trigger] purge_laws::at(start, replies, k)).can_take(replies[k]),
    ensures
        ({
            let s = purge_laws::at(start, replies, n);
            let t = purge_laws::at(start, replies, j);
            let worked_on = t.summary.deleted + t.summary.locked - s.summary.deleted
                - s.summary.locked;
            &&& t.unsure == s.unsure
            &&& match t.task {
                Task::Delete(target, Phase::Gated(k)) => 1 <= k <= s.unsure.len() && target
                    == s.unsure[k - 1].target && worked_on == k - 1,
                Task::Recheck | Task::Prune(_) | Task::Finished => worked_on == s.unsure.len(),
                _ => false,
            }
        }),
    decreases j,
{
    if j > n + 1 {
        lemma_counts_up(start, replies, n, j - 1);
        assert(purge_laws::at(start, replies, j - 1).can_take(replies[j - 1]));
    }
}

/// A purge that was declined and one that was agreed to, with the same replies
/// up to the question: up to there they fare the same. The declined one
/// deletes nothing more. The agreed one sets out to delete each target that was
/// asked about and no other, and works on as many more targets as were asked
/// about. All other targets fare the same in both.
pub proof fn a_no_and_a_yes_compare(
    start: PurgeState,
    a: Seq<Outcome>,
    b: Seq<Outcome>,
    n: int,
    i: int,
    j: int,
    k: int,
    g: int,
    other: Seq<u8>,
)
    requires
        share_a_head(a, b, n),
        0 <= n < i <= a.len(),
        n < j <= b.len(),
        purge_laws::at(start, a, n).task is Confirm,
        purge_laws::at(start, a, n).unsure.len() <= usize::MAX,
        a[n] == Outcome::Confirmed(false),
        b[n] == Outcome::Confirmed(true),
        forall|m: int| 0 <= m < j ==> (#[trigger] purge_laws::at(start, b, m)).can_take(b[m]),
        purge_laws::progress(purge_laws::at(start, b, j).task) > 4,
    ensures
        ({
            let asked = purge_laws::at(start, a, n).unsure;
            let (no, yes) = (
                purge_laws::at(start, a, i).summary,
                purge_laws::at(start, b, j).summary,
            );
            &&& 0 <= k <= n ==> purge_laws::at(start, a, k) == purge_laws::at(start, b, k)
            &&& n < k <= i ==> !(purge_laws::at(start, a, k).task is Delete)
            &&& n < k <= j && deletes(purge_laws::at(start, b, k).task, other)
                ==> purge_laws::is_gated(asked, other)
            &&& no == purge_laws::at(start, a, n).summary
            &&& yes.deleted + yes.locked == no.deleted + no.locked + asked.len()
            &&& 0 <= g < asked.len() ==> set_out_to_delete(start, b, j, asked[g].target)
            &&& !purge_laws::is_gated(asked, other) ==> set_out_to_delete(start, a, i, other)
                == set_out_to_delete(start, b, j, other)
        }),
{
    let asked = purge_laws::at(start, a, n).unsure;
    assert forall|m: int| 0 <= m <= n implies #[trigger] purge_laws::at(start, a, m)
        == purge_laws::at(start, b, m) by {
        lemma_same_head(start, a, b, n, m);
    }
    lemma_summary_stays(start, a, n, i);
    lemma_same_head(start, a, b, n, n);
    lemma_counts_up(start, b, n, j);
    assert forall|m: int| n < m <= i implies !(#[trigger] purge_laws::at(
        start,
        a,
        m,
    ).task is Delete) by {
        purge_laws::nothing_is_deleted_after_a_no(start, a, n, m);
    }
    assert forall|m: int|
        n < m <= j && deletes(
            (#[trigger] purge_laws::at(start, b, m)).task,
            other,
        ) implies purge_laws::is_gated(asked, other) by {
        lemma_counts_up(start, b, n, m);
        let q = purge_laws::at(start, b, m).task->Delete_1->Gated_0;
        assert(asked[q - 1].target == other);
    }
    if 0 <= g < asked.len() {
        purge_laws::every_agreed_target_is_deleted(start, b, n, j, g);
        let task = Task::Delete(asked[g].target, Phase::Gated((g + 1) as usize));
        let m = choose|m: int|
            0 <= m <= j && (#[trigger] purge_laws::at(start, b, m)).task == task;
        assert(deletes(purge_laws::at(start, b, m).task, asked[g].target));
    }
    if !purge_laws::is_gated(asked, other) {
        if set_out_to_delete(start, a, i, other) {
            let m = choose|m: int|
                0 <= m <= i && deletes((#[trigger] purge_laws::at(start, a, m)).task, other);
            assert(m <= n);
            assert(deletes(purge_laws::at(start, b, m).task, other));
        }
        if set_out_to_delete(start, b, j, other) {
            let m = choose|m: int|
                0 <= m <= j && deletes((#[trigger] purge_laws::at(start, b, m)).task, other);
            assert(m <= n);
            assert(deletes(purge_laws::at(start, a, m).task, other));
        }
    }
}

/// After a no, a target that was asked about was never set out to be deleted:
/// neither before the question nor after it.
pub proof fn a_no_leaves_what_was_asked_about(
    disk: Disk,
    recorded: Seq<Seq<u8>>,
    roots: Seq<Seq<u8>>,
    replies: Seq<Outcome>,
    n: int,
    i: int,
    g: int,
)
    requires
        0 <= n < i <= replies.len(),
        purge_laws::at(PurgeState::start(recorded, roots), replies, n).task is Confirm,
        replies[n] == Outcome::Confirmed(false),
        purge_laws::scans(disk, PurgeState::start(recorded, roots), replies, n),
        records_have_places(disk, roots, PurgeState::start(recorded, roots), replies, n),
        0 <= g < purge_laws::at(PurgeState::start(recorded, roots), replies, n).unsure.len(),
        was_inspected_one_way(
            PurgeState::start(recorded, roots),
            replies,
            n,
            purge_laws::at(PurgeState::start(recorded, roots), replies, n).unsure[g].target,
        ),
    ensures
        !set_out_to_delete(
            PurgeState::start(recorded, roots),
            replies,
            i,
            purge_laws::at(PurgeState::start(recorded, roots), replies, n).unsure[g].target,
        ),
{
    let start = PurgeState::start(recorded, roots);
    let target = purge_laws::at(start, replies, n).unsure[g].target;
    lemma_asked_about_is_untouched(disk, recorded, roots, replies, n, g);
    if set_out_to_delete(start, replies, i, target) {
        let m = choose|m: int|
            0 <= m <= i && deletes((#[trigger] purge_laws::at(start, replies, m)).task, target);
        if m > n {
            purge_laws::nothing_is_deleted_after_a_no(start, replies, n, m);
        }
        assert(set_out_to_delete(start, replies, n, target));
    }
}

/// After a no the counters stay.
proof fn lemma_summary_stays(start: PurgeState, replies: Seq<Outcome>, n: int, i: int)
    requires
        0 <= n < i <= replies.len(),
        purge_laws::at(start, replies, n).task is Confirm,
        replies[n] == Outcome::Confirmed(false),
    ensures
        purge_laws::at(start, replies, i).summary == purge_laws::at(start, replies, n).summary,
        purge_laws::progress(purge_laws::at(start, replies, i).task) >= 5,
    decreases i,
{
    if i > n + 1 {
        lemma_summary_stays(start, replies, n, i - 1);
    }
}

/// Ahead of `i` a directory was found at a target: by looking at a record, or
/// by the scan.
pub open spec fn was_there(
    start: PurgeState,
    replies: Seq<Outcome>,
    i: int,
    target: Seq<u8>,
) -> bool {
    ||| purge_laws::was_inspected(start, replies, i, target, true)
    ||| purge_laws::was_inspected(start, replies, i, target, false)
    ||| purge_laws::was_found(start, replies, i, (Hit { target, verified: true }))
    ||| purge_laws::was_found(start, replies, i, (Hit { target, verified: false }))
}

/// Records that were read again tell the truth: a directory that was there and
/// that the purge did not set out to delete is still one.
pub open spec fn rows_are_true(
    start: PurgeState,
    replies: Seq<Outcome>,
    i: int,
    rows: Seq<Row>,
) -> bool {
    forall|k: int|
        0 <= k < rows.len() && was_there(
            start,
            replies,
            i,
            encode_utf8((#[trigger] rows[k]).target_dir),
        ) && !set_out_to_delete(start, replies, i, encode_utf8(rows[k].target_dir))
            ==> rows[k].is_dir
}

/// After a no, the records of the targets that were asked about are kept.
pub proof fn a_no_keeps_the_records(
    disk: Disk,
    recorded: Seq<Seq<u8>>,
    roots: Seq<Seq<u8>>,
    replies: Seq<Outcome>,
    n: int,
    i: int,
    rows: Seq<Row>,
    g: int,
    target_dir: Seq<char>,
)
    requires
        0 <= n < i < replies.len(),
        purge_laws::at(PurgeState::start(recorded, roots), replies, n).task is Confirm,
        replies[n] == Outcome::Confirmed(false),
        purge_laws::scans(disk, PurgeState::start(recorded, roots), replies, n),
        records_have_places(disk, roots, PurgeState::start(recorded, roots), replies, n),
        purge_laws::at(PurgeState::start(recorded, roots), replies, i).task is Recheck,
        replies[i] == Outcome::Rows(rows),
        rows_are_true(PurgeState::start(recorded, roots), replies, i, rows),
        0 <= g < purge_laws::at(PurgeState::start(recorded, roots), replies, n).unsure.len(),
        encode_utf8(target_dir) == purge_laws::at(
            PurgeState::start(recorded, roots),
            replies,
            n,
        ).unsure[g].target,
        was_inspected_one_way(
            PurgeState::start(recorded, roots),
            replies,
            n,
            encode_utf8(target_dir),
        ),
    ensures
        ({
            let next = purge_laws::at(PurgeState::start(recorded, roots), replies, i + 1);
            next.task matches Task::Prune(gone) && !gone.contains(target_dir)
        }),
{
    let start = PurgeState::start(recorded, roots);
    let target = purge_laws::at(start, replies, n).unsure[g].target;
    a_no_leaves_what_was_asked_about(disk, recorded, roots, replies, n, i, g);
    purge_laws::only_doubtful_targets_are_asked_about(recorded, roots, replies, n, g);
    purge_laws::a_record_is_pruned_where_its_target_is_gone(rows, target_dir);
    assert(was_there(start, replies, i, target)) by {
        if purge_laws::was_inspected(start, replies, n, target, false) {
            assert(purge_laws::was_inspected(start, replies, i, target, false));
        } else {
            let hit = Hit { target, verified: false };
            assert(purge_laws::was_found(start, replies, n, hit));
            assert(purge_laws::was_found(start, replies, i, hit));
        }
    }
}

} // verus!
