//! `ls` reports exactly what `purge` would act on.

use vstd::prelude::*;

use crate::consent_laws;
use crate::loss_laws;
use crate::ls::{LsOutcome, LsState, LsTask};
use crate::ls_laws;
use crate::ls_text::Size;
use crate::path;
use crate::purge;
use crate::purge::{Outcome, Phase, PurgeState, Row, Task};
use crate::purge_laws;
use crate::rank;
use crate::store::Project;
use crate::walk;
use crate::walk::{Hit, ScanHit};
use crate::walk_laws;
use crate::walk_laws::Disk;

verus! {

/// What a purge learnt of the places of its records is what the disk says.
pub open spec fn records_are_from_disk(
    disk: Disk,
    start: PurgeState,
    replies: Seq<Outcome>,
    i: int,
) -> bool {
    forall|j: int|
        0 <= j < i ==> is_place_from_disk(
            disk,
            (#[trigger] purge_laws::at(start, replies, j)).task,
            replies[j],
        )
}

/// A reply about a recorded target gives the canonical path that the disk
/// gives.
pub open spec fn is_place_from_disk(disk: Disk, task: Task, reply: Outcome) -> bool {
    match (task, reply) {
        (Task::Inspect(target), Outcome::Inspected(Some(at))) => at.canonical == (disk.canonical)(
            target,
        ),
        _ => true,
    }
}

/// A record that leads to a target which the scan comes across, on the disk as
/// it is later, was found to lead to a directory.
pub open spec fn present_records_were_noted(
    disk: Disk,
    later: Disk,
    recorded: Seq<Seq<u8>>,
    roots: Seq<Seq<u8>>,
    replies: Seq<Outcome>,
    i: int,
) -> bool {
    forall|r: int, dir: Seq<u8>, target: Seq<u8>, k: int|
        0 <= r < roots.len() && #[trigger] later.meets(roots[r], dir, target) && 0 <= k
            < recorded.len() && (disk.canonical)(#[trigger] recorded[k]) is Some
            && path::same_path((disk.canonical)(recorded[k])->Some_0, later.place(target))
            ==> purge_laws::was_noted(
            PurgeState::start(recorded, roots),
            replies,
            i,
            (disk.canonical)(recorded[k])->Some_0,
        )
}

/// `x` is the place of one of the first `n` recorded targets.
spec fn is_recorded_place(
    disk: Disk,
    recorded: Seq<Seq<u8>>,
    n: int,
    k: int,
    x: Seq<u8>,
) -> bool {
    0 <= k < n && (disk.canonical)(recorded[k]) is Some && path::same_path(
        (disk.canonical)(recorded[k])->Some_0,
        x,
    )
}

proof fn lemma_listed_places(disk: Disk, recorded: Seq<Seq<u8>>, n: int, x: Seq<u8>)
    requires
        0 <= n <= recorded.len(),
    ensures
        path::listed(ls_laws::places_of(disk, recorded, n), x) == exists|k: int|
            is_recorded_place(disk, recorded, n, k, x),
    decreases n,
{
    if n > 0 {
        let m = n - 1;
        lemma_listed_places(disk, recorded, m, x);
        if let Some(place) = (disk.canonical)(recorded[m]) {
            path::lemma_listed_push(ls_laws::places_of(disk, recorded, m), place, x);
            if path::same_path(place, x) {
                assert(is_recorded_place(disk, recorded, n, m, x));
            }
        }
        if exists|k: int| is_recorded_place(disk, recorded, m, k, x) {
            let k = choose|k: int| is_recorded_place(disk, recorded, m, k, x);
            assert(is_recorded_place(disk, recorded, n, k, x));
        }
        if exists|k: int| is_recorded_place(disk, recorded, n, k, x) {
            let k = choose|k: int| is_recorded_place(disk, recorded, n, k, x);
            assert(k == m || is_recorded_place(disk, recorded, m, k, x));
        }
    }
}

/// The order of the records makes no difference to what is recorded.
proof fn lemma_listed_ranked(disk: Disk, projects: Seq<Project>, x: Seq<u8>)
    ensures
        path::listed(ls_laws::recorded_places(disk, rank::ranked(projects)), x) == path::listed(
            ls_laws::recorded_places(disk, projects),
            x,
        ),
{
    let sorted = rank::ranked(projects);
    let (a, b) = (purge::targets_of(projects), purge::targets_of(sorted));
    rank::ranking_is_stable(projects, 0);
    let n = projects.len() as int;
    lemma_listed_places(disk, a, n, x);
    lemma_listed_places(disk, b, n, x);
    if exists|k: int| is_recorded_place(disk, a, n, k, x) {
        let k = choose|k: int| is_recorded_place(disk, a, n, k, x);
        rank::ranking_keeps_the_items(projects, projects[k]);
        assert(projects.contains(projects[k]));
        let m = sorted.index_of(projects[k]);
        assert(b[m] == a[k]);
        assert(is_recorded_place(disk, b, n, m, x));
    }
    if exists|k: int| is_recorded_place(disk, b, n, k, x) {
        let k = choose|k: int| is_recorded_place(disk, b, n, k, x);
        rank::ranking_keeps_the_items(projects, sorted[k]);
        assert(sorted.contains(sorted[k]));
        let m = projects.index_of(sorted[k]);
        assert(a[m] == b[k]);
        assert(is_recorded_place(disk, a, n, m, x));
    }
}

/// Only recorded targets are inspected.
proof fn lemma_inspects_records(
    recorded: Seq<Seq<u8>>,
    roots: Seq<Seq<u8>>,
    replies: Seq<Outcome>,
    i: int,
)
    requires
        0 <= i <= replies.len(),
    ensures
        ({
            let s = purge_laws::at(PurgeState::start(recorded, roots), replies, i);
            &&& s.task matches Task::Inspect(target) ==> recorded.contains(target)
            &&& forall|k: int|
                0 <= k < s.recorded.len() ==> recorded.contains(#[trigger] s.recorded[k])
        }),
    decreases i,
{
    let start = PurgeState::start(recorded, roots);
    if i == 0 {
        assert(forall|k: int| 0 <= k < recorded.len() ==> recorded.contains(#[trigger] recorded[k]));
    } else {
        lemma_inspects_records(recorded, roots, replies, i - 1);
        let s = purge_laws::at(start, replies, i - 1);
        let t = purge_laws::at(start, replies, i);
        assert(t == s.next(replies[i - 1]));
        assert(t.recorded == s.recorded || (s.recorded.len() > 0 && t.recorded
            == s.recorded.drop_first()));
        if s.recorded.len() > 0 {
            assert(recorded.contains(s.recorded[0]));
        }
    }
}

/// What a purge leaves out of its scan is what is recorded, as far as the scan
/// comes across it.
proof fn lemma_listed_noted(
    disk: Disk,
    recorded: Seq<Seq<u8>>,
    roots: Seq<Seq<u8>>,
    replies: Seq<Outcome>,
    i: int,
    seen: Seq<Seq<u8>>,
    x: Seq<u8>,
)
    requires
        0 <= i <= replies.len(),
        records_are_from_disk(disk, PurgeState::start(recorded, roots), replies, i),
        purge_laws::is_noted_list(PurgeState::start(recorded, roots), replies, i, seen),
        forall|k: int|
            #[trigger] is_recorded_place(disk, recorded, recorded.len() as int, k, x)
                ==> purge_laws::was_noted(
                PurgeState::start(recorded, roots),
                replies,
                i,
                (disk.canonical)(recorded[k])->Some_0,
            ),
    ensures
        path::listed(seen, x) == path::listed(
            ls_laws::places_of(disk, recorded, recorded.len() as int),
            x,
        ),
{
    let start = PurgeState::start(recorded, roots);
    let n = recorded.len() as int;
    lemma_listed_places(disk, recorded, n, x);
    if path::listed(seen, x) {
        let q = choose|q: int| 0 <= q < seen.len() && path::same_path(#[trigger] seen[q], x);
        let place = seen[q];
        assert(seen.contains(place));
        assert(purge_laws::was_noted(start, replies, i, place));
        let j = choose|j: int|
            0 <= j < i && (#[trigger] purge_laws::at(start, replies, j)).task is Inspect
                && purge_laws::is_at(replies[j], place);
        let task = purge_laws::at(start, replies, j).task;
        let target = task->Inspect_0;
        assert(is_place_from_disk(disk, task, replies[j]));
        lemma_inspects_records(recorded, roots, replies, j);
        let k = recorded.index_of(target);
        assert(is_recorded_place(disk, recorded, n, k, x));
    }
    if path::listed(ls_laws::places_of(disk, recorded, n), x) {
        let k = choose|k: int| is_recorded_place(disk, recorded, n, k, x);
        let place = (disk.canonical)(recorded[k])->Some_0;
        assert(purge_laws::was_noted(start, replies, i, place));
        let q = seen.index_of(place);
        assert(path::same_path(seen[q], x));
    }
}

/// With the same records, roots and disk, what the list holds as found is
/// exactly what the scan of a purge finds.
pub proof fn the_list_holds_what_a_purge_finds(
    disk: Disk,
    projects: Seq<Project>,
    roots: Seq<Seq<u8>>,
    states: Seq<LsState>,
    ls_replies: Seq<LsOutcome>,
    i: int,
    hits: Seq<ScanHit>,
    replies: Seq<Outcome>,
    j: int,
    hit: Hit,
)
    requires
        ls_laws::is_run(states, ls_replies),
        ls_laws::is_on_disk(disk, states, ls_replies),
        states[0].task is LoadPolicy,
        0 <= i <= ls_replies.len(),
        states[i].task == LsTask::MeasureHits(hits),
        states[i].projects == rank::ranked(projects),
        states[i].roots == roots,
        0 <= j <= replies.len(),
        purge_laws::scans(
            disk,
            PurgeState::start(purge::targets_of(projects), roots),
            replies,
            j,
        ),
        records_are_from_disk(
            disk,
            PurgeState::start(purge::targets_of(projects), roots),
            replies,
            j,
        ),
        present_records_were_noted(disk, disk, purge::targets_of(projects), roots, replies, j),
        purge_laws::progress(
            purge_laws::at(
                PurgeState::start(purge::targets_of(projects), roots),
                replies,
                j,
            ).task,
        ) >= 2,
    ensures
        walk::hits_of(hits).contains(hit) == purge_laws::was_found(
            PurgeState::start(purge::targets_of(projects), roots),
            replies,
            j,
            hit,
        ),
{
    let recorded = purge::targets_of(projects);
    let start = PurgeState::start(recorded, roots);
    let one = ls_laws::recorded_places(disk, rank::ranked(projects));
    ls_laws::the_list_holds_what_the_scan_finds(disk, states, ls_replies, i, hits);
    purge_laws::a_purge_finds_what_the_scan_reports(disk, recorded, roots, replies, j);
    let (seen, found) = choose|seen: Seq<Seq<u8>>, found: Seq<Hit>|
        #[trigger] purge_laws::is_outcome(disk, roots, start, replies, j, seen, found);
    assert forall|r: int, dir: Seq<u8>, target: Seq<u8>|
        0 <= r < roots.len() && #[trigger] disk.meets(roots[r], dir, target) implies path::listed(
        one,
        disk.place(target),
    ) == path::listed(seen, disk.place(target)) by {
        let x = disk.place(target);
        lemma_listed_ranked(disk, projects, x);
        lemma_listed_noted(disk, recorded, roots, replies, j, seen, x);
    }
    walk_laws::scans_of_one_disk_agree(disk, roots, one, seen, walk::hits_of(hits), found);
}

/// The same, where the purge deleted recorded targets before it scanned: `disk`
/// is what the list saw, `later` what the scan of the purge sees. `lost` apart,
/// the two are the same disk, and among `lost` the scan would report nothing
/// that is not recorded.
pub proof fn deleting_records_first_changes_no_finding(
    disk: Disk,
    later: Disk,
    lost: spec_fn(Seq<u8>) -> bool,
    projects: Seq<Project>,
    roots: Seq<Seq<u8>>,
    states: Seq<LsState>,
    ls_replies: Seq<LsOutcome>,
    i: int,
    hits: Seq<ScanHit>,
    replies: Seq<Outcome>,
    j: int,
    hit: Hit,
)
    requires
        ls_laws::is_run(states, ls_replies),
        ls_laws::is_on_disk(disk, states, ls_replies),
        states[0].task is LoadPolicy,
        0 <= i <= ls_replies.len(),
        states[i].task == LsTask::MeasureHits(hits),
        states[i].projects == rank::ranked(projects),
        states[i].roots == roots,
        0 <= j <= replies.len(),
        purge_laws::scans(
            later,
            PurgeState::start(purge::targets_of(projects), roots),
            replies,
            j,
        ),
        records_are_from_disk(
            disk,
            PurgeState::start(purge::targets_of(projects), roots),
            replies,
            j,
        ),
        present_records_were_noted(disk, later, purge::targets_of(projects), roots, replies, j),
        purge_laws::progress(
            purge_laws::at(
                PurgeState::start(purge::targets_of(projects), roots),
                replies,
                j,
            ).task,
        ) >= 2,
        loss_laws::is_closed(disk, lost),
        loss_laws::is_closed(later, lost),
        loss_laws::without(disk, lost) == loss_laws::without(later, lost),
        loss_laws::hides_nothing(
            disk,
            roots,
            ls_laws::recorded_places(disk, projects),
            lost,
        ),
        loss_laws::hides_nothing(
            later,
            roots,
            ls_laws::recorded_places(disk, projects),
            lost,
        ),
    ensures
        walk::hits_of(hits).contains(hit) == purge_laws::was_found(
            PurgeState::start(purge::targets_of(projects), roots),
            replies,
            j,
            hit,
        ),
{
    let recorded = purge::targets_of(projects);
    let start = PurgeState::start(recorded, roots);
    let listed = walk::hits_of(hits);
    let one = ls_laws::recorded_places(disk, rank::ranked(projects));
    let less = loss_laws::without(later, lost);
    let kept = roots.filter(loss_laws::alive(lost));
    ls_laws::the_list_holds_what_the_scan_finds(disk, states, ls_replies, i, hits);
    purge_laws::a_purge_finds_what_the_scan_reports(later, recorded, roots, replies, j);
    let (seen, found) = choose|seen: Seq<Seq<u8>>, found: Seq<Hit>|
        #[trigger] purge_laws::is_outcome(later, roots, start, replies, j, seen, found);
    assert forall|r: int, dir: Seq<u8>, target: Seq<u8>|
        0 <= r < roots.len() && #[trigger] later.meets(roots[r], dir, target) implies path::listed(
        seen,
        later.place(target),
    ) == path::listed(ls_laws::recorded_places(disk, projects), later.place(target)) by {
        lemma_listed_noted(disk, recorded, roots, replies, j, seen, later.place(target));
    }
    assert(loss_laws::hides_nothing(disk, roots, one, lost)) by {
        assert forall|r: int, dir: Seq<u8>, target: Seq<u8>|
            0 <= r < roots.len() && #[trigger] disk.meets(roots[r], dir, target) && lost(target)
                && (disk.has_manifest(dir) || (disk.markers)(target)) implies path::listed(
            one,
            disk.place(target),
        ) by {
            lemma_listed_ranked(disk, projects, disk.place(target));
        }
    }
    assert(loss_laws::hides_nothing(later, roots, seen, lost));
    loss_laws::losing_what_is_left_out_changes_nothing(disk, lost, roots, one, listed);
    loss_laws::losing_what_is_left_out_changes_nothing(later, lost, roots, seen, found);
    assert forall|r: int, dir: Seq<u8>, target: Seq<u8>|
        0 <= r < kept.len() && #[trigger] less.meets(kept[r], dir, target) implies path::listed(
        one,
        less.place(target),
    ) == path::listed(seen, less.place(target)) by {
        let alive = loss_laws::alive(lost);
        assert(kept.contains(kept[r]));
        roots.lemma_filter_contains_rev(alive, kept[r]);
        roots.lemma_filter_pred(alive, r);
        let q = roots.index_of(kept[r]);
        loss_laws::what_is_left_was_there(later, lost, kept[r], dir, target);
        assert(later.meets(roots[q], dir, target));
        assert(less.place(target) == later.place(target));
        lemma_listed_ranked(disk, projects, less.place(target));
    }
    walk_laws::scans_of_one_disk_agree(less, kept, one, seen, listed, found);
}

/// What the list shows as found is told apart by its mark: a target that is
/// not marked is one that a purge deletes outright, a marked one is one that it
/// asks about, and never the other way round. What a purge deletes outright or
/// asks about after its scan is on the list.
pub proof fn the_mark_tells_what_is_asked_about(
    disk: Disk,
    later: Disk,
    lost: spec_fn(Seq<u8>) -> bool,
    projects: Seq<Project>,
    roots: Seq<Seq<u8>>,
    states: Seq<LsState>,
    ls_replies: Seq<LsOutcome>,
    i: int,
    hits: Seq<ScanHit>,
    replies: Seq<Outcome>,
    j: int,
    target: Seq<u8>,
)
    requires
        ls_laws::is_run(states, ls_replies),
        ls_laws::is_on_disk(disk, states, ls_replies),
        states[0].task is LoadPolicy,
        0 <= i <= ls_replies.len(),
        states[i].task == LsTask::MeasureHits(hits),
        states[i].projects == rank::ranked(projects),
        states[i].roots == roots,
        0 <= j <= replies.len(),
        purge_laws::scans(
            later,
            PurgeState::start(purge::targets_of(projects), roots),
            replies,
            j,
        ),
        records_are_from_disk(
            disk,
            PurgeState::start(purge::targets_of(projects), roots),
            replies,
            j,
        ),
        consent_laws::records_have_places(
            later,
            roots,
            PurgeState::start(purge::targets_of(projects), roots),
            replies,
            j,
        ),
        present_records_were_noted(disk, later, purge::targets_of(projects), roots, replies, j),
        purge_laws::progress(
            purge_laws::at(
                PurgeState::start(purge::targets_of(projects), roots),
                replies,
                j,
            ).task,
        ) > 2,
        loss_laws::is_closed(disk, lost),
        loss_laws::is_closed(later, lost),
        loss_laws::without(disk, lost) == loss_laws::without(later, lost),
        loss_laws::hides_nothing(
            disk,
            roots,
            ls_laws::recorded_places(disk, projects),
            lost,
        ),
        loss_laws::hides_nothing(
            later,
            roots,
            ls_laws::recorded_places(disk, projects),
            lost,
        ),
    ensures
        ({
            let start = PurgeState::start(purge::targets_of(projects), roots);
            let sure = Hit { target, verified: true };
            let unsure = Hit { target, verified: false };
            let asked = purge_laws::at(start, replies, j).unsure;
            let outright = Task::Delete(target, Phase::Scanned);
            &&& walk::hits_of(hits).contains(sure) == purge_laws::came_to(
                start,
                replies,
                j,
                outright,
            )
            &&& walk::hits_of(hits).contains(unsure) == (purge_laws::is_gated(asked, target)
                && !purge_laws::was_inspected(start, replies, j, target, false))
            &&& walk::hits_of(hits).contains(sure) ==> !purge_laws::is_gated(asked, target)
            &&& walk::hits_of(hits).contains(unsure) ==> purge_laws::is_gated(asked, target)
                && !purge_laws::came_to(start, replies, j, outright)
        }),
{
    let recorded = purge::targets_of(projects);
    let start = PurgeState::start(recorded, roots);
    let sure = Hit { target, verified: true };
    let unsure = Hit { target, verified: false };
    let asked = purge_laws::at(start, replies, j).unsure;
    let outright = Task::Delete(target, Phase::Scanned);
    deleting_records_first_changes_no_finding(
        disk,
        later,
        lost,
        projects,
        roots,
        states,
        ls_replies,
        i,
        hits,
        replies,
        j,
        sure,
    );
    deleting_records_first_changes_no_finding(
        disk,
        later,
        lost,
        projects,
        roots,
        states,
        ls_replies,
        i,
        hits,
        replies,
        j,
        unsure,
    );
    consent_laws::a_target_is_found_one_way(later, recorded, roots, replies, j, target);
    if purge_laws::was_found(start, replies, j, sure) {
        purge_laws::every_finding_is_dealt_with(recorded, roots, replies, j, sure);
        consent_laws::a_finding_is_no_record(
            later,
            recorded,
            roots,
            replies,
            j,
            sure,
            false,
        );
    }
    if purge_laws::was_found(start, replies, j, unsure) {
        purge_laws::every_finding_is_dealt_with(recorded, roots, replies, j, unsure);
        consent_laws::a_finding_is_no_record(
            later,
            recorded,
            roots,
            replies,
            j,
            unsure,
            false,
        );
    }
    if purge_laws::came_to(start, replies, j, outright) {
        let m = choose|m: int|
            0 <= m <= j && (#[trigger] purge_laws::at(start, replies, m)).task == outright;
        purge_laws::nothing_is_deleted_without_leave(
            recorded,
            roots,
            replies,
            m,
            target,
            Phase::Scanned,
        );
        assert(purge_laws::was_found(start, replies, j, sure));
    }
    if purge_laws::is_gated(asked, target) {
        let g = choose|g: int| 0 <= g < asked.len() && (#[trigger] asked[g]).target == target;
        purge_laws::what_is_unsure_is_in_doubt(recorded, roots, replies, j, g);
    }
}

/// A row that the list shows as missing is one that a purge prunes. The list
/// measures a target where it is a directory; the purge reads the same record
/// again and finds the same.
pub proof fn a_row_shown_as_missing_is_pruned(
    sizes: Seq<Option<Size>>,
    projects: Seq<Project>,
    k: int,
    s: PurgeState,
    rows: Seq<Row>,
    m: int,
)
    requires
        sizes.len() == projects.len(),
        0 <= k < projects.len(),
        sizes[k] is None,
        s.task is Recheck,
        0 <= m < rows.len(),
        rows[m].target_dir == projects[k].target_dir@,
        rows[m].is_dir == sizes[k] is Some,
    ensures
        s.next(Outcome::Rows(rows)).task matches Task::Prune(gone) && gone.contains(
            projects[k].target_dir@,
        ),
{
    purge_laws::a_missing_record_is_pruned(rows, m);
}

} // verus!
