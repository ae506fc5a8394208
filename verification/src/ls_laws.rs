//! What holds of every list, whatever the system replies.

use vstd::prelude::*;
use vstd::utf8::*;

use crate::ls;
use crate::ls::{LsOutcome, LsState, LsTask};
use crate::ls_text;
use crate::ls_text::Size;
use crate::path;
use crate::purge;
use crate::scan::Scan;
use crate::store::Project;
use crate::style::Style;
use crate::walk;
use crate::walk::{ScanHit, WalkState};
use crate::walk_laws;
use crate::walk_laws::Disk;

verus! {

/// One step of a run.
pub open spec fn is_step(states: Seq<LsState>, replies: Seq<LsOutcome>, i: int) -> bool {
    states[i].goes_to(replies[i], states[i + 1])
}

/// A run of the command: its states, and the replies between them.
pub open spec fn is_run(states: Seq<LsState>, replies: Seq<LsOutcome>) -> bool {
    states.len() == replies.len() + 1 && forall|i: int|
        0 <= i < replies.len() ==> #[trigger] is_step(states, replies, i)
}

/// A task that belongs to the scan.
pub open spec fn is_about_scan(task: LsTask) -> bool {
    task is Canonicalize || task is Resolve || task is Walking || task is MeasureHits
        || task is ShowHits || task is FormatUntracked
}

/// Without the option nothing is scanned.
pub proof fn without_the_option_nothing_is_scanned(
    style: Style,
    error_style: Style,
    states: Seq<LsState>,
    replies: Seq<LsOutcome>,
    i: int,
)
    requires
        is_run(states, replies),
        states[0] == LsState::admitted(style, error_style, Scan::Off),
        0 <= i <= replies.len(),
    ensures
        states[i].scan is Off,
        !is_about_scan(states[i].task),
    decreases i,
{
    if i > 0 {
        without_the_option_nothing_is_scanned(style, error_style, states, replies, i - 1);
        assert(is_step(states, replies, i - 1));
    }
}

/// Ahead of `i` the directory that the user named was found to be one.
pub open spec fn root_checked(
    states: Seq<LsState>,
    replies: Seq<LsOutcome>,
    i: int,
    root: Seq<u8>,
) -> bool {
    exists|j: int|
        0 <= j < i && (#[trigger] states[j]).task == LsTask::CheckDir(root) && replies[j]
            == LsOutcome::DirChecked(true)
}

/// Nothing is shown under a directory that the user named before it was found
/// to be one.
pub proof fn a_named_root_is_checked_first(
    style: Style,
    error_style: Style,
    root: Vec<u8>,
    states: Seq<LsState>,
    replies: Seq<LsOutcome>,
    i: int,
)
    requires
        is_run(states, replies),
        states[0] == LsState::admitted(style, error_style, Scan::Explicit(root)),
        0 <= i <= replies.len(),
    ensures
        states[i].scan == Scan::Explicit(root),
        states[i].task is Reject || states[i].task is LoadPolicy || states[i].task
            == LsTask::CheckDir(root@) || root_checked(states, replies, i, root@),
    decreases i,
{
    if i > 0 {
        a_named_root_is_checked_first(style, error_style, root, states, replies, i - 1);
        assert(is_step(states, replies, i - 1));
        if root_checked(states, replies, i - 1, root@) {
            assert(root_checked(states, replies, i, root@));
        }
        if states[i - 1].task == LsTask::CheckDir(root@) && replies[i - 1]
            == LsOutcome::DirChecked(true) {
            assert(root_checked(states, replies, i, root@));
        }
    }
}

/// Ahead of `i` the recorded targets were measured.
pub open spec fn was_measured(
    states: Seq<LsState>,
    replies: Seq<LsOutcome>,
    i: int,
    sizes: Seq<Option<Size>>,
) -> bool {
    exists|j: int|
        0 <= j < i && (#[trigger] states[j]).task is MeasureRows && replies[j]
            == LsOutcome::RowSizes(sizes) && sizes.len() == states[j].projects.len()
}

/// A task from before the recorded targets are measured.
pub open spec fn is_early(task: LsTask) -> bool {
    task is Reject || task is LoadPolicy || task is CheckDir || task is Warn || task is ReadRows
        || task is MeasureRows
}

/// The sum that is held against the budget is that of the recorded targets.
/// What a scan finds does not count.
pub proof fn only_recorded_targets_count_against_the_budget(
    style: Style,
    error_style: Style,
    scan: Scan,
    states: Seq<LsState>,
    replies: Seq<LsOutcome>,
    i: int,
)
    requires
        is_run(states, replies),
        states[0] == LsState::admitted(style, error_style, scan),
        0 <= i <= replies.len(),
        !is_early(states[i].task),
    ensures
        exists|sizes: Seq<Option<Size>>|
            #[trigger] was_measured(states, replies, i, sizes) && states[i].recorded_bytes
                == ls_text::recorded_bytes(sizes, sizes.len() as int) as u64 && states[i].missing
                == ls_text::missing_targets(sizes, sizes.len() as int) as usize,
    decreases i,
{
    let s = states[i - 1];
    assert(i > 0);
    assert(is_step(states, replies, i - 1));
    if is_early(s.task) {
        let sizes = replies[i - 1]->RowSizes_0;
        assert(s.task is MeasureRows);
        assert(was_measured(states, replies, i, sizes));
    } else {
        only_recorded_targets_count_against_the_budget(
            style,
            error_style,
            scan,
            states,
            replies,
            i - 1,
        );
        let sizes = choose|sizes: Seq<Option<Size>>|
            #[trigger] was_measured(states, replies, i - 1, sizes) && s.recorded_bytes
                == ls_text::recorded_bytes(sizes, sizes.len() as int) as u64 && s.missing
                == ls_text::missing_targets(sizes, sizes.len() as int) as usize;
        assert(was_measured(states, replies, i, sizes));
    }
}

/// The canonical paths of the first `n` directories, as far as they can be
/// found.
pub open spec fn places_of(disk: Disk, dirs: Seq<Seq<u8>>, n: int) -> Seq<Seq<u8>>
    decreases n,
{
    if n <= 0 {
        Seq::empty()
    } else {
        match (disk.canonical)(dirs[n - 1]) {
            Some(place) => places_of(disk, dirs, n - 1).push(place),
            None => places_of(disk, dirs, n - 1),
        }
    }
}

/// The canonical paths of the targets of projects.
pub open spec fn recorded_places(disk: Disk, projects: Seq<Project>) -> Seq<Seq<u8>> {
    places_of(disk, purge::targets_of(projects), projects.len() as int)
}

/// The disk gave a reply, where the disk was asked.
pub open spec fn is_from_disk(disk: Disk, s: LsState, reply: LsOutcome) -> bool {
    match s.task {
        LsTask::Walking(w) => reply == LsOutcome::Walked(disk.answer(w.question())),
        LsTask::Canonicalize => reply matches LsOutcome::Canonical(places) && places.len()
            == s.projects.len() && forall|k: int|
            0 <= k < places.len() ==> walk::bytes_of(#[trigger] places[k]) == (disk.canonical)(
                purge::targets_of(s.projects)[k],
            ),
        _ => true,
    }
}

/// All replies are those of one disk.
pub open spec fn is_on_disk(disk: Disk, states: Seq<LsState>, replies: Seq<LsOutcome>) -> bool {
    forall|j: int|
        0 <= j < replies.len() ==> #[trigger] is_from_disk(disk, states[j], replies[j])
}

spec fn on_course(disk: Disk, s: LsState) -> bool {
    let seen = recorded_places(disk, s.projects);
    match s.task {
        LsTask::Resolve(places) => places == seen,
        LsTask::Walking(w) => exists|n: nat|
            w == #[trigger] disk.after(WalkState::start(s.roots, seen), n),
        LsTask::MeasureHits(hits) => walk_laws::finds(disk, s.roots, seen, walk::hits_of(hits)),
        _ => true,
    }
}

proof fn lemma_places(disk: Disk, projects: Seq<Project>, places: Seq<Option<Vec<u8>>>, n: int)
    requires
        0 <= n <= places.len() == projects.len(),
        forall|k: int|
            0 <= k < places.len() ==> walk::bytes_of(#[trigger] places[k]) == (disk.canonical)(
                purge::targets_of(projects)[k],
            ),
    ensures
        ls::found_places(places, n) == places_of(disk, purge::targets_of(projects), n),
    decreases n,
{
    if n > 0 {
        lemma_places(disk, projects, places, n - 1);
        assert(walk::bytes_of(places[n - 1]) == (disk.canonical)(
            purge::targets_of(projects)[n - 1],
        ));
    }
}

proof fn lemma_walking(disk: Disk, s: LsState, w: WalkState, n: nat, t: LsState)
    requires
        s.is_walking(w, t),
        w == disk.after(WalkState::start(s.roots, recorded_places(disk, s.projects)), n),
    ensures
        on_course(disk, t),
{
}

proof fn lemma_on_course_step(disk: Disk, s: LsState, reply: LsOutcome, t: LsState)
    requires
        on_course(disk, s),
        is_from_disk(disk, s, reply),
        s.goes_to(reply, t),
    ensures
        on_course(disk, t),
{
    let seen = recorded_places(disk, s.projects);
    match (s.task, reply) {
        (LsTask::Canonicalize, LsOutcome::Canonical(places)) => {
            lemma_places(disk, s.projects, places, places.len() as int);
            if !(s.scan is Defaults) {
                let roots = s.scan.covered(Seq::empty());
                lemma_walking(
                    disk,
                    LsState { roots, ..s },
                    WalkState::start(roots, seen),
                    0,
                    t,
                );
            }
        },
        (LsTask::Resolve(_), LsOutcome::Resolved(usual)) => {
            let roots = s.scan.covered(usual);
            lemma_walking(disk, LsState { roots, ..s }, WalkState::start(roots, seen), 0, t);
        },
        (LsTask::Walking(w), LsOutcome::Walked(answer)) => {
            let n = choose|n: nat| w == #[trigger] disk.after(WalkState::start(s.roots, seen), n);
            assert(w.next(answer) == disk.after(WalkState::start(s.roots, seen), n + 1));
            lemma_walking(disk, s, w.next(answer), n + 1, t);
        },
        _ => {},
    }
}

proof fn lemma_on_course(
    disk: Disk,
    states: Seq<LsState>,
    replies: Seq<LsOutcome>,
    i: int,
)
    requires
        is_run(states, replies),
        is_on_disk(disk, states, replies),
        states[0].task is LoadPolicy,
        0 <= i <= replies.len(),
    ensures
        on_course(disk, states[i]),
    decreases i,
{
    if i > 0 {
        lemma_on_course(disk, states, replies, i - 1);
        assert(is_step(states, replies, i - 1));
        assert(is_from_disk(disk, states[i - 1], replies[i - 1]));
        lemma_on_course_step(disk, states[i - 1], replies[i - 1], states[i]);
    }
}

/// What is listed as found is what a scan of the roots finds on the disk,
/// leaving out the recorded targets.
pub proof fn the_list_holds_what_the_scan_finds(
    disk: Disk,
    states: Seq<LsState>,
    replies: Seq<LsOutcome>,
    i: int,
    hits: Seq<ScanHit>,
)
    requires
        is_run(states, replies),
        is_on_disk(disk, states, replies),
        states[0].task is LoadPolicy,
        0 <= i <= replies.len(),
        states[i].task == LsTask::MeasureHits(hits),
    ensures
        walk_laws::finds(
            disk,
            states[i].roots,
            recorded_places(disk, states[i].projects),
            walk::hits_of(hits),
        ),
{
    lemma_on_course(disk, states, replies, i);
}

proof fn lemma_place_is_kept(disk: Disk, dirs: Seq<Seq<u8>>, n: int, k: int)
    requires
        0 <= k < n <= dirs.len(),
        (disk.canonical)(dirs[k]) is Some,
    ensures
        places_of(disk, dirs, n).contains((disk.canonical)(dirs[k])->Some_0),
    decreases n,
{
    let place = (disk.canonical)(dirs[k])->Some_0;
    let all = places_of(disk, dirs, n);
    let before = places_of(disk, dirs, n - 1);
    if k == n - 1 {
        assert(all[before.len() as int] == place);
    } else {
        lemma_place_is_kept(disk, dirs, n - 1, k);
        assert(all[before.index_of(place)] == place);
    }
}

/// A target that is recorded is not listed again as found.
pub proof fn a_recorded_target_is_listed_once(
    disk: Disk,
    states: Seq<LsState>,
    replies: Seq<LsOutcome>,
    i: int,
    hits: Seq<ScanHit>,
    h: int,
    k: int,
)
    requires
        is_run(states, replies),
        is_on_disk(disk, states, replies),
        states[0].task is LoadPolicy,
        0 <= i <= replies.len(),
        states[i].task == LsTask::MeasureHits(hits),
        0 <= h < hits.len(),
        0 <= k < states[i].projects.len(),
        (disk.canonical)(encode_utf8(states[i].projects[k].target_dir@)) is Some,
    ensures
        !path::same_path(
            (disk.canonical)(encode_utf8(states[i].projects[k].target_dir@))->Some_0,
            disk.place(hits[h].target@),
        ),
{
    let s = states[i];
    let dirs = purge::targets_of(s.projects);
    let seen = recorded_places(disk, s.projects);
    the_list_holds_what_the_scan_finds(disk, states, replies, i, hits);
    let n = choose|n: nat|
        (#[trigger] disk.after(WalkState::start(s.roots, seen), n)).question() is Finished
            && disk.after(WalkState::start(s.roots, seen), n).hits == walk::hits_of(hits);
    assert(walk::hits_of(hits)[h].target == hits[h].target@);
    walk_laws::every_hit_is_vouched_for(disk, s.roots, seen, n, h);
    lemma_place_is_kept(disk, dirs, dirs.len() as int, k);
    let place = (disk.canonical)(dirs[k])->Some_0;
    let q = seen.index_of(place);
    assert(!path::same_path(seen[q], disk.place(hits[h].target@)));
}

} // verus!
