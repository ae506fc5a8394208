//! What holds of every walk: it stays where it may go, reports what is
//! vouched for, reports it once, and misses nothing.

use vstd::prelude::*;
use vstd::utf8::*;

use crate::path;
use crate::walk;
use crate::walk::{Answer, Dir, Hit, Question, Verdict, WalkState};

verus! {

/// A disk as a walk can know it.
pub struct Disk {
    /// The filesystem of a directory, where it can be examined.
    pub dev: spec_fn(Seq<u8>) -> Option<u64>,
    /// What a directory holds, where it can be read.
    pub list: spec_fn(Seq<u8>) -> Option<Dir>,
    /// Whether cargo's markers are inside a directory.
    pub markers: spec_fn(Seq<u8>) -> bool,
    /// The canonical path of a directory, where it can be found.
    pub canonical: spec_fn(Seq<u8>) -> Option<Seq<u8>>,
}

impl Disk {
    /// The answer of the disk to a question.
    pub open spec fn answer(self, question: Question) -> Answer {
        match question {
            Question::Stat(p) => Answer::Device((self.dev)(p)),
            Question::Read(p) => Answer::Listed((self.list)(p)),
            Question::Probe(p) => Answer::Probed {
                markers: (self.markers)(p),
                canonical: (self.canonical)(p),
            },
            Question::Finished => Answer::Device(None),
        }
    }

    /// The walk after the disk answered `n` questions.
    pub open spec fn after(self, start: WalkState, n: nat) -> WalkState
        decreases n,
    {
        if n == 0 {
            start
        } else {
            let before = self.after(start, (n - 1) as nat);
            before.next(self.answer(before.question()))
        }
    }

    /// `child` is an entry of `dir` that a walk on a filesystem treats in a
    /// given way.
    pub open spec fn offers(
        self,
        root_dev: Option<u64>,
        dir: Seq<u8>,
        child: Seq<u8>,
        wanted: Verdict,
    ) -> bool {
        (self.list)(dir) matches Some(found) && exists|i: int|
            0 <= i < found.entries.len() && walk::verdict(root_dev, #[trigger] found.entries[i])
                == wanted && child == path::join(dir, found.entries[i].name)
    }

    /// `child` is an entry of `dir` that a walk from `root` treats in a given
    /// way.
    pub open spec fn holds(
        self,
        root: Seq<u8>,
        dir: Seq<u8>,
        child: Seq<u8>,
        wanted: Verdict,
    ) -> bool {
        self.offers((self.dev)(root), dir, child, wanted)
    }

    /// `dir` is `depth` steps below `root`, and each step may be taken.
    pub open spec fn reaches(self, root: Seq<u8>, dir: Seq<u8>, depth: nat) -> bool
        decreases depth,
    {
        if depth == 0 {
            dir == root
        } else {
            exists|parent: Seq<u8>|
                #[trigger] self.holds(root, parent, dir, Verdict::Descend) && self.reaches(
                    root,
                    parent,
                    (depth - 1) as nat,
                )
        }
    }

    /// A walk from `root` may go to `dir`.
    pub open spec fn covers(self, root: Seq<u8>, dir: Seq<u8>) -> bool {
        exists|depth: nat| #[trigger] self.reaches(root, dir, depth)
    }

    /// `target` is a `target/` directory that a walk from `root` comes across
    /// in `dir`.
    pub open spec fn meets(self, root: Seq<u8>, dir: Seq<u8>, target: Seq<u8>) -> bool {
        self.covers(root, dir) && self.holds(root, dir, target, Verdict::Candidate)
    }

    /// A manifest stands in `dir`.
    pub open spec fn has_manifest(self, dir: Seq<u8>) -> bool {
        (self.list)(dir) matches Some(found) && found.has_manifest
    }

    /// By which path a target is told from others.
    pub open spec fn place(self, target: Seq<u8>) -> Seq<u8> {
        (self.canonical)(target).unwrap_or(target)
    }

    /// A hit that a walk from `roots` may report.
    pub open spec fn justifies(
        self,
        roots: Seq<Seq<u8>>,
        seen: Seq<Seq<u8>>,
        hit: Hit,
    ) -> bool {
        !path::listed(seen, self.place(hit.target)) && exists|r: int, dir: Seq<u8>|
            0 <= r < roots.len() && #[trigger] self.meets(roots[r], dir, hit.target) && (
            self.has_manifest(dir) || (self.markers)(hit.target)) && hit.verified == (
            self.has_manifest(dir) && (self.markers)(hit.target))
    }
}

/// The root that a walk is in.
spec fn current(roots: Seq<Seq<u8>>, s: WalkState) -> Seq<u8> {
    roots[roots.len() - s.ahead.len() - 1]
}

/// The targets to probe were found in `dir`.
spec fn come_from(disk: Disk, root: Seq<u8>, dir: Seq<u8>, s: WalkState) -> bool {
    &&& disk.covers(root, dir)
    &&& s.has_manifest == disk.has_manifest(dir)
    &&& forall|i: int|
        0 <= i < s.candidates.len() ==> disk.holds(
            root,
            dir,
            #[trigger] s.candidates[i],
            Verdict::Candidate,
        )
}

/// The parts of a walk that only ever hold what the disk justifies.
spec fn sound(disk: Disk, roots: Seq<Seq<u8>>, seen: Seq<Seq<u8>>, s: WalkState) -> bool {
    let busy = s.stack.len() > 0 || s.candidates.len() > 0;
    &&& s.ahead.len() <= roots.len()
    &&& s.ahead == roots.skip(roots.len() - s.ahead.len())
    &&& busy ==> s.ahead.len() < roots.len()
    &&& s.ahead.len() < roots.len() ==> s.root_dev == (disk.dev)(current(roots, s))
    &&& forall|i: int|
        0 <= i < s.stack.len() ==> disk.covers(current(roots, s), #[trigger] s.stack[i])
    &&& s.candidates.len() > 0 ==> exists|dir: Seq<u8>|
        #[trigger] come_from(disk, current(roots, s), dir, s)
    &&& forall|k: int| 0 <= k < s.hits.len() ==> disk.justifies(roots, seen, #[trigger] s.hits[k])
}

/// What must not be reported again is what was seen, then what was reported.
spec fn distinct(disk: Disk, seen: Seq<Seq<u8>>, s: WalkState) -> bool {
    &&& s.emitted.len() == seen.len() + s.hits.len()
    &&& forall|i: int| 0 <= i < seen.len() ==> #[trigger] s.emitted[i] == seen[i]
    &&& forall|k: int|
        0 <= k < s.hits.len() ==> s.emitted[seen.len() + k] == disk.place(
            (#[trigger] s.hits[k]).target,
        )
    &&& forall|a: int, b: int|
        0 <= a < b < s.hits.len() ==> !path::same_path(
            disk.place((#[trigger] s.hits[a]).target),
            disk.place((#[trigger] s.hits[b]).target),
        )
}

/// `p` is the path of one of the first `n` entries that get a given verdict.
spec fn is_picked(
    dir: Seq<u8>,
    root_dev: Option<u64>,
    entries: Seq<walk::Entry>,
    n: int,
    wanted: Verdict,
    p: Seq<u8>,
) -> bool {
    exists|i: int|
        0 <= i < n && walk::verdict(root_dev, #[trigger] entries[i]) == wanted && p == path::join(
            dir,
            entries[i].name,
        )
}

proof fn lemma_picked(
    dir: Seq<u8>,
    root_dev: Option<u64>,
    entries: Seq<walk::Entry>,
    n: int,
    wanted: Verdict,
    p: Seq<u8>,
)
    requires
        0 <= n <= entries.len(),
    ensures
        walk::picked(dir, root_dev, entries, n, wanted).contains(p) == is_picked(
            dir,
            root_dev,
            entries,
            n,
            wanted,
            p,
        ),
    decreases n,
{
    if n > 0 {
        lemma_picked(dir, root_dev, entries, n - 1, wanted, p);
        let before = walk::picked(dir, root_dev, entries, n - 1, wanted);
        let all = walk::picked(dir, root_dev, entries, n, wanted);
        if before.contains(p) {
            assert(all[before.index_of(p)] == p);
        }
        if walk::verdict(root_dev, entries[n - 1]) == wanted && p == path::join(
            dir,
            entries[n - 1].name,
        ) {
            assert(all[before.len() as int] == p);
        }
        if all.contains(p) {
            let k = all.index_of(p);
            if k < before.len() {
                assert(before[k] == p);
            }
        }
    }
}

proof fn lemma_step_down(disk: Disk, root: Seq<u8>, dir: Seq<u8>, child: Seq<u8>)
    requires
        disk.covers(root, dir),
        disk.holds(root, dir, child, Verdict::Descend),
    ensures
        disk.covers(root, child),
{
    let depth = choose|depth: nat| #[trigger] disk.reaches(root, dir, depth);
    assert(disk.reaches(root, child, depth + 1));
}

proof fn lemma_sound_step(disk: Disk, roots: Seq<Seq<u8>>, seen: Seq<Seq<u8>>, s: WalkState)
    requires
        sound(disk, roots, seen, s),
        distinct(disk, seen, s),
    ensures
        sound(disk, roots, seen, s.next(disk.answer(s.question()))),
        distinct(disk, seen, s.next(disk.answer(s.question()))),
{
    let t = s.next(disk.answer(s.question()));
    match s.question() {
        Question::Probe(target) => {
            assert(forall|i: int|
                0 <= i < t.candidates.len() ==> #[trigger] t.candidates[i] == s.candidates[i + 1]);
            let dir = choose|dir: Seq<u8>| #[trigger] come_from(disk, current(roots, s), dir, s);
            assert(disk.holds(current(roots, s), dir, s.candidates[0], Verdict::Candidate));
            if t.hits.len() > s.hits.len() {
                let hit = t.hits.last();
                assert(disk.meets(
                    roots[roots.len() - s.ahead.len() - 1],
                    dir,
                    hit.target,
                ));
                assert(!path::listed(seen, disk.place(hit.target))) by {
                    if path::listed(seen, disk.place(hit.target)) {
                        let i = choose|i: int|
                            0 <= i < seen.len() && path::same_path(
                                #[trigger] seen[i],
                                disk.place(hit.target),
                            );
                        assert(s.emitted[i] == seen[i]);
                    }
                }
                assert(disk.justifies(roots, seen, hit));
                assert forall|a: int| 0 <= a < s.hits.len() implies !path::same_path(
                    disk.place((#[trigger] t.hits[a]).target),
                    disk.place(hit.target),
                ) by {
                    assert(t.hits[a] == s.hits[a]);
                    assert(s.emitted[seen.len() + a] == disk.place(s.hits[a].target));
                }
            }
            assert(forall|k: int| 0 <= k < s.hits.len() ==> t.hits[k] == #[trigger] s.hits[k]);
            assert(forall|k: int|
                0 <= k < s.emitted.len() ==> t.emitted[k] == #[trigger] s.emitted[k]);
            if t.candidates.len() > 0 {
                assert(come_from(disk, current(roots, t), dir, t));
            }
        },
        Question::Read(dir) => {
            assert(forall|i: int|
                0 <= i < s.stack.len() - 1 ==> s.stack.drop_last()[i] == s.stack[i]);
            assert(dir == s.stack[s.stack.len() - 1]);
            if let Some(found) = (disk.list)(dir) {
                let n = found.entries.len() as int;
                let down = walk::picked(dir, s.root_dev, found.entries, n, Verdict::Descend);
                assert forall|i: int| 0 <= i < t.stack.len() implies disk.covers(
                    current(roots, t),
                    #[trigger] t.stack[i],
                ) by {
                    if i < s.stack.len() - 1 {
                        assert(t.stack[i] == s.stack[i]);
                    } else {
                        assert(t.stack[i] == down[i - (s.stack.len() - 1)]);
                        assert(down.contains(t.stack[i]));
                        lemma_picked(
                            dir,
                            s.root_dev,
                            found.entries,
                            n,
                            Verdict::Descend,
                            t.stack[i],
                        );
                        assert(disk.holds(current(roots, s), dir, t.stack[i], Verdict::Descend));
                        lemma_step_down(disk, current(roots, s), dir, t.stack[i]);
                    }
                }
                assert forall|i: int| 0 <= i < t.candidates.len() implies disk.holds(
                    current(roots, t),
                    dir,
                    #[trigger] t.candidates[i],
                    Verdict::Candidate,
                ) by {
                    assert(t.candidates.contains(t.candidates[i]));
                    lemma_picked(
                        dir,
                        s.root_dev,
                        found.entries,
                        n,
                        Verdict::Candidate,
                        t.candidates[i],
                    );
                }
                assert(come_from(disk, current(roots, t), dir, t));
            } else {
                assert(forall|i: int| 0 <= i < t.stack.len() ==> #[trigger] t.stack[i] == s.stack[i]);
            }
        },
        Question::Stat(root) => {
            assert(t.ahead =~= roots.skip(roots.len() - t.ahead.len()));
            assert(root == current(roots, t));
            assert(disk.reaches(current(roots, t), root, 0));
            assert(t.stack[0] == root);
        },
        Question::Finished => {},
    }
}

proof fn lemma_sound(
    disk: Disk,
    roots: Seq<Seq<u8>>,
    seen: Seq<Seq<u8>>,
    n: nat,
)
    ensures
        sound(disk, roots, seen, disk.after(WalkState::start(roots, seen), n)),
        distinct(disk, seen, disk.after(WalkState::start(roots, seen), n)),
    decreases n,
{
    let start = WalkState::start(roots, seen);
    if n == 0 {
        assert(start.ahead =~= roots.skip(0));
    } else {
        lemma_sound(disk, roots, seen, (n - 1) as nat);
        lemma_sound_step(disk, roots, seen, disk.after(start, (n - 1) as nat));
    }
}

/// Every hit is a `target/` that the walk may come across, that a sibling
/// manifest or cargo's markers vouch for, and that was not seen before. It is
/// verified exactly where both vouch for it.
pub proof fn every_hit_is_vouched_for(
    disk: Disk,
    roots: Seq<Seq<u8>>,
    seen: Seq<Seq<u8>>,
    n: nat,
    k: int,
)
    requires
        0 <= k < disk.after(WalkState::start(roots, seen), n).hits.len(),
    ensures
        disk.justifies(roots, seen, disk.after(WalkState::start(roots, seen), n).hits[k]),
{
    lemma_sound(disk, roots, seen, n);
}

/// No target is reported twice, under whatever path it was found.
pub proof fn no_target_is_reported_twice(
    disk: Disk,
    roots: Seq<Seq<u8>>,
    seen: Seq<Seq<u8>>,
    n: nat,
    a: int,
    b: int,
)
    requires
        0 <= a < b < disk.after(WalkState::start(roots, seen), n).hits.len(),
    ensures
        !path::same_path(
            disk.place(disk.after(WalkState::start(roots, seen), n).hits[a].target),
            disk.place(disk.after(WalkState::start(roots, seen), n).hits[b].target),
        ),
{
    lemma_sound(disk, roots, seen, n);
}

/// A directory is read only where it is a root, or a step may be taken to it
/// from a directory that is: never through a symlink, a hidden name, a
/// well-known heap, another filesystem or a `target/`.
pub proof fn only_reachable_directories_are_read(
    disk: Disk,
    roots: Seq<Seq<u8>>,
    seen: Seq<Seq<u8>>,
    n: nat,
    dir: Seq<u8>,
)
    requires
        disk.after(WalkState::start(roots, seen), n).question() == Question::Read(dir),
    ensures
        exists|r: int| 0 <= r < roots.len() && #[trigger] disk.covers(roots[r], dir),
{
    lemma_sound(disk, roots, seen, n);
    let s = disk.after(WalkState::start(roots, seen), n);
    assert(s.stack[s.stack.len() - 1] == dir);
    assert(disk.covers(roots[roots.len() - s.ahead.len() - 1], dir));
}

/// A `target/` is probed only where the walk came across it, and what is known
/// of the manifest then is that of its own directory.
pub proof fn only_targets_on_the_way_are_probed(
    disk: Disk,
    roots: Seq<Seq<u8>>,
    seen: Seq<Seq<u8>>,
    n: nat,
    target: Seq<u8>,
)
    requires
        disk.after(WalkState::start(roots, seen), n).question() == Question::Probe(target),
    ensures
        exists|r: int, dir: Seq<u8>|
            0 <= r < roots.len() && #[trigger] disk.meets(roots[r], dir, target)
                && disk.has_manifest(dir) == disk.after(
                WalkState::start(roots, seen),
                n,
            ).has_manifest,
{
    lemma_sound(disk, roots, seen, n);
    let s = disk.after(WalkState::start(roots, seen), n);
    let dir = choose|dir: Seq<u8>| #[trigger] come_from(disk, current(roots, s), dir, s);
    assert(disk.holds(current(roots, s), dir, s.candidates[0], Verdict::Candidate));
    assert(disk.meets(roots[roots.len() - s.ahead.len() - 1], dir, target));
}

/// What was seen before the walk is never forgotten on the way.
pub proof fn seen_targets_stay_seen(
    disk: Disk,
    roots: Seq<Seq<u8>>,
    seen: Seq<Seq<u8>>,
    n: nat,
    place: Seq<u8>,
)
    requires
        path::listed(seen, place),
    ensures
        path::listed(disk.after(WalkState::start(roots, seen), n).emitted, place),
{
    lemma_sound(disk, roots, seen, n);
    let s = disk.after(WalkState::start(roots, seen), n);
    let i = choose|i: int| 0 <= i < seen.len() && path::same_path(#[trigger] seen[i], place);
    assert(s.emitted[i] == seen[i]);
}

/// The names in a directory are names: not empty, and without separators.
pub open spec fn names_are_names(dir: Dir) -> bool {
    forall|i: int|
        0 <= i < dir.entries.len() ==> (#[trigger] dir.entries[i]).name.len() > 0
            && !dir.entries[i].name.contains(path::SEPARATOR)
}

/// A disk whose directories hold names.
pub open spec fn is_named(disk: Disk) -> bool {
    forall|dir: Seq<u8>| (#[trigger] (disk.list)(dir)) matches Some(found) ==> names_are_names(found)
}

proof fn lemma_child_lies_in(
    disk: Disk,
    root: Seq<u8>,
    dir: Seq<u8>,
    child: Seq<u8>,
    wanted: Verdict,
)
    requires
        is_named(disk),
        disk.holds(root, dir, child, wanted),
        wanted != Verdict::Skip,
    ensures
        path::lies_in(child, dir),
{
    let found = (disk.list)(dir)->Some_0;
    let i = choose|i: int|
        0 <= i < found.entries.len() && walk::verdict(
            (disk.dev)(root),
            #[trigger] found.entries[i],
        ) == wanted && child == path::join(dir, found.entries[i].name);
    let name = found.entries[i].name;
    assert(names_are_names(found));
    assert(!path::is_dot(name)) by {
        reveal_strlit(".");
        is_ascii_chars_encode_utf8("."@);
    }
    assert forall|k: int| 0 <= k < name.len() implies #[trigger] name[k] != path::SEPARATOR by {
        assert(name.contains(name[k]));
    }
    path::a_joined_name_is_one_more_component(dir, name);
    let c = path::components(dir);
    assert(path::components(child).subrange(0, c.len() as int) =~= c);
}

proof fn lemma_covered_lies_in(disk: Disk, root: Seq<u8>, dir: Seq<u8>, depth: nat)
    requires
        is_named(disk),
        disk.reaches(root, dir, depth),
    ensures
        path::lies_in(dir, root),
    decreases depth,
{
    if depth == 0 {
        let c = path::components(root);
        assert(c.subrange(0, c.len() as int) =~= c);
    } else {
        let parent = choose|parent: Seq<u8>|
            #[trigger] disk.holds(root, parent, dir, Verdict::Descend) && disk.reaches(
                root,
                parent,
                (depth - 1) as nat,
            );
        lemma_covered_lies_in(disk, root, parent, (depth - 1) as nat);
        lemma_child_lies_in(disk, root, parent, dir, Verdict::Descend);
        path::lemma_lies_in_is_transitive(dir, parent, root);
    }
}

/// A walk reads nothing outside its roots.
pub proof fn reading_stays_below_the_roots(
    disk: Disk,
    roots: Seq<Seq<u8>>,
    seen: Seq<Seq<u8>>,
    n: nat,
    dir: Seq<u8>,
)
    requires
        is_named(disk),
        disk.after(WalkState::start(roots, seen), n).question() == Question::Read(dir),
    ensures
        exists|r: int| 0 <= r < roots.len() && path::lies_in(dir, #[trigger] roots[r]),
{
    only_reachable_directories_are_read(disk, roots, seen, n, dir);
    let r = choose|r: int| 0 <= r < roots.len() && #[trigger] disk.covers(roots[r], dir);
    let depth = choose|depth: nat| #[trigger] disk.reaches(roots[r], dir, depth);
    lemma_covered_lies_in(disk, roots[r], dir, depth);
}

/// A walk reports nothing outside its roots.
pub proof fn hits_lie_below_the_roots(
    disk: Disk,
    roots: Seq<Seq<u8>>,
    seen: Seq<Seq<u8>>,
    n: nat,
    k: int,
)
    requires
        is_named(disk),
        0 <= k < disk.after(WalkState::start(roots, seen), n).hits.len(),
    ensures
        exists|r: int|
            0 <= r < roots.len() && path::lies_in(
                disk.after(WalkState::start(roots, seen), n).hits[k].target,
                #[trigger] roots[r],
            ),
{
    every_hit_is_vouched_for(disk, roots, seen, n, k);
    let hit = disk.after(WalkState::start(roots, seen), n).hits[k];
    let (r, dir) = choose|r: int, dir: Seq<u8>|
        0 <= r < roots.len() && #[trigger] disk.meets(roots[r], dir, hit.target) && (
        disk.has_manifest(dir) || (disk.markers)(hit.target)) && hit.verified == (
        disk.has_manifest(dir) && (disk.markers)(hit.target));
    let depth = choose|depth: nat| #[trigger] disk.reaches(roots[r], dir, depth);
    lemma_covered_lies_in(disk, roots[r], dir, depth);
    lemma_child_lies_in(disk, roots[r], dir, hit.target, Verdict::Candidate);
    path::lemma_lies_in_is_transitive(hit.target, dir, roots[r]);
}

/// Among the first `n` questions, a walk on a filesystem asked for a
/// directory.
spec fn asked(disk: Disk, start: WalkState, n: nat, root_dev: Option<u64>, dir: Seq<u8>) -> bool {
    exists|i: nat|
        i < n && (#[trigger] disk.after(start, i)).question() == Question::Read(dir) && disk.after(
            start,
            i,
        ).root_dev == root_dev
}

/// A root that was started on was read, or is about to be.
spec fn roots_followed(disk: Disk, roots: Seq<Seq<u8>>, start: WalkState, n: nat) -> bool {
    let s = disk.after(start, n);
    forall|r: int|
        0 <= r < roots.len() - s.ahead.len() ==> asked(
            disk,
            start,
            n,
            (disk.dev)(roots[r]),
            #[trigger] roots[r],
        ) || (s.root_dev == (disk.dev)(roots[r]) && s.stack.contains(roots[r]))
}

/// Where a directory was read, the steps down from it were taken, or are about
/// to be.
spec fn steps_followed(disk: Disk, start: WalkState, n: nat) -> bool {
    let s = disk.after(start, n);
    forall|dev: Option<u64>, dir: Seq<u8>, child: Seq<u8>|
        asked(disk, start, n, dev, dir) && #[trigger] disk.offers(
            dev,
            dir,
            child,
            Verdict::Descend,
        ) ==> asked(disk, start, n, dev, child) || (s.root_dev == dev && s.stack.contains(child))
}

/// Where a directory was read, the targets in it were dealt with, or are about
/// to be.
spec fn targets_followed(disk: Disk, start: WalkState, n: nat) -> bool {
    let s = disk.after(start, n);
    forall|dev: Option<u64>, dir: Seq<u8>, target: Seq<u8>|
        asked(disk, start, n, dev, dir) && #[trigger] disk.offers(
            dev,
            dir,
            target,
            Verdict::Candidate,
        ) ==> {
            ||| (disk.has_manifest(dir) || (disk.markers)(target)) ==> path::listed(
                s.emitted,
                disk.place(target),
            )
            ||| s.candidates.contains(target) && s.has_manifest == disk.has_manifest(dir)
        }
}

proof fn lemma_asked_step(
    disk: Disk,
    start: WalkState,
    n: nat,
    root_dev: Option<u64>,
    dir: Seq<u8>,
)
    ensures
        asked(disk, start, n + 1, root_dev, dir) == (asked(disk, start, n, root_dev, dir) || (
        disk.after(start, n).question() == Question::Read(dir) && disk.after(start, n).root_dev
            == root_dev)),
{
    let s = disk.after(start, n);
    if asked(disk, start, n + 1, root_dev, dir) {
        let i = choose|i: nat|
            i < n + 1 && (#[trigger] disk.after(start, i)).question() == Question::Read(dir)
                && disk.after(start, i).root_dev == root_dev;
        assert(i == n || i < n);
    }
}

proof fn lemma_follow_step(disk: Disk, roots: Seq<Seq<u8>>, seen: Seq<Seq<u8>>, n: nat)
    requires
        roots_followed(disk, roots, WalkState::start(roots, seen), n),
        steps_followed(disk, WalkState::start(roots, seen), n),
        targets_followed(disk, WalkState::start(roots, seen), n),
    ensures
        roots_followed(disk, roots, WalkState::start(roots, seen), n + 1),
        steps_followed(disk, WalkState::start(roots, seen), n + 1),
        targets_followed(disk, WalkState::start(roots, seen), n + 1),
{
    let start = WalkState::start(roots, seen);
    let s = disk.after(start, n);
    let t = disk.after(start, n + 1);
    assert(t == s.next(disk.answer(s.question())));
    lemma_sound(disk, roots, seen, n);
    assert forall|dev: Option<u64>, dir: Seq<u8>| #[trigger]
        asked(disk, start, n + 1, dev, dir) == (asked(disk, start, n, dev, dir) || (s.question()
            == Question::Read(dir) && s.root_dev == dev)) by {
        lemma_asked_step(disk, start, n, dev, dir);
    }
    // A directory on the stack is the one that is asked for, or stays there.
    assert forall|p: Seq<u8>| s.question() is Read && s.stack.contains(p) implies s.question()
        == Question::Read(p) || #[trigger] t.stack.contains(p) by {
        let k = s.stack.index_of(p);
        if k < s.stack.len() - 1 {
            assert(t.stack[k] == p);
        }
    }
    assert(roots_followed(disk, roots, start, n + 1)) by {
        assert forall|r: int| 0 <= r < roots.len() - t.ahead.len() implies asked(
            disk,
            start,
            n + 1,
            (disk.dev)(roots[r]),
            #[trigger] roots[r],
        ) || (t.root_dev == (disk.dev)(roots[r]) && t.stack.contains(roots[r])) by {
            if s.question() is Stat && r == roots.len() - t.ahead.len() - 1 {
                assert(s.ahead[0] == roots[r]);
                assert(t.stack[0] == roots[r]);
            }
        }
    }
    assert(steps_followed(disk, start, n + 1)) by {
        assert forall|dev: Option<u64>, dir: Seq<u8>, child: Seq<u8>|
            asked(disk, start, n + 1, dev, dir) && #[trigger] disk.offers(
                dev,
                dir,
                child,
                Verdict::Descend,
            ) implies asked(disk, start, n + 1, dev, child) || (t.root_dev == dev
            && t.stack.contains(child)) by {
            if !asked(disk, start, n, dev, dir) {
                let found = (disk.list)(dir)->0;
                let m = found.entries.len() as int;
                let down = walk::picked(dir, dev, found.entries, m, Verdict::Descend);
                lemma_picked(dir, dev, found.entries, m, Verdict::Descend, child);
                let k = down.index_of(child);
                assert(t.stack[s.stack.len() - 1 + k] == child);
            }
        }
    }
    assert(targets_followed(disk, start, n + 1)) by {
        assert forall|dev: Option<u64>, dir: Seq<u8>, target: Seq<u8>|
            asked(disk, start, n + 1, dev, dir) && #[trigger] disk.offers(
                dev,
                dir,
                target,
                Verdict::Candidate,
            ) implies {
            ||| (disk.has_manifest(dir) || (disk.markers)(target)) ==> path::listed(
                t.emitted,
                disk.place(target),
            )
            ||| t.candidates.contains(target) && t.has_manifest == disk.has_manifest(dir)
        } by {
            if !asked(disk, start, n, dev, dir) {
                let found = (disk.list)(dir)->0;
                let m = found.entries.len() as int;
                lemma_picked(dir, dev, found.entries, m, Verdict::Candidate, target);
            } else if s.question() is Probe {
                let probed = s.candidates[0];
                path::lemma_listed_push(s.emitted, disk.place(probed), disk.place(target));
                if s.candidates.contains(target) && target != probed {
                    let k = s.candidates.index_of(target);
                    assert(t.candidates[k - 1] == target);
                }
            }
        }
    }
}

proof fn lemma_follow(disk: Disk, roots: Seq<Seq<u8>>, seen: Seq<Seq<u8>>, n: nat)
    ensures
        roots_followed(disk, roots, WalkState::start(roots, seen), n),
        steps_followed(disk, WalkState::start(roots, seen), n),
        targets_followed(disk, WalkState::start(roots, seen), n),
    decreases n,
{
    if n > 0 {
        lemma_follow(disk, roots, seen, (n - 1) as nat);
        lemma_follow_step(disk, roots, seen, (n - 1) as nat);
    }
}

proof fn lemma_reached_was_asked(
    disk: Disk,
    roots: Seq<Seq<u8>>,
    seen: Seq<Seq<u8>>,
    n: nat,
    r: int,
    dir: Seq<u8>,
    depth: nat,
)
    requires
        disk.after(WalkState::start(roots, seen), n).question() is Finished,
        0 <= r < roots.len(),
        disk.reaches(roots[r], dir, depth),
    ensures
        asked(disk, WalkState::start(roots, seen), n, (disk.dev)(roots[r]), dir),
    decreases depth,
{
    lemma_follow(disk, roots, seen, n);
    let s = disk.after(WalkState::start(roots, seen), n);
    assert(s.stack.len() == 0 && s.ahead.len() == 0);
    if depth > 0 {
        let parent = choose|parent: Seq<u8>|
            #[trigger] disk.holds(roots[r], parent, dir, Verdict::Descend) && disk.reaches(
                roots[r],
                parent,
                (depth - 1) as nat,
            );
        lemma_reached_was_asked(disk, roots, seen, n, r, parent, (depth - 1) as nat);
        assert(disk.offers((disk.dev)(roots[r]), parent, dir, Verdict::Descend));
    }
}

/// A walk that is over read every directory that it may go to.
pub proof fn every_reachable_directory_is_read(
    disk: Disk,
    roots: Seq<Seq<u8>>,
    seen: Seq<Seq<u8>>,
    n: nat,
    r: int,
    dir: Seq<u8>,
)
    requires
        disk.after(WalkState::start(roots, seen), n).question() is Finished,
        0 <= r < roots.len(),
        disk.covers(roots[r], dir),
    ensures
        exists|i: nat|
            i < n && (#[trigger] disk.after(WalkState::start(roots, seen), i)).question()
                == Question::Read(dir),
{
    let depth = choose|depth: nat| #[trigger] disk.reaches(roots[r], dir, depth);
    lemma_reached_was_asked(disk, roots, seen, n, r, dir, depth);
}

/// A walk that is over missed nothing: every `target/` that it may come
/// across and that a signal vouches for was seen before or is reported, under
/// this path or another path of the same directory.
pub proof fn every_vouched_target_is_found(
    disk: Disk,
    roots: Seq<Seq<u8>>,
    seen: Seq<Seq<u8>>,
    n: nat,
    r: int,
    dir: Seq<u8>,
    target: Seq<u8>,
)
    requires
        disk.after(WalkState::start(roots, seen), n).question() is Finished,
        0 <= r < roots.len(),
        disk.meets(roots[r], dir, target),
        disk.has_manifest(dir) || (disk.markers)(target),
    ensures
        path::listed(seen, disk.place(target)) || exists|k: int|
            0 <= k < disk.after(WalkState::start(roots, seen), n).hits.len() && path::same_path(
                disk.place(
                    (#[trigger] disk.after(WalkState::start(roots, seen), n).hits[k]).target,
                ),
                disk.place(target),
            ),
{
    let s = disk.after(WalkState::start(roots, seen), n);
    let depth = choose|depth: nat| #[trigger] disk.reaches(roots[r], dir, depth);
    lemma_reached_was_asked(disk, roots, seen, n, r, dir, depth);
    lemma_follow(disk, roots, seen, n);
    assert(disk.offers((disk.dev)(roots[r]), dir, target, Verdict::Candidate));
    assert(s.candidates.len() == 0);
    assert(path::listed(s.emitted, disk.place(target)));
    lemma_sound(disk, roots, seen, n);
    let i = choose|i: int|
        0 <= i < s.emitted.len() && path::same_path(#[trigger] s.emitted[i], disk.place(target));
    if i < seen.len() {
        assert(s.emitted[i] == seen[i]);
    } else {
        let k = i - seen.len();
        assert(s.emitted[seen.len() + k] == disk.place(s.hits[k].target));
    }
}

/// The sum of the weights of some directories.
pub open spec fn total(weight: spec_fn(Seq<u8>) -> nat, dirs: Seq<Seq<u8>>) -> nat
    decreases dirs.len(),
{
    if dirs.len() == 0 {
        0
    } else {
        total(weight, dirs.drop_last()) + weight(dirs.last())
    }
}

/// `weight` bounds the work below each directory: more than the steps down and
/// the targets in it together. It exists where the directories of a disk form
/// finite trees.
pub open spec fn bounds_the_work(disk: Disk, weight: spec_fn(Seq<u8>) -> nat) -> bool {
    forall|dir: Seq<u8>, dev: Option<u64>| #[trigger] weighs_enough(disk, weight, dir, dev)
}

pub open spec fn weighs_enough(
    disk: Disk,
    weight: spec_fn(Seq<u8>) -> nat,
    dir: Seq<u8>,
    dev: Option<u64>,
) -> bool {
    &&& weight(dir) > 0
    &&& (disk.list)(dir) matches Some(found) ==> {
        let n = found.entries.len() as int;
        weight(dir) > total(
            weight,
            walk::picked(dir, dev, found.entries, n, Verdict::Descend),
        ) + walk::picked(dir, dev, found.entries, n, Verdict::Candidate).len()
    }
}

/// The questions that a walk has left at most.
spec fn left(weight: spec_fn(Seq<u8>) -> nat, s: WalkState) -> nat {
    s.candidates.len() + total(weight, s.stack) + total(weight, s.ahead) + s.ahead.len()
}

proof fn lemma_total_add(weight: spec_fn(Seq<u8>) -> nat, a: Seq<Seq<u8>>, b: Seq<Seq<u8>>)
    ensures
        total(weight, a + b) == total(weight, a) + total(weight, b),
    decreases b.len(),
{
    if b.len() == 0 {
        assert(a + b =~= a);
    } else {
        assert((a + b).drop_last() =~= a + b.drop_last());
        lemma_total_add(weight, a, b.drop_last());
    }
}

proof fn lemma_one_question_less(disk: Disk, weight: spec_fn(Seq<u8>) -> nat, s: WalkState)
    requires
        bounds_the_work(disk, weight),
        !(s.question() is Finished),
    ensures
        left(weight, s.next(disk.answer(s.question()))) < left(weight, s),
{
    let t = s.next(disk.answer(s.question()));
    match s.question() {
        Question::Probe(_) => {},
        Question::Read(dir) => {
            assert(weighs_enough(disk, weight, dir, s.root_dev));
            if let Some(found) = (disk.list)(dir) {
                lemma_total_add(
                    weight,
                    s.stack.drop_last(),
                    walk::picked(
                        dir,
                        s.root_dev,
                        found.entries,
                        found.entries.len() as int,
                        Verdict::Descend,
                    ),
                );
            }
        },
        Question::Stat(root) => {
            assert(s.ahead =~= seq![root] + t.ahead);
            lemma_total_add(weight, seq![root], t.ahead);
            assert(total(weight, s.stack) == 0);
        },
        Question::Finished => {},
    }
}

proof fn lemma_countdown(
    disk: Disk,
    weight: spec_fn(Seq<u8>) -> nat,
    start: WalkState,
    n: nat,
)
    requires
        bounds_the_work(disk, weight),
    ensures
        disk.after(start, n).question() is Finished || left(weight, disk.after(start, n)) + n
            <= left(weight, start),
    decreases n,
{
    if n > 0 {
        let before = disk.after(start, (n - 1) as nat);
        lemma_countdown(disk, weight, start, (n - 1) as nat);
        if !(before.question() is Finished) {
            lemma_one_question_less(disk, weight, before);
        }
    }
}

/// A walk over finite trees comes to an end, and how much work there is bounds
/// the questions it asks.
pub proof fn every_walk_ends(
    disk: Disk,
    weight: spec_fn(Seq<u8>) -> nat,
    roots: Seq<Seq<u8>>,
    seen: Seq<Seq<u8>>,
    n: nat,
)
    requires
        bounds_the_work(disk, weight),
        n >= total(weight, roots) + roots.len(),
    ensures
        disk.after(WalkState::start(roots, seen), n).question() is Finished,
{
    let start = WalkState::start(roots, seen);
    let s = disk.after(start, n);
    lemma_countdown(disk, weight, start, n);
    if !(s.question() is Finished) {
        lemma_one_question_less(disk, weight, s);
    }
}

/// Two lists agree on which of the targets that a walk comes across were seen.
pub open spec fn agree_on_targets(
    disk: Disk,
    roots: Seq<Seq<u8>>,
    one: Seq<Seq<u8>>,
    other: Seq<Seq<u8>>,
) -> bool {
    forall|r: int, dir: Seq<u8>, target: Seq<u8>|
        0 <= r < roots.len() && #[trigger] disk.meets(roots[r], dir, target) ==> path::listed(
            one,
            disk.place(target),
        ) == path::listed(other, disk.place(target))
}

proof fn lemma_same_walk(
    disk: Disk,
    roots: Seq<Seq<u8>>,
    one: Seq<Seq<u8>>,
    other: Seq<Seq<u8>>,
    n: nat,
)
    requires
        agree_on_targets(disk, roots, one, other),
    ensures
        ({
            let a = disk.after(WalkState::start(roots, one), n);
            let b = disk.after(WalkState::start(roots, other), n);
            &&& a == WalkState { emitted: a.emitted, ..b }
            &&& agree_on_targets(disk, roots, a.emitted, b.emitted)
        }),
    decreases n,
{
    if n > 0 {
        let m = (n - 1) as nat;
        lemma_same_walk(disk, roots, one, other, m);
        lemma_sound(disk, roots, one, m);
        let a = disk.after(WalkState::start(roots, one), m);
        let b = disk.after(WalkState::start(roots, other), m);
        if let Question::Probe(target) = a.question() {
            let dir = choose|dir: Seq<u8>| #[trigger] come_from(disk, current(roots, a), dir, a);
            assert(disk.holds(current(roots, a), dir, a.candidates[0], Verdict::Candidate));
            assert(disk.meets(roots[roots.len() - a.ahead.len() - 1], dir, target));
            let x = disk.place(target);
            assert forall|r: int, d: Seq<u8>, t: Seq<u8>|
                0 <= r < roots.len() && #[trigger] disk.meets(roots[r], d, t) implies path::listed(
                a.emitted.push(x),
                disk.place(t),
            ) == path::listed(b.emitted.push(x), disk.place(t)) by {
                path::lemma_listed_push(a.emitted, x, disk.place(t));
                path::lemma_listed_push(b.emitted, x, disk.place(t));
            }
        }
    }
}

/// What a scan reports does not depend on how the seen targets are spelled,
/// repeated or ordered, nor on seen paths that are no target on the way.
pub proof fn hits_depend_on_seen_targets_alone(
    disk: Disk,
    roots: Seq<Seq<u8>>,
    one: Seq<Seq<u8>>,
    other: Seq<Seq<u8>>,
    n: nat,
)
    requires
        agree_on_targets(disk, roots, one, other),
    ensures
        disk.after(WalkState::start(roots, one), n).hits == disk.after(
            WalkState::start(roots, other),
            n,
        ).hits,
{
    lemma_same_walk(disk, roots, one, other, n);
}

/// A scan of some roots that leaves out the targets in `seen` reports exactly
/// some hits.
pub open spec fn finds(
    disk: Disk,
    roots: Seq<Seq<u8>>,
    seen: Seq<Seq<u8>>,
    hits: Seq<Hit>,
) -> bool {
    exists|n: nat|
        (#[trigger] disk.after(WalkState::start(roots, seen), n)).question() is Finished
            && disk.after(WalkState::start(roots, seen), n).hits == hits
}

proof fn lemma_finished_stays(disk: Disk, start: WalkState, n: nat, m: nat)
    requires
        n <= m,
        disk.after(start, n).question() is Finished,
    ensures
        disk.after(start, m) == disk.after(start, n),
    decreases m,
{
    if n < m {
        lemma_finished_stays(disk, start, n, (m - 1) as nat);
    }
}

/// Scans of the same roots on the same disk report the same hits, where they
/// leave out the same targets.
pub proof fn scans_of_one_disk_agree(
    disk: Disk,
    roots: Seq<Seq<u8>>,
    one: Seq<Seq<u8>>,
    other: Seq<Seq<u8>>,
    a: Seq<Hit>,
    b: Seq<Hit>,
)
    requires
        agree_on_targets(disk, roots, one, other),
        finds(disk, roots, one, a),
        finds(disk, roots, other, b),
    ensures
        a == b,
{
    let (x, y) = (WalkState::start(roots, one), WalkState::start(roots, other));
    let n = choose|n: nat|
        (#[trigger] disk.after(x, n)).question() is Finished && disk.after(x, n).hits == a;
    let m = choose|m: nat|
        (#[trigger] disk.after(y, m)).question() is Finished && disk.after(y, m).hits == b;
    let last = if n < m {
        m
    } else {
        n
    };
    lemma_finished_stays(disk, x, n, last);
    lemma_finished_stays(disk, y, m, last);
    hits_depend_on_seen_targets_alone(disk, roots, one, other, last);
}

} // verus!
