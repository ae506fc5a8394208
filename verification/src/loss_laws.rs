//! What a scan reports does not change where a disk loses only what the scan
//! would leave out anyway.

use vstd::prelude::*;

use crate::path;
use crate::walk;
use crate::walk::{Dir, Entry, Hit, Question, Verdict, WalkState};
use crate::walk_laws;
use crate::walk_laws::Disk;

verus! {

/// The paths that were not lost.
pub open spec fn alive(lost: spec_fn(Seq<u8>) -> bool) -> spec_fn(Seq<u8>) -> bool {
    |p: Seq<u8>| !lost(p)
}

/// The entries of a directory whose paths were not lost.
pub open spec fn is_left(
    lost: spec_fn(Seq<u8>) -> bool,
    dir: Seq<u8>,
) -> spec_fn(Entry) -> bool {
    |entry: Entry| !lost(path::join(dir, entry.name))
}

/// A disk without what was lost.
pub open spec fn without(disk: Disk, lost: spec_fn(Seq<u8>) -> bool) -> Disk {
    Disk {
        dev: |p: Seq<u8>|
            if lost(p) {
                None
            } else {
                (disk.dev)(p)
            },
        list: |p: Seq<u8>|
            if lost(p) {
                None
            } else {
                match (disk.list)(p) {
                    Some(found) => Some(
                        Dir {
                            has_manifest: found.has_manifest,
                            entries: found.entries.filter(is_left(lost, p)),
                        },
                    ),
                    None => None,
                }
            },
        markers: |p: Seq<u8>| !lost(p) && (disk.markers)(p),
        canonical: |p: Seq<u8>|
            if lost(p) {
                None
            } else {
                (disk.canonical)(p)
            },
    }
}

/// All entries of a directory were lost.
pub open spec fn loses_all(found: Dir, lost: spec_fn(Seq<u8>) -> bool, dir: Seq<u8>) -> bool {
    forall|i: int|
        0 <= i < found.entries.len() ==> lost(
            path::join(dir, (#[trigger] found.entries[i]).name),
        )
}

/// With a directory all that is in it is lost.
pub open spec fn is_closed(disk: Disk, lost: spec_fn(Seq<u8>) -> bool) -> bool {
    forall|dir: Seq<u8>|
        lost(dir) ==> ((#[trigger] (disk.list)(dir)) matches Some(found) ==> loses_all(
            found,
            lost,
            dir,
        ))
}

/// Among what was lost, the scan would report no target: none that something
/// vouches for was not seen before.
pub open spec fn hides_nothing(
    disk: Disk,
    roots: Seq<Seq<u8>>,
    seen: Seq<Seq<u8>>,
    lost: spec_fn(Seq<u8>) -> bool,
) -> bool {
    forall|r: int, dir: Seq<u8>, target: Seq<u8>|
        0 <= r < roots.len() && #[trigger] disk.meets(roots[r], dir, target) && lost(target) && (
        disk.has_manifest(dir) || (disk.markers)(target)) ==> path::listed(
            seen,
            disk.place(target),
        )
}

proof fn lemma_picked_front(
    dir: Seq<u8>,
    dev: Option<u64>,
    entries: Seq<Entry>,
    more: Entry,
    n: int,
    wanted: Verdict,
)
    requires
        0 <= n <= entries.len(),
    ensures
        walk::picked(dir, dev, entries.push(more), n, wanted) == walk::picked(
            dir,
            dev,
            entries,
            n,
            wanted,
        ),
    decreases n,
{
    if n > 0 {
        lemma_picked_front(dir, dev, entries, more, n - 1, wanted);
        assert(entries.push(more)[n - 1] == entries[n - 1]);
    }
}

/// Picking from what is left is picking, then leaving out what was lost.
proof fn lemma_picked_left(
    dir: Seq<u8>,
    dev: Option<u64>,
    entries: Seq<Entry>,
    wanted: Verdict,
    lost: spec_fn(Seq<u8>) -> bool,
)
    ensures
        ({
            let left = entries.filter(is_left(lost, dir));
            walk::picked(dir, dev, left, left.len() as int, wanted) == walk::picked(
                dir,
                dev,
                entries,
                entries.len() as int,
                wanted,
            ).filter(alive(lost))
        }),
    decreases entries.len(),
{
    reveal(Seq::filter);
    if entries.len() > 0 {
        let front = entries.drop_last();
        let e = entries.last();
        let n = front.len() as int;
        let left = front.filter(is_left(lost, dir));
        assert(entries =~= front.push(e));
        lemma_picked_left(dir, dev, front, wanted, lost);
        lemma_picked_front(dir, dev, front, e, n, wanted);
        lemma_picked_front(dir, dev, left, e, left.len() as int, wanted);
        let before = walk::picked(dir, dev, front, n, wanted);
        let p = path::join(dir, e.name);
        assert(before.push(p).drop_last() =~= before);
        assert(left.push(e)[left.len() as int] == e);
    }
}

proof fn lemma_none_alive(list: Seq<Seq<u8>>, lost: spec_fn(Seq<u8>) -> bool)
    requires
        forall|i: int| 0 <= i < list.len() ==> lost(#[trigger] list[i]),
    ensures
        list.filter(alive(lost)) == Seq::<Seq<u8>>::empty(),
    decreases list.len(),
{
    reveal(Seq::filter);
    if list.len() > 0 {
        let front = list.drop_last();
        assert(forall|i: int| 0 <= i < front.len() ==> #[trigger] front[i] == list[i]);
        lemma_none_alive(front, lost);
        assert(lost(list[list.len() - 1]));
    }
}

/// Of entries that were all lost nothing that is picked is left.
proof fn lemma_picked_lost(
    dir: Seq<u8>,
    dev: Option<u64>,
    entries: Seq<Entry>,
    n: int,
    wanted: Verdict,
    lost: spec_fn(Seq<u8>) -> bool,
)
    requires
        0 <= n <= entries.len(),
        forall|i: int|
            0 <= i < entries.len() ==> lost(path::join(dir, (#[trigger] entries[i]).name)),
    ensures
        walk::picked(dir, dev, entries, n, wanted).filter(alive(lost)) == Seq::<Seq<u8>>::empty(),
    decreases n,
{
    reveal(Seq::filter);
    if n > 0 {
        lemma_picked_lost(dir, dev, entries, n - 1, wanted, lost);
        let before = walk::picked(dir, dev, entries, n - 1, wanted);
        let p = path::join(dir, entries[n - 1].name);
        assert(lost(p));
        assert(before.push(p).drop_last() =~= before);
    }
}

proof fn lemma_filter_first(list: Seq<Seq<u8>>, lost: spec_fn(Seq<u8>) -> bool)
    requires
        list.len() > 0,
    ensures
        lost(list[0]) ==> list.filter(alive(lost)) == list.drop_first().filter(alive(lost)),
        !lost(list[0]) ==> {
            &&& list.filter(alive(lost)).len() > 0
            &&& list.filter(alive(lost))[0] == list[0]
            &&& list.filter(alive(lost)).drop_first() == list.drop_first().filter(alive(lost))
        },
{
    reveal(Seq::filter);
    let one = seq![list[0]];
    let rest = list.drop_first();
    assert(list =~= one + rest);
    Seq::filter_distributes_over_add(one, rest, alive(lost));
    assert(one.drop_last() =~= Seq::empty());
    if lost(list[0]) {
        lemma_none_alive(one, lost);
        assert(list.filter(alive(lost)) =~= rest.filter(alive(lost)));
    } else {
        assert(one.filter(alive(lost)) =~= one);
        assert(list.filter(alive(lost)).drop_first() =~= rest.filter(alive(lost)));
    }
}

proof fn lemma_filter_last(list: Seq<Seq<u8>>, lost: spec_fn(Seq<u8>) -> bool)
    requires
        list.len() > 0,
    ensures
        lost(list.last()) ==> list.filter(alive(lost)) == list.drop_last().filter(alive(lost)),
        !lost(list.last()) ==> list.filter(alive(lost)) == list.drop_last().filter(
            alive(lost),
        ).push(list.last()),
{
    reveal(Seq::filter);
}

/// `b` is `a` without what was lost.
spec fn shadows(lost: spec_fn(Seq<u8>) -> bool, a: WalkState, b: WalkState) -> bool {
    &&& b.ahead == a.ahead.filter(alive(lost))
    &&& b.stack == a.stack.filter(alive(lost))
    &&& b.candidates == a.candidates.filter(alive(lost))
    &&& b.emitted == a.emitted
    &&& b.hits == a.hits
    &&& b.stack.len() > 0 || b.candidates.len() > 0 ==> b.root_dev == a.root_dev
    &&& b.candidates.len() > 0 ==> b.has_manifest == a.has_manifest
}

/// The path that a question is about was lost.
spec fn is_about_lost(lost: spec_fn(Seq<u8>) -> bool, question: Question) -> bool {
    match question {
        Question::Stat(p) | Question::Read(p) | Question::Probe(p) => lost(p),
        Question::Finished => true,
    }
}

proof fn lemma_shadow_waits(
    disk: Disk,
    lost: spec_fn(Seq<u8>) -> bool,
    a: WalkState,
    b: WalkState,
)
    requires
        is_closed(disk, lost),
        shadows(lost, a, b),
        is_about_lost(lost, a.question()),
        a.question() matches Question::Probe(target) ==> !(a.has_manifest || (disk.markers)(
            target,
        )) || path::listed(a.emitted, disk.place(target)),
    ensures
        shadows(lost, a.next(disk.answer(a.question())), b),
{
    let t = a.next(disk.answer(a.question()));
    match a.question() {
        Question::Probe(target) => {
            lemma_filter_first(a.candidates, lost);
        },
        Question::Read(dir) => {
            lemma_filter_last(a.stack, lost);
            if let Some(found) = (disk.list)(dir) {
                let n = found.entries.len() as int;
                let down = walk::picked(dir, a.root_dev, found.entries, n, Verdict::Descend);
                assert(loses_all(found, lost, dir));
                lemma_picked_lost(dir, a.root_dev, found.entries, n, Verdict::Descend, lost);
                lemma_picked_lost(dir, a.root_dev, found.entries, n, Verdict::Candidate, lost);
                Seq::filter_distributes_over_add(a.stack.drop_last(), down, alive(lost));
                assert(t.stack.filter(alive(lost)) =~= a.stack.filter(alive(lost)));
                assert(a.candidates =~= Seq::empty());
                lemma_none_alive(a.candidates, lost);
            }
        },
        Question::Stat(root) => {
            lemma_filter_first(a.ahead, lost);
            assert(a.stack =~= Seq::empty());
            lemma_none_alive(a.stack, lost);
            lemma_none_alive(t.stack, lost);
        },
        Question::Finished => {},
    }
}

proof fn lemma_shadow_follows(
    disk: Disk,
    lost: spec_fn(Seq<u8>) -> bool,
    a: WalkState,
    b: WalkState,
)
    requires
        shadows(lost, a, b),
        !is_about_lost(lost, a.question()),
    ensures
        shadows(
            lost,
            a.next(disk.answer(a.question())),
            b.next(without(disk, lost).answer(b.question())),
        ),
{
    let less = without(disk, lost);
    let t = a.next(disk.answer(a.question()));
    match a.question() {
        Question::Probe(target) => {
            lemma_filter_first(a.candidates, lost);
            assert(b.question() == a.question());
        },
        Question::Read(dir) => {
            assert(a.candidates =~= Seq::empty());
            lemma_none_alive(a.candidates, lost);
            lemma_filter_last(a.stack, lost);
            assert(b.question() == a.question());
            assert(b.stack.drop_last() =~= a.stack.drop_last().filter(alive(lost)));
            let u = b.next(less.answer(b.question()));
            if let Some(found) = (disk.list)(dir) {
                let n = found.entries.len() as int;
                let down = walk::picked(dir, a.root_dev, found.entries, n, Verdict::Descend);
                lemma_picked_left(dir, a.root_dev, found.entries, Verdict::Descend, lost);
                lemma_picked_left(dir, a.root_dev, found.entries, Verdict::Candidate, lost);
                Seq::filter_distributes_over_add(a.stack.drop_last(), down, alive(lost));
                assert(u.stack =~= t.stack.filter(alive(lost)));
            }
        },
        Question::Stat(root) => {
            assert(a.candidates =~= Seq::empty());
            lemma_none_alive(a.candidates, lost);
            assert(a.stack =~= Seq::empty());
            lemma_none_alive(a.stack, lost);
            lemma_filter_first(a.ahead, lost);
            assert(b.question() == a.question());
            lemma_filter_first(t.stack, lost);
            assert(t.stack.drop_first() =~= Seq::empty());
            lemma_none_alive(t.stack.drop_first(), lost);
            assert(t.stack.filter(alive(lost)) =~= seq![root]);
        },
        Question::Finished => {},
    }
}

proof fn lemma_shadow(
    disk: Disk,
    lost: spec_fn(Seq<u8>) -> bool,
    roots: Seq<Seq<u8>>,
    seen: Seq<Seq<u8>>,
    n: nat,
)
    requires
        is_closed(disk, lost),
        hides_nothing(disk, roots, seen, lost),
    ensures
        exists|m: nat|
            shadows(
                lost,
                disk.after(WalkState::start(roots, seen), n),
                #[trigger] without(disk, lost).after(
                    WalkState::start(roots.filter(alive(lost)), seen),
                    m,
                ),
            ),
    decreases n,
{
    let less = without(disk, lost);
    let (from, to) = (
        WalkState::start(roots, seen),
        WalkState::start(roots.filter(alive(lost)), seen),
    );
    if n == 0 {
        lemma_none_alive(Seq::empty(), lost);
        assert(shadows(lost, from, less.after(to, 0)));
    } else {
        let k = (n - 1) as nat;
        lemma_shadow(disk, lost, roots, seen, k);
        let m = choose|m: nat| shadows(lost, disk.after(from, k), #[trigger] less.after(to, m));
        let (a, b) = (disk.after(from, k), less.after(to, m));
        if is_about_lost(lost, a.question()) {
            if let Question::Probe(target) = a.question() {
                walk_laws::only_targets_on_the_way_are_probed(disk, roots, seen, k, target);
                let (r, dir) = choose|r: int, dir: Seq<u8>|
                    0 <= r < roots.len() && #[trigger] disk.meets(roots[r], dir, target)
                        && disk.has_manifest(dir) == a.has_manifest;
                assert(disk.meets(roots[r], dir, target));
                if a.has_manifest || (disk.markers)(target) {
                    walk_laws::seen_targets_stay_seen(
                        disk,
                        roots,
                        seen,
                        k,
                        disk.place(target),
                    );
                }
            }
            lemma_shadow_waits(disk, lost, a, b);
            assert(shadows(lost, disk.after(from, n), less.after(to, m)));
        } else {
            lemma_shadow_follows(disk, lost, a, b);
            assert(shadows(lost, disk.after(from, n), less.after(to, m + 1)));
        }
    }
}

/// A scan reports the same where the disk loses what the scan would leave out.
pub proof fn losing_what_is_left_out_changes_nothing(
    disk: Disk,
    lost: spec_fn(Seq<u8>) -> bool,
    roots: Seq<Seq<u8>>,
    seen: Seq<Seq<u8>>,
    hits: Seq<Hit>,
)
    requires
        is_closed(disk, lost),
        hides_nothing(disk, roots, seen, lost),
        walk_laws::finds(disk, roots, seen, hits),
    ensures
        walk_laws::finds(without(disk, lost), roots.filter(alive(lost)), seen, hits),
{
    let less = without(disk, lost);
    let to = WalkState::start(roots.filter(alive(lost)), seen);
    let n = choose|n: nat|
        (#[trigger] disk.after(WalkState::start(roots, seen), n)).question() is Finished
            && disk.after(WalkState::start(roots, seen), n).hits == hits;
    lemma_shadow(disk, lost, roots, seen, n);
    let a = disk.after(WalkState::start(roots, seen), n);
    let m = choose|m: nat| shadows(lost, a, #[trigger] less.after(to, m));
    assert(a.ahead =~= Seq::empty() && a.stack =~= Seq::empty() && a.candidates =~= Seq::empty());
    lemma_none_alive(a.ahead, lost);
    assert(less.after(to, m).question() is Finished);
}

/// What a walk comes across on what is left, it comes across on the whole
/// disk, and it was not lost.
pub proof fn what_is_left_was_there(
    disk: Disk,
    lost: spec_fn(Seq<u8>) -> bool,
    root: Seq<u8>,
    dir: Seq<u8>,
    target: Seq<u8>,
)
    requires
        !lost(root),
        without(disk, lost).meets(root, dir, target),
    ensures
        disk.meets(root, dir, target),
        !lost(target),
{
    let less = without(disk, lost);
    let depth = choose|depth: nat| #[trigger] less.reaches(root, dir, depth);
    lemma_left_is_reached(disk, lost, root, dir, depth);
    lemma_left_is_held(disk, lost, root, dir, target, Verdict::Candidate);
    assert(disk.reaches(root, dir, depth));
}

proof fn lemma_left_is_held(
    disk: Disk,
    lost: spec_fn(Seq<u8>) -> bool,
    root: Seq<u8>,
    dir: Seq<u8>,
    child: Seq<u8>,
    wanted: Verdict,
)
    requires
        !lost(root),
        without(disk, lost).holds(root, dir, child, wanted),
    ensures
        disk.holds(root, dir, child, wanted),
        !lost(child),
{
    let dev = (disk.dev)(root);
    let entries = (disk.list)(dir)->Some_0.entries;
    let left = entries.filter(is_left(lost, dir));
    let i = choose|i: int|
        0 <= i < left.len() && walk::verdict(dev, #[trigger] left[i]) == wanted && child
            == path::join(dir, left[i].name);
    assert(left.contains(left[i]));
    entries.lemma_filter_contains_rev(is_left(lost, dir), left[i]);
    let k = entries.index_of(left[i]);
    assert(walk::verdict(dev, entries[k]) == wanted);
    entries.lemma_filter_pred(is_left(lost, dir), i);
}

proof fn lemma_left_is_reached(
    disk: Disk,
    lost: spec_fn(Seq<u8>) -> bool,
    root: Seq<u8>,
    dir: Seq<u8>,
    depth: nat,
)
    requires
        !lost(root),
        without(disk, lost).reaches(root, dir, depth),
    ensures
        disk.reaches(root, dir, depth),
    decreases depth,
{
    if depth > 0 {
        let less = without(disk, lost);
        let parent = choose|parent: Seq<u8>|
            #[trigger] less.holds(root, parent, dir, Verdict::Descend) && less.reaches(
                root,
                parent,
                (depth - 1) as nat,
            );
        lemma_left_is_reached(disk, lost, root, parent, (depth - 1) as nat);
        lemma_left_is_held(disk, lost, root, parent, dir, Verdict::Descend);
        assert(disk.holds(root, parent, dir, Verdict::Descend));
    }
}

} // verus!
