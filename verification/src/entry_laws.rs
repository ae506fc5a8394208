//! Which directory entries a walk goes into, which it probes and which it
//! passes over, told by their names, kinds and filesystems.

use vstd::prelude::*;
use vstd::string::*;
use vstd::utf8::*;

use crate::path;
use crate::scan::Evidence;
use crate::spelling;
use crate::walk;
use crate::walk::{
    Answer, Entry, Listing, Question, ScanHit, Verdict, WalkReply,
    WalkRequest, WalkState,
};
use crate::walk_laws;
use crate::walk_laws::Disk;

verus! {

/// A real directory on the filesystem of the root, whose name does not begin
/// with a dot and is neither `node_modules` nor `Library`. Where the root's
/// filesystem is unknown, any is taken for it.
pub open spec fn is_open(root_dev: Option<u64>, entry: Entry) -> bool {
    &&& entry.kind is Directory
    &&& !(entry.name.len() > 0 && entry.name[0] == '.' as u8)
    &&& entry.name != seq![110u8, 111u8, 100u8, 101u8, 95u8, 109u8, 111u8, 100u8, 117u8, 108u8, 101u8, 115u8]
    &&& entry.name != seq![76u8, 105u8, 98u8, 114u8, 97u8, 114u8, 121u8]
    &&& (root_dev is None || entry.dev == root_dev)
}

/// The path of an entry of a directory: its name behind a slash.
pub open spec fn is_path_of(child: Seq<u8>, dir: Seq<u8>, name: Seq<u8>) -> bool {
    if name.len() > 0 && name[0] == '/' as u8 {
        child == name
    } else if dir.len() == 0 || dir[dir.len() - 1] == '/' as u8 {
        child == dir + name
    } else {
        child == dir + seq!['/' as u8] + name
    }
}

/// `child` is a directory in `dir` that is open to walks from `root` and not
/// named `target`.
pub open spec fn leads_to(disk: Disk, root: Seq<u8>, dir: Seq<u8>, child: Seq<u8>) -> bool {
    (disk.list)(dir) matches Some(found) && exists|i: int|
        0 <= i < found.entries.len() && is_open((disk.dev)(root), #[trigger] found.entries[i])
            && found.entries[i].name != seq![116u8, 97u8, 114u8, 103u8, 101u8, 116u8] && is_path_of(
            child,
            dir,
            found.entries[i].name,
        )
}

/// `target` is a directory in `dir` that is open to walks from `root` and named
/// `target`.
pub open spec fn has_target(disk: Disk, root: Seq<u8>, dir: Seq<u8>, target: Seq<u8>) -> bool {
    (disk.list)(dir) matches Some(found) && exists|i: int|
        0 <= i < found.entries.len() && is_open((disk.dev)(root), #[trigger] found.entries[i])
            && found.entries[i].name == seq![116u8, 97u8, 114u8, 103u8, 101u8, 116u8] && is_path_of(
            target,
            dir,
            found.entries[i].name,
        )
}

/// `dir` lies `depth` open directories below `root`.
pub open spec fn lies_below(disk: Disk, root: Seq<u8>, dir: Seq<u8>, depth: nat) -> bool
    decreases depth,
{
    if depth == 0 {
        dir == root
    } else {
        exists|parent: Seq<u8>|
            #[trigger] leads_to(disk, root, parent, dir) && lies_below(
                disk,
                root,
                parent,
                (depth - 1) as nat,
            )
    }
}

proof fn lemma_words()
    ensures
        encode_utf8("node_modules"@) == seq![110u8, 111u8, 100u8, 101u8, 95u8, 109u8, 111u8, 100u8, 117u8, 108u8, 101u8, 115u8],
        encode_utf8("Library"@) == seq![76u8, 105u8, 98u8, 114u8, 97u8, 114u8, 121u8],
        encode_utf8("target"@) == seq![116u8, 97u8, 114u8, 103u8, 101u8, 116u8],
        seq![116u8, 97u8, 114u8, 103u8, 101u8, 116u8].len() == 6,
        seq![116u8, 97u8, 114u8, 103u8, 101u8, 116u8][0] == 't' as u8,
{
    spelling::node_modules();
    spelling::library();
    spelling::target();
}

/// The rule for one entry: it is entered where it is open and not named
/// `target`, probed where it is open and is, and passed over otherwise.
pub proof fn an_entry_is_judged_by_its_name(root_dev: Option<u64>, entry: Entry)
    ensures
        (walk::verdict(root_dev, entry) == Verdict::Descend) == (is_open(root_dev, entry)
            && entry.name != seq![116u8, 97u8, 114u8, 103u8, 101u8, 116u8]),
        (walk::verdict(root_dev, entry) == Verdict::Candidate) == (is_open(root_dev, entry)
            && entry.name == seq![116u8, 97u8, 114u8, 103u8, 101u8, 116u8]),
        (walk::verdict(root_dev, entry) == Verdict::Skip) == !is_open(root_dev, entry),
{
    lemma_words();
}

/// The path that an entry gets is its name behind a slash.
pub proof fn a_path_is_a_name_behind_a_slash(child: Seq<u8>, dir: Seq<u8>, name: Seq<u8>)
    ensures
        is_path_of(child, dir, name) == (child == path::join(dir, name)),
{
    assert(dir.push('/' as u8) + name =~= dir + seq!['/' as u8] + name);
}

proof fn lemma_holds(disk: Disk, root: Seq<u8>, dir: Seq<u8>, child: Seq<u8>)
    ensures
        leads_to(disk, root, dir, child) == disk.holds(root, dir, child, Verdict::Descend),
        has_target(disk, root, dir, child) == disk.holds(root, dir, child, Verdict::Candidate),
{
    if let Some(found) = (disk.list)(dir) {
        let dev = (disk.dev)(root);
        assert forall|i: int| 0 <= i < found.entries.len() implies {
            &&& (walk::verdict(dev, #[trigger] found.entries[i]) == Verdict::Descend) == (is_open(
                dev,
                found.entries[i],
            ) && found.entries[i].name != seq![116u8, 97u8, 114u8, 103u8, 101u8, 116u8])
            &&& (walk::verdict(dev, found.entries[i]) == Verdict::Candidate) == (is_open(
                dev,
                found.entries[i],
            ) && found.entries[i].name == seq![116u8, 97u8, 114u8, 103u8, 101u8, 116u8])
            &&& is_path_of(child, dir, found.entries[i].name) == (child == path::join(
                dir,
                found.entries[i].name,
            ))
        } by {
            an_entry_is_judged_by_its_name(dev, found.entries[i]);
            a_path_is_a_name_behind_a_slash(child, dir, found.entries[i].name);
        }
    }
}

proof fn lemma_below(disk: Disk, root: Seq<u8>, dir: Seq<u8>, depth: nat)
    ensures
        lies_below(disk, root, dir, depth) == disk.reaches(root, dir, depth),
    decreases depth,
{
    if depth > 0 {
        let less = (depth - 1) as nat;
        if lies_below(disk, root, dir, depth) {
            let parent = choose|parent: Seq<u8>|
                #[trigger] leads_to(disk, root, parent, dir) && lies_below(
                    disk,
                    root,
                    parent,
                    less,
                );
            lemma_holds(disk, root, parent, dir);
            lemma_below(disk, root, parent, less);
            assert(disk.holds(root, parent, dir, Verdict::Descend));
        }
        if disk.reaches(root, dir, depth) {
            let parent = choose|parent: Seq<u8>|
                #[trigger] disk.holds(root, parent, dir, Verdict::Descend) && disk.reaches(
                    root,
                    parent,
                    less,
                );
            lemma_holds(disk, root, parent, dir);
            lemma_below(disk, root, parent, less);
            assert(leads_to(disk, root, parent, dir));
        }
    }
}

/// A walk that is over read every directory below its roots that can be come
/// to through open directories.
pub proof fn every_open_directory_is_read(
    disk: Disk,
    roots: Seq<Seq<u8>>,
    seen: Seq<Seq<u8>>,
    n: nat,
    r: int,
    dir: Seq<u8>,
    depth: nat,
)
    requires
        disk.after(WalkState::start(roots, seen), n).question() is Finished,
        0 <= r < roots.len(),
        lies_below(disk, roots[r], dir, depth),
    ensures
        exists|i: nat|
            i < n && (#[trigger] disk.after(WalkState::start(roots, seen), i)).question()
                == Question::Read(dir),
{
    lemma_below(disk, roots[r], dir, depth);
    assert(disk.covers(roots[r], dir));
    walk_laws::every_reachable_directory_is_read(disk, roots, seen, n, r, dir);
}

/// No other directory is read: each is a root or lies below one through open
/// directories.
pub proof fn only_open_directories_are_read(
    disk: Disk,
    roots: Seq<Seq<u8>>,
    seen: Seq<Seq<u8>>,
    n: nat,
    dir: Seq<u8>,
)
    requires
        disk.after(WalkState::start(roots, seen), n).question() == Question::Read(dir),
    ensures
        exists|r: int, depth: nat|
            0 <= r < roots.len() && #[trigger] lies_below(disk, roots[r], dir, depth),
{
    walk_laws::only_reachable_directories_are_read(disk, roots, seen, n, dir);
    let r = choose|r: int| 0 <= r < roots.len() && #[trigger] disk.covers(roots[r], dir);
    let depth = choose|depth: nat| #[trigger] disk.reaches(roots[r], dir, depth);
    lemma_below(disk, roots[r], dir, depth);
    assert(lies_below(disk, roots[r], dir, depth));
}

/// Every `target` directory that a manifest beside it or cargo's markers in it
/// vouch for is reported, wherever it lies below a root through open
/// directories, unless it was seen before.
pub proof fn every_vouched_target_below_is_found(
    disk: Disk,
    roots: Seq<Seq<u8>>,
    seen: Seq<Seq<u8>>,
    n: nat,
    r: int,
    dir: Seq<u8>,
    depth: nat,
    target: Seq<u8>,
)
    requires
        disk.after(WalkState::start(roots, seen), n).question() is Finished,
        0 <= r < roots.len(),
        lies_below(disk, roots[r], dir, depth),
        has_target(disk, roots[r], dir, target),
        ((disk.list)(dir) matches Some(found) && found.has_manifest) || (disk.markers)(target),
        !path::listed(seen, (disk.canonical)(target).unwrap_or(target)),
    ensures
        exists|k: int|
            0 <= k < disk.after(WalkState::start(roots, seen), n).hits.len() && {
                let other = (#[trigger] disk.after(
                    WalkState::start(roots, seen),
                    n,
                ).hits[k]).target;
                path::same_path(
                    (disk.canonical)(other).unwrap_or(other),
                    (disk.canonical)(target).unwrap_or(target),
                )
            },
{
    lemma_below(disk, roots[r], dir, depth);
    lemma_holds(disk, roots[r], dir, target);
    assert(disk.covers(roots[r], dir));
    walk_laws::every_vouched_target_is_found(disk, roots, seen, n, r, dir, target);
}

/// Every report is of a `target` directory below a root, which it names by its
/// path. The manifest beside it or cargo's markers in it vouch for it, and it is
/// verified exactly where both do.
pub proof fn every_report_is_of_a_vouched_target(
    disk: Disk,
    roots: Seq<Seq<u8>>,
    seen: Seq<Seq<u8>>,
    n: nat,
    k: int,
)
    requires
        0 <= k < disk.after(WalkState::start(roots, seen), n).hits.len(),
    ensures
        exists|r: int, dir: Seq<u8>, depth: nat|
            {
                let hit = disk.after(WalkState::start(roots, seen), n).hits[k];
                &&& 0 <= r < roots.len()
                &&& #[trigger] lies_below(disk, roots[r], dir, depth)
                &&& has_target(disk, roots[r], dir, hit.target)
                &&& hit.verified == (((disk.list)(dir) matches Some(found) && found.has_manifest)
                    && (disk.markers)(hit.target))
                &&& ((disk.list)(dir) matches Some(found) && found.has_manifest) || (disk.markers)(
                    hit.target,
                )
            },
{
    walk_laws::every_hit_is_vouched_for(disk, roots, seen, n, k);
    let hit = disk.after(WalkState::start(roots, seen), n).hits[k];
    let (r, dir) = choose|r: int, dir: Seq<u8>|
        0 <= r < roots.len() && #[trigger] disk.meets(roots[r], dir, hit.target) && (
        disk.has_manifest(dir) || (disk.markers)(hit.target)) && hit.verified == (
        disk.has_manifest(dir) && (disk.markers)(hit.target));
    let depth = choose|depth: nat| #[trigger] disk.reaches(roots[r], dir, depth);
    lemma_below(disk, roots[r], dir, depth);
    lemma_holds(disk, roots[r], dir, hit.target);
    assert(lies_below(disk, roots[r], dir, depth));
}

/// A reply is taken as it was given: each entry with its name, kind and
/// filesystem, in its order, and a report with its path.
pub proof fn listings_are_taken_as_they_are(
    listing: Listing,
    i: int,
    hit: ScanHit,
    dev: Option<u64>,
    found: Evidence,
    canonical: Vec<u8>,
)
    requires
        0 <= i < listing.entries@.len(),
    ensures
        WalkReply::Listed(Some(listing))@ matches Answer::Listed(Some(dir)) && dir.has_manifest
            == listing.has_manifest && dir.entries.len() == listing.entries@.len()
            && dir.entries[i].name == listing.entries@[i].name@ && dir.entries[i].kind
            == listing.entries@[i].kind && dir.entries[i].dev == listing.entries@[i].dev,
        WalkReply::Listed(None)@ == Answer::Listed(None),
        WalkReply::Device(dev)@ == Answer::Device(dev),
        (WalkReply::Probed { found, canonical: Some(canonical) })@ matches Answer::Probed {
            canonical: Some(place),
            ..
        } && place == canonical@,
        (WalkReply::Probed { found, canonical: None })@ matches Answer::Probed {
            canonical: None,
            ..
        },
        hit@.target == hit.target@,
        hit@.verified == hit.verified,
{
}

/// A request of a walk names the path that the walk asks about.
pub proof fn a_walk_asks_about_the_path(p: Vec<u8>)
    ensures
        WalkRequest::Stat(p)@ == Question::Stat(p@),
        WalkRequest::Read(p)@ == Question::Read(p@),
        WalkRequest::Probe(p)@ == Question::Probe(p@),
        WalkRequest::Finished@ == Question::Finished,
{
}

} // verus!
