//! The walk that discovers `target/` directories nobody recorded.
//!
//! A walk reads nothing by itself: it names the one thing it wants to know
//! next and takes the reply. Hidden directories and a few well-known heaps are
//! not entered, symlinks are never followed, the walk stays on the filesystem
//! of the root it started at, and a directory named `target` is never
//! descended into, accepted or not.
//!
//! Two independent signals vouch for a `target/`: a sibling `Cargo.toml`, and
//! cargo's own markers inside. Both present means verified. Just one is still
//! reported, unverified, for a caller to gate behind confirmation. A `target/`
//! with neither signal is not reported at all.

use vstd::prelude::*;
use vstd::string::*;
use vstd::utf8::*;

use crate::path;
use crate::path::{is_listed, join_path};
use crate::scan;
use crate::scan::{is_cargo_target, same_filesystem, Evidence};
use crate::text;
use crate::text::{begins_with, copy_bytes, is_text};

verus! {

/// A `target/` directory that the walk accepted, and how strong the evidence
/// was.
pub struct ScanHit {
    pub target: Vec<u8>,
    /// A sibling `Cargo.toml` *and* cargo's own markers vouch for this
    /// directory. Anything weaker is reported but never deleted unprompted.
    pub verified: bool,
}

/// What a directory entry is, without following symlinks.
#[derive(Clone, Copy, PartialEq, Eq, Structural)]
pub enum EntryKind {
    Directory,
    Symlink,
    /// A file, or something whose kind could not be read.
    Other,
}

/// One entry of a directory.
pub struct DirEntry {
    pub name: Vec<u8>,
    pub kind: EntryKind,
    /// The filesystem it sits on, where it can be examined.
    pub dev: Option<u64>,
}

/// What a readable directory holds.
pub struct Listing {
    /// `Cargo.toml` in it is a file.
    pub has_manifest: bool,
    pub entries: Vec<DirEntry>,
}

/// What a walk wants to know next.
pub enum WalkRequest {
    /// The filesystem of a scan root.
    Stat(Vec<u8>),
    /// What a directory holds.
    Read(Vec<u8>),
    /// What a `target/` directory holds, and its canonical path.
    Probe(Vec<u8>),
    /// Nothing: the walk is over.
    Finished,
}

/// The reply to a request.
pub enum WalkReply {
    /// To `Stat`: the filesystem, where the root can be examined.
    Device(Option<u64>),
    /// To `Read`: the contents, where the directory can be read.
    Listed(Option<Listing>),
    /// To `Probe`.
    Probed { found: Evidence, canonical: Option<Vec<u8>> },
}

/// A walk under way.
pub struct Walk {
    ahead: Vec<Vec<u8>>,
    root_dev: Option<u64>,
    stack: Vec<Vec<u8>>,
    has_manifest: bool,
    candidates: Vec<Vec<u8>>,
    emitted: Vec<Vec<u8>>,
    hits: Vec<ScanHit>,
}

/// The model of a hit.
pub struct Hit {
    pub target: Seq<u8>,
    pub verified: bool,
}

/// The model of a directory entry.
pub struct Entry {
    pub name: Seq<u8>,
    pub kind: EntryKind,
    pub dev: Option<u64>,
}

/// The model of a readable directory.
pub struct Dir {
    pub has_manifest: bool,
    pub entries: Seq<Entry>,
}

/// The model of a request.
pub enum Question {
    Stat(Seq<u8>),
    Read(Seq<u8>),
    Probe(Seq<u8>),
    Finished,
}

/// The model of a reply. Of what was found in a `target/` it keeps whether
/// cargo's markers are there.
pub enum Answer {
    Device(Option<u64>),
    Listed(Option<Dir>),
    Probed { markers: bool, canonical: Option<Seq<u8>> },
}

/// The model of a walk under way.
#[verifier::ext_equal]
pub struct WalkState {
    /// The roots that were not started on.
    pub ahead: Seq<Seq<u8>>,
    /// The filesystem of the current root.
    pub root_dev: Option<u64>,
    /// The directories to read, the next one last.
    pub stack: Seq<Seq<u8>>,
    /// The directory read last holds a manifest.
    pub has_manifest: bool,
    /// The `target/` directories found in it that were not probed yet.
    pub candidates: Seq<Seq<u8>>,
    /// The canonical paths that must not be reported again.
    pub emitted: Seq<Seq<u8>>,
    /// What is reported so far.
    pub hits: Seq<Hit>,
}

impl View for ScanHit {
    type V = Hit;

    open spec fn view(&self) -> Hit {
        Hit { target: self.target@, verified: self.verified }
    }
}

impl View for DirEntry {
    type V = Entry;

    open spec fn view(&self) -> Entry {
        Entry { name: self.name@, kind: self.kind, dev: self.dev }
    }
}

impl View for Listing {
    type V = Dir;

    open spec fn view(&self) -> Dir {
        Dir {
            has_manifest: self.has_manifest,
            entries: Seq::new(self.entries@.len(), |i: int| self.entries@[i]@),
        }
    }
}

impl View for WalkRequest {
    type V = Question;

    open spec fn view(&self) -> Question {
        match self {
            WalkRequest::Stat(p) => Question::Stat(p@),
            WalkRequest::Read(p) => Question::Read(p@),
            WalkRequest::Probe(p) => Question::Probe(p@),
            WalkRequest::Finished => Question::Finished,
        }
    }
}

/// The bytes of a path, where there is one.
pub open spec fn bytes_of(p: Option<Vec<u8>>) -> Option<Seq<u8>> {
    match p {
        Some(p) => Some(p@),
        None => None,
    }
}

impl View for WalkReply {
    type V = Answer;

    open spec fn view(&self) -> Answer {
        match self {
            WalkReply::Device(dev) => Answer::Device(*dev),
            WalkReply::Listed(None) => Answer::Listed(None),
            WalkReply::Listed(Some(listing)) => Answer::Listed(Some(listing@)),
            WalkReply::Probed { found, canonical } => Answer::Probed {
                markers: found.vouches(),
                canonical: bytes_of(*canonical),
            },
        }
    }
}

impl View for Walk {
    type V = WalkState;

    closed spec fn view(&self) -> WalkState {
        WalkState {
            ahead: text::contents(self.ahead@),
            root_dev: self.root_dev,
            stack: text::contents(self.stack@),
            has_manifest: self.has_manifest,
            candidates: text::contents(self.candidates@),
            emitted: text::contents(self.emitted@),
            hits: hits_of(self.hits@),
        }
    }
}

/// The models of hits, one by one.
pub open spec fn hits_of(hits: Seq<ScanHit>) -> Seq<Hit> {
    Seq::new(hits.len(), |i: int| hits[i]@)
}

/// What the walk does with a directory entry.
#[derive(PartialEq, Eq, Structural)]
pub enum Verdict {
    Skip,
    Descend,
    Candidate,
}

/// The first byte of a hidden name.
pub const DOT: u8 = 0x2e;

/// Directories that are full and never hold a cargo project.
pub open spec fn is_skipped_name(name: Seq<u8>) -> bool {
    name == encode_utf8("node_modules"@) || name == encode_utf8("Library"@)
}

pub open spec fn is_hidden_name(name: Seq<u8>) -> bool {
    name.len() > 0 && name[0] == DOT
}

pub open spec fn is_target_name(name: Seq<u8>) -> bool {
    name == encode_utf8("target"@)
}

/// The rule for a directory entry.
pub open spec fn verdict(root_dev: Option<u64>, entry: Entry) -> Verdict {
    if entry.kind != EntryKind::Directory || is_hidden_name(entry.name) || is_skipped_name(
        entry.name,
    ) || !scan::on_same_filesystem(root_dev, entry.dev) {
        Verdict::Skip
    } else if is_target_name(entry.name) {
        Verdict::Candidate
    } else {
        Verdict::Descend
    }
}

/// The paths of the first `n` entries of a directory that get a given verdict,
/// in their order.
pub open spec fn picked(
    dir: Seq<u8>,
    root_dev: Option<u64>,
    entries: Seq<Entry>,
    n: int,
    wanted: Verdict,
) -> Seq<Seq<u8>>
    decreases n,
{
    if n <= 0 {
        Seq::empty()
    } else {
        let before = picked(dir, root_dev, entries, n - 1, wanted);
        if verdict(root_dev, entries[n - 1]) == wanted {
            before.push(path::join(dir, entries[n - 1].name))
        } else {
            before
        }
    }
}

impl WalkState {
    /// A walk that was not started, and must not report the targets in
    /// `seen`.
    pub open spec fn start(roots: Seq<Seq<u8>>, seen: Seq<Seq<u8>>) -> WalkState {
        WalkState {
            ahead: roots,
            root_dev: None,
            stack: Seq::empty(),
            has_manifest: false,
            candidates: Seq::empty(),
            emitted: seen,
            hits: Seq::empty(),
        }
    }

    /// What the walk wants to know next: the targets of the directory read
    /// last come first, then the newest directory, then the next root.
    pub open spec fn question(self) -> Question {
        if self.candidates.len() > 0 {
            Question::Probe(self.candidates[0])
        } else if self.stack.len() > 0 {
            Question::Read(self.stack.last())
        } else if self.ahead.len() > 0 {
            Question::Stat(self.ahead[0])
        } else {
            Question::Finished
        }
    }

    /// The walk after a `target/` was probed. It is reported where a signal
    /// vouches for it and its canonical path is new.
    pub open spec fn probed(self, markers: bool, canonical: Option<Seq<u8>>) -> WalkState {
        let target = self.candidates[0];
        let place = canonical.unwrap_or(target);
        let rest = WalkState { candidates: self.candidates.drop_first(), ..self };
        if (self.has_manifest || markers) && !path::listed(self.emitted, place) {
            WalkState {
                emitted: self.emitted.push(place),
                hits: self.hits.push(Hit { target, verified: self.has_manifest && markers }),
                ..rest
            }
        } else {
            rest
        }
    }

    /// The walk after a directory was read.
    pub open spec fn read(self, dir: Dir) -> WalkState {
        let at = self.stack.last();
        let n = dir.entries.len() as int;
        WalkState {
            stack: self.stack.drop_last() + picked(
                at,
                self.root_dev,
                dir.entries,
                n,
                Verdict::Descend,
            ),
            has_manifest: dir.has_manifest,
            candidates: picked(at, self.root_dev, dir.entries, n, Verdict::Candidate),
            ..self
        }
    }

    /// The walk after an answer. One that does not fit the question changes
    /// nothing.
    pub open spec fn next(self, answer: Answer) -> WalkState {
        match (self.question(), answer) {
            (Question::Probe(_), Answer::Probed { markers, canonical }) => self.probed(
                markers,
                canonical,
            ),
            (Question::Read(_), Answer::Listed(Some(dir))) => self.read(dir),
            (Question::Read(_), Answer::Listed(None)) => WalkState {
                stack: self.stack.drop_last(),
                ..self
            },
            (Question::Stat(root), Answer::Device(dev)) => WalkState {
                ahead: self.ahead.drop_first(),
                root_dev: dev,
                stack: seq![root],
                ..self
            },
            _ => self,
        }
    }
}

/// Applies the rule for a directory entry.
pub fn judge(root_dev: Option<u64>, entry: &DirEntry) -> (r: Verdict)
    ensures
        r == verdict(root_dev, entry@),
{
    let name = entry.name.as_slice();
    if entry.kind != EntryKind::Directory || begins_with(name, DOT) || is_text(name, "node_modules")
        || is_text(name, "Library") || !same_filesystem(root_dev, entry.dev) {
        Verdict::Skip
    } else if is_text(name, "target") {
        Verdict::Candidate
    } else {
        Verdict::Descend
    }
}

/// Walks each root for `target/` directories that something vouches for,
/// leaving out any target in `seen` and never reporting one twice across
/// roots.
pub fn scan(roots: Vec<Vec<u8>>, seen: Vec<Vec<u8>>) -> (r: Walk)
    ensures
        r@ == WalkState::start(text::contents(roots@), text::contents(seen@)),
{
    let r = Walk {
        ahead: roots,
        root_dev: None,
        stack: Vec::new(),
        has_manifest: false,
        candidates: Vec::new(),
        emitted: seen,
        hits: Vec::new(),
    };
    assert(r@ =~= WalkState::start(text::contents(roots@), text::contents(seen@)));
    r
}

impl Walk {
    /// What the walk wants to know next.
    pub fn request(&self) -> (r: WalkRequest)
        ensures
            r@ == self@.question(),
    {
        if self.candidates.len() > 0 {
            WalkRequest::Probe(copy_bytes(self.candidates[0].as_slice()))
        } else if self.stack.len() > 0 {
            WalkRequest::Read(copy_bytes(self.stack[self.stack.len() - 1].as_slice()))
        } else if self.ahead.len() > 0 {
            WalkRequest::Stat(copy_bytes(self.ahead[0].as_slice()))
        } else {
            WalkRequest::Finished
        }
    }

    /// Takes the reply to a request.
    pub fn answer(self, reply: WalkReply) -> (r: Walk)
        ensures
            r@ == self@.next(reply@),
    {
        let mut w = self;
        if w.candidates.len() > 0 {
            match reply {
                WalkReply::Probed { found, canonical } => w.take_probe(&found, canonical),
                _ => w,
            }
        } else if w.stack.len() > 0 {
            match reply {
                WalkReply::Listed(Some(listing)) => w.take_listing(&listing),
                WalkReply::Listed(None) => {
                    w.stack.pop();
                    assert(w@ =~= self@.next(reply@));
                    w
                },
                _ => w,
            }
        } else if w.ahead.len() > 0 {
            match reply {
                WalkReply::Device(dev) => {
                    w.root_dev = dev;
                    let root = w.ahead.remove(0);
                    w.stack.push(root);
                    assert(w@ =~= self@.next(reply@));
                    w
                },
                _ => w,
            }
        } else {
            w
        }
    }

    fn take_probe(self, found: &Evidence, canonical: Option<Vec<u8>>) -> (r: Walk)
        requires
            self.candidates@.len() > 0,
        ensures
            r@ == self@.probed(found.vouches(), bytes_of(canonical)),
    {
        let mut w = self;
        let markers = is_cargo_target(found);
        let target = w.candidates.remove(0);
        let ghost rest = WalkState { candidates: self@.candidates.drop_first(), ..self@ };
        assert(w@ =~= rest);
        if !w.has_manifest && !markers {
            return w;
        }
        let place = match canonical {
            Some(p) => p,
            None => copy_bytes(target.as_slice()),
        };
        if is_listed(&w.emitted, place.as_slice()) {
            return w;
        }
        let verified = w.has_manifest && markers;
        w.emitted.push(place);
        w.hits.push(ScanHit { target, verified });
        assert(w@ =~= self@.probed(found.vouches(), bytes_of(canonical)));
        w
    }

    fn take_listing(self, listing: &Listing) -> (r: Walk)
        requires
            self.stack@.len() > 0,
        ensures
            r@ == self@.read(listing@),
    {
        let ghost at = self@.stack.last();
        let ghost entries = listing@.entries;
        let ghost below = self@.stack.drop_last();
        let mut w = self;
        let dir = match w.stack.pop() {
            Some(dir) => dir,
            None => Vec::new(),
        };
        assert(dir@ == at);
        w.has_manifest = listing.has_manifest;
        w.candidates = Vec::new();
        assert(text::contents(w.stack@) =~= below + picked(
            at,
            w.root_dev,
            entries,
            0,
            Verdict::Descend,
        ));
        assert(text::contents(w.candidates@) =~= picked(
            at,
            w.root_dev,
            entries,
            0,
            Verdict::Candidate,
        ));
        let mut i: usize = 0;
        while i < listing.entries.len()
            invariant
                i <= listing.entries@.len(),
                entries == listing@.entries,
                dir@ == at,
                w.ahead == self.ahead,
                w.root_dev == self.root_dev,
                w.has_manifest == listing.has_manifest,
                w.emitted == self.emitted,
                w.hits == self.hits,
                text::contents(w.stack@) == below + picked(
                    at,
                    self.root_dev,
                    entries,
                    i as int,
                    Verdict::Descend,
                ),
                text::contents(w.candidates@) == picked(
                    at,
                    self.root_dev,
                    entries,
                    i as int,
                    Verdict::Candidate,
                ),
            decreases listing.entries@.len() - i,
        {
            let entry = &listing.entries[i];
            assert(entries[i as int] == entry@);
            let ghost stack = text::contents(w.stack@);
            let ghost candidates = text::contents(w.candidates@);
            match judge(w.root_dev, entry) {
                Verdict::Skip => {},
                Verdict::Descend => {
                    let p = join_path(dir.as_slice(), entry.name.as_slice());
                    let ghost joined = p@;
                    w.stack.push(p);
                    assert(text::contents(w.stack@) =~= stack.push(joined));
                    assert(text::contents(w.stack@) =~= below + picked(
                        at,
                        self.root_dev,
                        entries,
                        i + 1,
                        Verdict::Descend,
                    ));
                },
                Verdict::Candidate => {
                    let p = join_path(dir.as_slice(), entry.name.as_slice());
                    let ghost joined = p@;
                    w.candidates.push(p);
                    assert(text::contents(w.candidates@) =~= candidates.push(joined));
                },
            }
            i = i + 1;
        }
        assert(w@ =~= self@.read(listing@));
        w
    }

    /// The targets found so far, in the order in which they were found.
    pub fn hits(&self) -> (r: &Vec<ScanHit>)
        ensures
            hits_of(r@) == self@.hits,
    {
        &self.hits
    }

    /// Ends the walk and hands out what was found.
    pub fn into_hits(self) -> (r: Vec<ScanHit>)
        ensures
            hits_of(r@) == self@.hits,
    {
        self.hits
    }
}

} // verus!
