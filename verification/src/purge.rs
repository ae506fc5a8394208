//! `cargo overstay purge`: delete recorded build targets, and, where asked to,
//! targets that a scan of the disk finds.
//!
//! Deletion confidence is tiered. A directory is deleted outright only when
//! cargo's own droppings prove that cargo built it, whether it was recorded or
//! found by the scan beside a `Cargo.toml`. Weaker hits from either source are
//! listed and gated behind one confirmation. A `target/` nothing vouches for
//! is never listed, never touched.
//!
//! A purge deletes nothing by itself: it names the one thing it wants done
//! next and takes the reply.

use vstd::prelude::*;
use vstd::string::*;
use vstd::utf8::*;

use crate::scan::{is_cargo_target, Evidence};
use crate::store::Project;
use crate::text;
use crate::text::copy_bytes;
use crate::walk;
use crate::walk::{scan, Answer, Hit, ScanHit, Walk, WalkReply, WalkRequest, WalkState};

verus! {

/// What a purge did.
#[derive(Clone, Copy)]
pub struct Summary {
    pub freed: u64,
    pub deleted: usize,
    pub locked: usize,
}

/// A target that is deleted only where the user agrees.
pub struct UnsureHit {
    pub target: Vec<u8>,
    pub size: u64,
}

/// What came of deleting a target behind cargo's build lock.
#[derive(Clone, Copy)]
pub enum Deletion {
    /// A build holds the lock. Nothing was touched.
    Locked,
    /// The sizes of the directory before and after it was removed.
    Removed { before: u64, after: u64 },
}

impl Deletion {
    /// The bytes that a deletion gave back.
    pub open spec fn gain(self) -> int {
        match self {
            Deletion::Locked => 0,
            Deletion::Removed { before, after } => if before > after {
                before - after
            } else {
                0
            },
        }
    }

    /// The bytes that a deletion gave back. A directory that grew meanwhile
    /// gave back nothing.
    pub fn freed(&self) -> (r: u64)
        ensures
            r == self.gain(),
    {
        match self {
            Deletion::Locked => 0,
            Deletion::Removed { before, after } => before.saturating_sub(*after),
        }
    }
}

impl Summary {
    /// A purge that did nothing yet.
    pub open spec fn zero() -> Summary {
        Summary { freed: 0, deleted: 0, locked: 0 }
    }

    /// The counters can take one more deletion.
    pub open spec fn fits(self, outcome: Deletion) -> bool {
        match outcome {
            Deletion::Locked => self.locked < usize::MAX,
            Deletion::Removed { .. } => self.deleted < usize::MAX && self.freed + outcome.gain()
                <= u64::MAX,
        }
    }

    /// The counters after one more deletion.
    pub open spec fn plus(self, outcome: Deletion) -> Summary {
        match outcome {
            Deletion::Locked => Summary { locked: (self.locked + 1) as usize, ..self },
            Deletion::Removed { .. } => Summary {
                freed: (self.freed + outcome.gain()) as u64,
                deleted: (self.deleted + 1) as usize,
                ..self
            },
        }
    }

    /// Tests whether the counters can take one more deletion.
    pub fn has_room(&self, outcome: &Deletion) -> (r: bool)
        ensures
            r == self.fits(*outcome),
    {
        match outcome {
            Deletion::Locked => self.locked < usize::MAX,
            Deletion::Removed { .. } => self.deleted < usize::MAX && self.freed <= u64::MAX
                - outcome.freed(),
        }
    }

    fn count(self, outcome: &Deletion) -> (r: Summary)
        requires
            self.fits(*outcome),
        ensures
            r == self.plus(*outcome),
    {
        match outcome {
            Deletion::Locked => Summary { locked: self.locked + 1, ..self },
            Deletion::Removed { .. } => Summary {
                freed: self.freed + outcome.freed(),
                deleted: self.deleted + 1,
                ..self
            },
        }
    }
}

/// What is found at the place of a recorded target that is a directory.
pub struct Inspection {
    pub canonical: Option<Vec<u8>>,
    pub found: Evidence,
}

/// A record, and whether there still is a directory at its place.
pub struct RowState {
    pub target_dir: String,
    pub is_dir: bool,
}

/// What a purge wants done next.
pub enum PurgeRequest {
    /// Look at a recorded target.
    Inspect(Vec<u8>),
    /// Delete a target behind cargo's build lock.
    Delete(Vec<u8>),
    /// Measure a target that is gated behind the confirmation.
    Measure(Vec<u8>),
    /// Go on with the scan.
    Walk(WalkRequest),
    /// Ask the user whether the unsure targets may be deleted too.
    Confirm,
    /// Read the records again, and whether their targets are directories.
    Recheck,
    /// Remove records.
    Prune(Vec<String>),
    /// Nothing: the purge is over.
    Finished,
}

/// The reply to a request.
pub enum PurgeReply {
    /// To `Inspect`: nothing where the target is no directory.
    Inspected(Option<Inspection>),
    Deleted(Deletion),
    Measured(u64),
    Walked(WalkReply),
    Confirmed(bool),
    Rows(Vec<RowState>),
    Pruned,
}

/// The list of targets that is worked on.
#[derive(Clone, Copy, PartialEq, Eq, Structural)]
pub enum Phase {
    /// The recorded targets.
    Recorded,
    /// The targets that the scan found.
    Scanned,
    /// The unsure targets from a position on, once the user agreed.
    Gated(usize),
}

enum Stage {
    Inspect(Vec<u8>),
    Delete(Vec<u8>, Phase),
    Measure(Vec<u8>, Phase),
    Walk(Walk),
    Confirm,
    Recheck,
    Prune(Vec<String>),
    Finished,
}

/// A purge under way.
pub struct Purge {
    recorded: Vec<Vec<u8>>,
    roots: Vec<Vec<u8>>,
    seen: Vec<Vec<u8>>,
    hits: Vec<ScanHit>,
    unsure: Vec<UnsureHit>,
    summary: Summary,
    stage: Stage,
}

/// The model of an unsure target.
pub struct Gate {
    pub target: Seq<u8>,
    pub size: u64,
}

/// The model of a recorded target that is a directory.
pub struct Present {
    pub canonical: Option<Seq<u8>>,
    pub markers: bool,
}

/// The model of a record that was read again.
pub struct Row {
    pub target_dir: Seq<char>,
    pub is_dir: bool,
}

/// The model of a reply.
pub enum Outcome {
    Inspected(Option<Present>),
    Deleted(Deletion),
    Measured(u64),
    Walked(Answer),
    Confirmed(bool),
    Rows(Seq<Row>),
    Pruned,
}

/// The model of what a purge waits for.
pub enum Task {
    Inspect(Seq<u8>),
    Delete(Seq<u8>, Phase),
    Measure(Seq<u8>, Phase),
    Walk(WalkState),
    Confirm,
    Recheck,
    Prune(Seq<Seq<char>>),
    Finished,
}

/// The model of a purge under way.
#[verifier::ext_equal]
pub struct PurgeState {
    /// The recorded targets that were not looked at.
    pub recorded: Seq<Seq<u8>>,
    /// The directories to scan.
    pub roots: Seq<Seq<u8>>,
    /// The canonical paths of the recorded targets that are directories.
    pub seen: Seq<Seq<u8>>,
    /// What the scan found and was not worked on.
    pub hits: Seq<Hit>,
    /// What is deleted only where the user agrees.
    pub unsure: Seq<Gate>,
    pub summary: Summary,
    pub task: Task,
}

impl View for UnsureHit {
    type V = Gate;

    open spec fn view(&self) -> Gate {
        Gate { target: self.target@, size: self.size }
    }
}

/// The models of unsure targets, one by one.
pub open spec fn gates(hits: Seq<UnsureHit>) -> Seq<Gate> {
    Seq::new(hits.len(), |i: int| hits[i]@)
}

/// The texts of strings, one by one.
pub open spec fn texts(v: Seq<String>) -> Seq<Seq<char>> {
    Seq::new(v.len(), |i: int| v[i]@)
}

/// The models of records, one by one.
pub open spec fn rows_of(rows: Seq<RowState>) -> Seq<Row> {
    Seq::new(
        rows.len(),
        |i: int| Row { target_dir: rows[i].target_dir@, is_dir: rows[i].is_dir },
    )
}

impl View for PurgeReply {
    type V = Outcome;

    open spec fn view(&self) -> Outcome {
        match self {
            PurgeReply::Inspected(None) => Outcome::Inspected(None),
            PurgeReply::Inspected(Some(at)) => Outcome::Inspected(
                Some(
                    Present {
                        canonical: walk::bytes_of(at.canonical),
                        markers: at.found.vouches(),
                    },
                ),
            ),
            PurgeReply::Deleted(outcome) => Outcome::Deleted(*outcome),
            PurgeReply::Measured(size) => Outcome::Measured(*size),
            PurgeReply::Walked(reply) => Outcome::Walked(reply@),
            PurgeReply::Confirmed(yes) => Outcome::Confirmed(*yes),
            PurgeReply::Rows(rows) => Outcome::Rows(rows_of(rows@)),
            PurgeReply::Pruned => Outcome::Pruned,
        }
    }
}

impl Stage {
    spec fn task(self) -> Task {
        match self {
            Stage::Inspect(p) => Task::Inspect(p@),
            Stage::Delete(p, phase) => Task::Delete(p@, phase),
            Stage::Measure(p, phase) => Task::Measure(p@, phase),
            Stage::Walk(w) => Task::Walk(w@),
            Stage::Confirm => Task::Confirm,
            Stage::Recheck => Task::Recheck,
            Stage::Prune(rows) => Task::Prune(texts(rows@)),
            Stage::Finished => Task::Finished,
        }
    }
}

impl View for Purge {
    type V = PurgeState;

    closed spec fn view(&self) -> PurgeState {
        PurgeState {
            recorded: text::contents(self.recorded@),
            roots: text::contents(self.roots@),
            seen: text::contents(self.seen@),
            hits: walk::hits_of(self.hits@),
            unsure: gates(self.unsure@),
            summary: self.summary,
            task: self.stage.task(),
        }
    }
}

/// A request asks for what a purge waits for.
pub open spec fn asks_for(request: PurgeRequest, task: Task) -> bool {
    match (request, task) {
        (PurgeRequest::Inspect(p), Task::Inspect(q)) => p@ == q,
        (PurgeRequest::Delete(p), Task::Delete(q, _)) => p@ == q,
        (PurgeRequest::Measure(p), Task::Measure(q, _)) => p@ == q,
        (PurgeRequest::Walk(request), Task::Walk(w)) => request@ == w.question(),
        (PurgeRequest::Confirm, Task::Confirm) => true,
        (PurgeRequest::Recheck, Task::Recheck) => true,
        (PurgeRequest::Prune(rows), Task::Prune(gone)) => texts(rows@) == gone,
        (PurgeRequest::Finished, Task::Finished) => true,
        _ => false,
    }
}

/// The first `n` records whose target is no directory.
pub open spec fn gone(rows: Seq<Row>, n: int) -> Seq<Seq<char>>
    decreases n,
{
    if n <= 0 {
        Seq::empty()
    } else if rows[n - 1].is_dir {
        gone(rows, n - 1)
    } else {
        gone(rows, n - 1).push(rows[n - 1].target_dir)
    }
}

impl PurgeState {
    /// A purge of recorded targets that may scan some roots.
    pub open spec fn start(recorded: Seq<Seq<u8>>, roots: Seq<Seq<u8>>) -> PurgeState {
        PurgeState {
            recorded,
            roots,
            seen: Seq::empty(),
            hits: Seq::empty(),
            unsure: Seq::empty(),
            summary: Summary::zero(),
            task: Task::Finished,
        }.proceed(Phase::Recorded)
    }

    /// The purge with the next finding of the scan to work on. With none left
    /// the user is asked about the unsure targets, where there are any.
    pub open spec fn take_hit(self) -> PurgeState {
        if self.hits.len() > 0 {
            let hit = self.hits[0];
            PurgeState {
                hits: self.hits.drop_first(),
                task: if hit.verified {
                    Task::Delete(hit.target, Phase::Scanned)
                } else {
                    Task::Measure(hit.target, Phase::Scanned)
                },
                ..self
            }
        } else if self.unsure.len() > 0 {
            PurgeState { task: Task::Confirm, ..self }
        } else {
            PurgeState { task: Task::Recheck, ..self }
        }
    }

    /// The purge with its scan in a given state. A scan that is over hands
    /// over its findings.
    pub open spec fn scanning(self, w: WalkState) -> PurgeState {
        if w.question() is Finished {
            PurgeState { hits: w.hits, ..self }.take_hit()
        } else {
            PurgeState { task: Task::Walk(w), ..self }
        }
    }

    /// The purge with the next piece of work, once a list is worked on up to
    /// some point: the recorded targets first, then the scan and what it
    /// found, then the unsure ones, then the records.
    pub open spec fn proceed(self, phase: Phase) -> PurgeState {
        match phase {
            Phase::Recorded => if self.recorded.len() > 0 {
                PurgeState {
                    recorded: self.recorded.drop_first(),
                    task: Task::Inspect(self.recorded[0]),
                    ..self
                }
            } else {
                PurgeState { roots: Seq::empty(), seen: Seq::empty(), ..self }.scanning(
                    WalkState::start(self.roots, self.seen),
                )
            },
            Phase::Scanned => self.take_hit(),
            Phase::Gated(k) => if k < self.unsure.len() {
                PurgeState {
                    task: Task::Delete(
                        self.unsure[k as int].target,
                        Phase::Gated((k + 1) as usize),
                    ),
                    ..self
                }
            } else {
                PurgeState { task: Task::Recheck, ..self }
            },
        }
    }

    /// The purge after a recorded target turned out to be a directory. Its
    /// canonical path keeps the scan from finding it again. With cargo's
    /// markers it is deleted, without them it is gated.
    pub open spec fn present(self, target: Seq<u8>, at: Present) -> PurgeState {
        PurgeState {
            seen: match at.canonical {
                Some(p) => self.seen.push(p),
                None => self.seen,
            },
            task: if at.markers {
                Task::Delete(target, Phase::Recorded)
            } else {
                Task::Measure(target, Phase::Recorded)
            },
            ..self
        }
    }

    /// The purge after a reply. One that does not fit changes nothing.
    pub open spec fn next(self, outcome: Outcome) -> PurgeState {
        match (self.task, outcome) {
            (Task::Inspect(_), Outcome::Inspected(None)) => self.proceed(Phase::Recorded),
            (Task::Inspect(target), Outcome::Inspected(Some(at))) => self.present(target, at),
            (Task::Delete(_, phase), Outcome::Deleted(deletion)) => PurgeState {
                summary: self.summary.plus(deletion),
                ..self
            }.proceed(phase),
            (Task::Measure(target, phase), Outcome::Measured(size)) => PurgeState {
                unsure: self.unsure.push(Gate { target, size }),
                ..self
            }.proceed(phase),
            (Task::Walk(w), Outcome::Walked(answer)) => self.scanning(w.next(answer)),
            (Task::Confirm, Outcome::Confirmed(true)) => self.proceed(Phase::Gated(0)),
            (Task::Confirm, Outcome::Confirmed(false)) => PurgeState {
                task: Task::Recheck,
                ..self
            },
            (Task::Recheck, Outcome::Rows(rows)) => PurgeState {
                task: Task::Prune(gone(rows, rows.len() as int)),
                ..self
            },
            (Task::Prune(_), Outcome::Pruned) => PurgeState { task: Task::Finished, ..self },
            _ => self,
        }
    }

    /// The counters can take what a reply reports.
    pub open spec fn can_take(self, outcome: Outcome) -> bool {
        self.task is Delete ==> (outcome matches Outcome::Deleted(deletion) ==> self.summary.fits(
            deletion,
        ))
    }
}

/// The recorded targets of projects.
pub open spec fn targets_of(projects: Seq<Project>) -> Seq<Seq<u8>> {
    Seq::new(projects.len(), |i: int| encode_utf8(projects[i].target_dir@))
}

/// Lists the recorded targets of projects.
pub fn recorded_targets(projects: &Vec<Project>) -> (r: Vec<Vec<u8>>)
    ensures
        text::contents(r@) == targets_of(projects@),
{
    let mut r: Vec<Vec<u8>> = Vec::new();
    let mut i: usize = 0;
    while i < projects.len()
        invariant
            i == r@.len() <= projects@.len(),
            forall|j: int|
                0 <= j < i ==> (#[trigger] r@[j])@ == encode_utf8(projects@[j].target_dir@),
        decreases projects@.len() - i,
    {
        r.push(projects[i].target_dir.as_str().as_bytes_vec());
        i = i + 1;
    }
    assert(text::contents(r@) =~= targets_of(projects@));
    r
}

/// Begins to purge the recorded targets, and those that a scan of
/// `scan_roots` finds.
pub fn purge(projects: &Vec<Project>, scan_roots: Vec<Vec<u8>>) -> (r: Purge)
    ensures
        r@ == PurgeState::start(targets_of(projects@), text::contents(scan_roots@)),
{
    let recorded = recorded_targets(projects);
    let p = Purge {
        recorded,
        roots: scan_roots,
        seen: Vec::new(),
        hits: Vec::new(),
        unsure: Vec::new(),
        summary: Summary { freed: 0, deleted: 0, locked: 0 },
        stage: Stage::Finished,
    };
    assert(p@ =~= PurgeState {
        recorded: targets_of(projects@),
        roots: text::contents(scan_roots@),
        seen: Seq::empty(),
        hits: Seq::empty(),
        unsure: Seq::empty(),
        summary: Summary::zero(),
        task: Task::Finished,
    });
    p.proceed(Phase::Recorded)
}

fn prune_list(rows: &Vec<RowState>) -> (r: Vec<String>)
    ensures
        texts(r@) == gone(rows_of(rows@), rows@.len() as int),
{
    let mut r: Vec<String> = Vec::new();
    let mut i: usize = 0;
    assert(texts(r@) =~= gone(rows_of(rows@), 0));
    while i < rows.len()
        invariant
            i <= rows@.len(),
            texts(r@) == gone(rows_of(rows@), i as int),
        decreases rows@.len() - i,
    {
        if !rows[i].is_dir {
            let ghost before = texts(r@);
            r.push(rows[i].target_dir.clone());
            assert(texts(r@) =~= before.push(rows@[i as int].target_dir@));
        }
        i = i + 1;
    }
    r
}

impl Purge {
    /// What the purge wants done next.
    pub fn request(&self) -> (r: PurgeRequest)
        ensures
            asks_for(r, self@.task),
    {
        match &self.stage {
            Stage::Inspect(p) => PurgeRequest::Inspect(copy_bytes(p.as_slice())),
            Stage::Delete(p, _) => PurgeRequest::Delete(copy_bytes(p.as_slice())),
            Stage::Measure(p, _) => PurgeRequest::Measure(copy_bytes(p.as_slice())),
            Stage::Walk(w) => PurgeRequest::Walk(w.request()),
            Stage::Confirm => PurgeRequest::Confirm,
            Stage::Recheck => PurgeRequest::Recheck,
            Stage::Prune(rows) => {
                let r = rows.clone();
                assert(texts(r@) =~= texts(rows@));
                PurgeRequest::Prune(r)
            },
            Stage::Finished => PurgeRequest::Finished,
        }
    }

    /// The targets that the user is asked about.
    pub fn unsure(&self) -> (r: &Vec<UnsureHit>)
        ensures
            gates(r@) == self@.unsure,
    {
        &self.unsure
    }

    /// What was done so far.
    pub fn summary(&self) -> (r: Summary)
        ensures
            r == self@.summary,
    {
        self.summary
    }

    fn proceed(self, phase: Phase) -> (r: Purge)
        ensures
            r@ == self@.proceed(phase),
    {
        let mut p = self;
        match phase {
            Phase::Recorded => {
                if p.recorded.len() > 0 {
                    let target = p.recorded.remove(0);
                    p.stage = Stage::Inspect(target);
                    assert(p@ =~= self@.proceed(phase));
                    return p;
                }
                let w = scan(p.roots, p.seen);
                let moved = Purge {
                    recorded: p.recorded,
                    roots: Vec::new(),
                    seen: Vec::new(),
                    hits: p.hits,
                    unsure: p.unsure,
                    summary: p.summary,
                    stage: p.stage,
                };
                assert(moved@ =~= PurgeState { roots: Seq::empty(), seen: Seq::empty(), ..self@ });
                moved.scanning(w)
            },
            Phase::Scanned => p.take_hit(),
            Phase::Gated(k) => {
                if k < p.unsure.len() {
                    p.stage = Stage::Delete(
                        copy_bytes(p.unsure[k].target.as_slice()),
                        Phase::Gated(k + 1),
                    );
                } else {
                    p.stage = Stage::Recheck;
                }
                assert(p@ =~= self@.proceed(phase));
                p
            },
        }
    }

    fn take_hit(self) -> (r: Purge)
        ensures
            r@ == self@.take_hit(),
    {
        let mut p = self;
        if p.hits.len() > 0 {
            let hit = p.hits.remove(0);
            p.stage = if hit.verified {
                Stage::Delete(hit.target, Phase::Scanned)
            } else {
                Stage::Measure(hit.target, Phase::Scanned)
            };
        } else if p.unsure.len() > 0 {
            p.stage = Stage::Confirm;
        } else {
            p.stage = Stage::Recheck;
        }
        assert(p@ =~= self@.take_hit());
        p
    }

    fn scanning(self, w: Walk) -> (r: Purge)
        ensures
            r@ == self@.scanning(w@),
    {
        let mut p = self;
        match w.request() {
            WalkRequest::Finished => {
                p.hits = w.into_hits();
                assert(p@ =~= PurgeState { hits: w@.hits, ..self@ });
                p.take_hit()
            },
            _ => {
                p.stage = Stage::Walk(w);
                assert(p@ =~= self@.scanning(w@));
                p
            },
        }
    }

    /// Takes the reply to a request.
    pub fn answer(self, reply: PurgeReply) -> (r: Purge)
        requires
            self@.can_take(reply@),
        ensures
            r@ == self@.next(reply@),
    {
        let Purge { recorded, roots, mut seen, hits, mut unsure, mut summary, stage } = self;
        match (stage, reply) {
            (Stage::Inspect(target), PurgeReply::Inspected(None)) => {
                let stage = Stage::Inspect(target);
                Purge { recorded, roots, seen, hits, unsure, summary, stage }.proceed(Phase::Recorded)
            },
            (Stage::Inspect(target), PurgeReply::Inspected(Some(at))) => {
                let markers = is_cargo_target(&at.found);
                if let Some(p) = at.canonical {
                    seen.push(p);
                }
                let stage = if markers {
                    Stage::Delete(target, Phase::Recorded)
                } else {
                    Stage::Measure(target, Phase::Recorded)
                };
                let r = Purge { recorded, roots, seen, hits, unsure, summary, stage };
                assert(r@ =~= self@.next(reply@));
                r
            },
            (Stage::Delete(target, phase), PurgeReply::Deleted(deletion)) => {
                summary = summary.count(&deletion);
                let stage = Stage::Delete(target, phase);
                Purge { recorded, roots, seen, hits, unsure, summary, stage }.proceed(phase)
            },
            (Stage::Measure(target, phase), PurgeReply::Measured(size)) => {
                let stage = Stage::Measure(copy_bytes(target.as_slice()), phase);
                unsure.push(UnsureHit { target, size });
                let p = Purge { recorded, roots, seen, hits, unsure, summary, stage };
                assert(p@ =~= PurgeState {
                    unsure: self@.unsure.push(Gate { target: target@, size }),
                    ..self@
                });
                p.proceed(phase)
            },
            (Stage::Walk(w), PurgeReply::Walked(walked)) => {
                let stage = Stage::Finished;
                let p = Purge { recorded, roots, seen, hits, unsure, summary, stage };
                p.scanning(w.answer(walked))
            },
            (Stage::Confirm, PurgeReply::Confirmed(yes)) => {
                let stage = Stage::Recheck;
                let p = Purge { recorded, roots, seen, hits, unsure, summary, stage };
                if yes {
                    p.proceed(Phase::Gated(0))
                } else {
                    p
                }
            },
            (Stage::Recheck, PurgeReply::Rows(rows)) => {
                let stage = Stage::Prune(prune_list(&rows));
                Purge { recorded, roots, seen, hits, unsure, summary, stage }
            },
            (Stage::Prune(_), PurgeReply::Pruned) => {
                let stage = Stage::Finished;
                Purge { recorded, roots, seen, hits, unsure, summary, stage }
            },
            (stage, _) => Purge { recorded, roots, seen, hits, unsure, summary, stage },
        }
    }
}

} // verus!
