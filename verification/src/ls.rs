//! The `ls` command from its arguments to its exit code. It changes nothing:
//! none of its requests does.

use vstd::prelude::*;
use vstd::string::*;

use crate::ls_text;
use crate::ls_text::{
    write_closing, write_recorded_section, write_untracked_section, Policy, Size, SizedHit,
};
use crate::messages;
use crate::messages::{write_complaint, write_not_a_directory, write_usage_error};
use crate::purge;
use crate::purge::recorded_targets;
use crate::rank;
use crate::rank::rank;
use crate::scan;
use crate::scan::{parse_args, Candidate, Scan};
use crate::store::Project;
use crate::style::Style;
use crate::text;
use crate::text::{copy_all, copy_bytes};
use crate::walk;
use crate::walk::{scan, Answer, ScanHit, Walk, WalkReply, WalkRequest, WalkState};

verus! {

/// What the command wants done next.
pub enum LsRequest {
    /// Write a message to the error stream and exit.
    Reject { message: String, code: i32 },
    /// Read the size limits.
    LoadPolicy,
    /// Find out whether the scan root is a directory.
    CheckDir(Vec<u8>),
    /// Warn the user where their builds are not recorded.
    WarnIfInactive,
    /// Read the records and the clock.
    ReadRows,
    /// Measure the targets that are directories.
    MeasureRows(Vec<Vec<u8>>),
    /// Write to the output stream.
    Print(String),
    /// Find the canonical paths.
    Canonicalize(Vec<Vec<u8>>),
    /// Look at the usual places for a scan.
    ResolveUsual,
    /// Go on with the scan.
    Walk(WalkRequest),
    /// Measure the targets that the scan found.
    MeasureHits(Vec<Vec<u8>>),
    /// Write a size out.
    FormatSize(u64),
    Exit(i32),
}

/// The reply to a request.
pub enum LsReply {
    Policy(Result<Policy, String>),
    DirChecked(bool),
    Warned,
    Rows { projects: Vec<Project>, now: i64 },
    RowSizes(Vec<Option<Size>>),
    Printed,
    Canonical(Vec<Option<Vec<u8>>>),
    Resolved(Vec<Candidate>),
    Walked(WalkReply),
    HitSizes(Vec<Size>),
    Formatted(String),
}

enum LsStage {
    Reject(String),
    LoadPolicy,
    CheckDir(Vec<u8>),
    Warn,
    ReadRows,
    MeasureRows,
    ShowRows(String),
    Canonicalize,
    Resolve(Vec<Vec<u8>>),
    Walking(Walk),
    MeasureHits(Vec<ScanHit>),
    ShowHits(String),
    FormatTotal,
    FormatBudget(String),
    FormatUntracked(String, String),
    Close(String),
    Exit,
}

/// The command under way.
pub struct Ls {
    style: Style,
    error_style: Style,
    scan: Scan,
    policy: Policy,
    projects: Vec<Project>,
    now: i64,
    recorded_bytes: u64,
    missing: usize,
    roots: Vec<Vec<u8>>,
    found_bytes: u64,
    stage: LsStage,
}

/// The model of what the command waits for.
pub enum LsTask {
    /// Refuse, with a message.
    Reject(Seq<char>),
    LoadPolicy,
    CheckDir(Seq<u8>),
    Warn,
    ReadRows,
    MeasureRows,
    /// Show the recorded projects.
    ShowRows(Seq<char>),
    Canonicalize,
    /// Look at the usual places, then scan them leaving out some targets.
    Resolve(Seq<Seq<u8>>),
    Walking(WalkState),
    MeasureHits(Seq<ScanHit>),
    /// Show what the scan found.
    ShowHits(Seq<char>),
    /// Have the sum for the recorded targets written out.
    FormatTotal,
    /// Have the budget written out.
    FormatBudget(Seq<char>),
    /// Have the sum for the other targets written out.
    FormatUntracked(Seq<char>, Seq<char>),
    /// Show the sums.
    Close(Seq<char>),
    Exit,
}

/// The model of a reply.
pub enum LsOutcome {
    Policy(Result<Policy, Seq<char>>),
    DirChecked(bool),
    Warned,
    Rows { projects: Seq<Project>, now: i64 },
    RowSizes(Seq<Option<Size>>),
    Printed,
    Canonical(Seq<Option<Vec<u8>>>),
    Resolved(Seq<Candidate>),
    Walked(Answer),
    HitSizes(Seq<Size>),
    Formatted(Seq<char>),
}

/// The model of the command under way.
#[verifier::ext_equal]
pub struct LsState {
    pub style: Style,
    pub error_style: Style,
    pub scan: Scan,
    pub policy: Policy,
    /// The recorded projects, the one used last first.
    pub projects: Seq<Project>,
    pub now: i64,
    pub recorded_bytes: u64,
    pub missing: usize,
    /// The directories that are scanned.
    pub roots: Seq<Seq<u8>>,
    pub found_bytes: u64,
    pub task: LsTask,
}

impl View for LsReply {
    type V = LsOutcome;

    open spec fn view(&self) -> LsOutcome {
        match self {
            LsReply::Policy(Ok(policy)) => LsOutcome::Policy(Ok(*policy)),
            LsReply::Policy(Err(error)) => LsOutcome::Policy(Err(error@)),
            LsReply::DirChecked(yes) => LsOutcome::DirChecked(*yes),
            LsReply::Warned => LsOutcome::Warned,
            LsReply::Rows { projects, now } => LsOutcome::Rows { projects: projects@, now: *now },
            LsReply::RowSizes(sizes) => LsOutcome::RowSizes(sizes@),
            LsReply::Printed => LsOutcome::Printed,
            LsReply::Canonical(places) => LsOutcome::Canonical(places@),
            LsReply::Resolved(candidates) => LsOutcome::Resolved(candidates@),
            LsReply::Walked(reply) => LsOutcome::Walked(reply@),
            LsReply::HitSizes(sizes) => LsOutcome::HitSizes(sizes@),
            LsReply::Formatted(s) => LsOutcome::Formatted(s@),
        }
    }
}

impl LsStage {
    spec fn task(self) -> LsTask {
        match self {
            LsStage::Reject(message) => LsTask::Reject(message@),
            LsStage::LoadPolicy => LsTask::LoadPolicy,
            LsStage::CheckDir(root) => LsTask::CheckDir(root@),
            LsStage::Warn => LsTask::Warn,
            LsStage::ReadRows => LsTask::ReadRows,
            LsStage::MeasureRows => LsTask::MeasureRows,
            LsStage::ShowRows(s) => LsTask::ShowRows(s@),
            LsStage::Canonicalize => LsTask::Canonicalize,
            LsStage::Resolve(seen) => LsTask::Resolve(text::contents(seen@)),
            LsStage::Walking(w) => LsTask::Walking(w@),
            LsStage::MeasureHits(hits) => LsTask::MeasureHits(hits@),
            LsStage::ShowHits(s) => LsTask::ShowHits(s@),
            LsStage::FormatTotal => LsTask::FormatTotal,
            LsStage::FormatBudget(total) => LsTask::FormatBudget(total@),
            LsStage::FormatUntracked(total, budget) => LsTask::FormatUntracked(total@, budget@),
            LsStage::Close(s) => LsTask::Close(s@),
            LsStage::Exit => LsTask::Exit,
        }
    }
}

impl View for Ls {
    type V = LsState;

    closed spec fn view(&self) -> LsState {
        LsState {
            style: self.style,
            error_style: self.error_style,
            scan: self.scan,
            policy: self.policy,
            projects: self.projects@,
            now: self.now,
            recorded_bytes: self.recorded_bytes,
            missing: self.missing,
            roots: text::contents(self.roots@),
            found_bytes: self.found_bytes,
            task: self.stage.task(),
        }
    }
}

/// How the command is called.
pub open spec fn ls_usage() -> Seq<char> {
    "cargo overstay ls [--include-untracked [dir]]"@
}

/// The targets of hits, one by one.
pub open spec fn targets_found(hits: Seq<ScanHit>) -> Seq<Seq<u8>> {
    Seq::new(hits.len(), |i: int| hits[i].target@)
}

/// A request asks for what the command waits for. A refusal exits with 2, a
/// list that was shown with 0.
pub open spec fn ls_asks_for(request: LsRequest, s: LsState) -> bool {
    match (request, s.task) {
        (LsRequest::Reject { message, code }, LsTask::Reject(m)) => message@ == m && code == 2,
        (LsRequest::LoadPolicy, LsTask::LoadPolicy) => true,
        (LsRequest::CheckDir(root), LsTask::CheckDir(p)) => root@ == p,
        (LsRequest::WarnIfInactive, LsTask::Warn) => true,
        (LsRequest::ReadRows, LsTask::ReadRows) => true,
        (LsRequest::MeasureRows(targets), LsTask::MeasureRows) => text::contents(targets@)
            == purge::targets_of(s.projects),
        (LsRequest::Print(line), LsTask::ShowRows(l)) => line@ == l,
        (LsRequest::Canonicalize(targets), LsTask::Canonicalize) => text::contents(targets@)
            == purge::targets_of(s.projects),
        (LsRequest::ResolveUsual, LsTask::Resolve(_)) => true,
        (LsRequest::Walk(request), LsTask::Walking(w)) => request@ == w.question(),
        (LsRequest::MeasureHits(targets), LsTask::MeasureHits(hits)) => text::contents(targets@)
            == targets_found(hits),
        (LsRequest::Print(line), LsTask::ShowHits(l)) => line@ == l,
        (LsRequest::FormatSize(size), LsTask::FormatTotal) => size == s.recorded_bytes,
        (LsRequest::FormatSize(size), LsTask::FormatBudget(_)) => size == s.policy.max_total_cache,
        (LsRequest::FormatSize(size), LsTask::FormatUntracked(..)) => size == s.found_bytes,
        (LsRequest::Print(line), LsTask::Close(l)) => line@ == l,
        (LsRequest::Exit(code), LsTask::Exit) => code == 0,
        _ => false,
    }
}

/// The first `n` paths that could be found.
pub open spec fn found_places(places: Seq<Option<Vec<u8>>>, n: int) -> Seq<Seq<u8>>
    decreases n,
{
    if n <= 0 {
        Seq::empty()
    } else {
        match places[n - 1] {
            Some(p) => found_places(places, n - 1).push(p@),
            None => found_places(places, n - 1),
        }
    }
}

/// Hits and their sizes, one by one.
pub open spec fn sized(hits: Seq<ScanHit>, sizes: Seq<Size>) -> Seq<SizedHit> {
    Seq::new(hits.len(), |i: int| SizedHit { hit: hits[i], size: sizes[i] })
}

impl LsState {
    /// The command once its arguments are understood.
    pub open spec fn admitted(style: Style, error_style: Style, scan: Scan) -> LsState {
        LsState {
            style,
            error_style,
            scan,
            policy: Policy { max_project_size: 0, max_total_cache: 0 },
            projects: Seq::empty(),
            now: 0,
            recorded_bytes: 0,
            missing: 0,
            roots: Seq::empty(),
            found_bytes: 0,
            task: LsTask::LoadPolicy,
        }
    }

    /// The command with its scan in a given state. The hits of a scan that is
    /// over are measured.
    pub open spec fn is_walking(self, w: WalkState, next: LsState) -> bool {
        if w.question() is Finished {
            next.task matches LsTask::MeasureHits(hits) && walk::hits_of(hits) == w.hits && next
                == (LsState { task: LsTask::MeasureHits(hits), ..self })
        } else {
            next == (LsState { task: LsTask::Walking(w), ..self })
        }
    }

    /// The closing lines.
    pub open spec fn closing(
        self,
        total: Seq<char>,
        budget: Seq<char>,
        untracked: Option<Seq<char>>,
    ) -> Seq<char> {
        ls_text::closing(
            self.style,
            self.recorded_bytes > self.policy.max_total_cache,
            total,
            budget,
            untracked,
            self.missing as int,
        )
    }

    /// `next` is the command after a reply. A reply that does not fit changes
    /// nothing.
    pub open spec fn goes_to(self, reply: LsOutcome, next: LsState) -> bool {
        match (self.task, reply) {
            (LsTask::LoadPolicy, LsOutcome::Policy(Ok(policy))) => next == (LsState {
                policy,
                task: match self.scan {
                    Scan::Explicit(root) => LsTask::CheckDir(root@),
                    _ => LsTask::Warn,
                },
                ..self
            }),
            (LsTask::LoadPolicy, LsOutcome::Policy(Err(error))) => next == (LsState {
                task: LsTask::Reject(messages::complaint(self.error_style, error)),
                ..self
            }),
            (LsTask::CheckDir(root), LsOutcome::DirChecked(is_dir)) => next == (LsState {
                task: if is_dir {
                    LsTask::Warn
                } else {
                    LsTask::Reject(messages::not_a_directory(self.error_style, root))
                },
                ..self
            }),
            (LsTask::Warn, LsOutcome::Warned) => next == (LsState {
                task: LsTask::ReadRows,
                ..self
            }),
            (LsTask::ReadRows, LsOutcome::Rows { projects, now }) => next == (LsState {
                projects: rank::ranked(projects),
                now,
                task: LsTask::MeasureRows,
                ..self
            }),
            (LsTask::MeasureRows, LsOutcome::RowSizes(sizes)) => if sizes.len()
                == self.projects.len() {
                next == (LsState {
                    recorded_bytes: ls_text::recorded_bytes(sizes, sizes.len() as int) as u64,
                    missing: ls_text::missing_targets(sizes, sizes.len() as int) as usize,
                    task: LsTask::ShowRows(
                        ls_text::recorded_section(
                            self.style,
                            self.policy,
                            self.now as int,
                            self.projects,
                            sizes,
                        ),
                    ),
                    ..self
                })
            } else {
                next == self
            },
            (LsTask::ShowRows(_), LsOutcome::Printed) => next == (LsState {
                task: if self.scan is Off {
                    LsTask::FormatTotal
                } else {
                    LsTask::Canonicalize
                },
                ..self
            }),
            (LsTask::Canonicalize, LsOutcome::Canonical(places)) => {
                let seen = found_places(places, places.len() as int);
                if self.scan is Defaults {
                    next == (LsState { task: LsTask::Resolve(seen), ..self })
                } else {
                    let roots = self.scan.covered(Seq::empty());
                    (LsState { roots, ..self }).is_walking(WalkState::start(roots, seen), next)
                }
            },
            (LsTask::Resolve(seen), LsOutcome::Resolved(usual)) => {
                let roots = self.scan.covered(usual);
                (LsState { roots, ..self }).is_walking(WalkState::start(roots, seen), next)
            },
            (LsTask::Walking(w), LsOutcome::Walked(answer)) => self.is_walking(
                w.next(answer),
                next,
            ),
            (LsTask::MeasureHits(hits), LsOutcome::HitSizes(sizes)) => if sizes.len()
                == hits.len() {
                let found = rank::ranked(sized(hits, sizes));
                next == (LsState {
                    found_bytes: ls_text::found_bytes(found, found.len() as int) as u64,
                    task: LsTask::ShowHits(
                        ls_text::untracked_section(self.style, self.policy, self.roots, found),
                    ),
                    ..self
                })
            } else {
                next == self
            },
            (LsTask::ShowHits(_), LsOutcome::Printed) => next == (LsState {
                task: LsTask::FormatTotal,
                ..self
            }),
            (LsTask::FormatTotal, LsOutcome::Formatted(total)) => next == (LsState {
                task: LsTask::FormatBudget(total),
                ..self
            }),
            (LsTask::FormatBudget(total), LsOutcome::Formatted(budget)) => next == (LsState {
                task: if self.scan is Off {
                    LsTask::Close(self.closing(total, budget, None))
                } else {
                    LsTask::FormatUntracked(total, budget)
                },
                ..self
            }),
            (
                LsTask::FormatUntracked(total, budget),
                LsOutcome::Formatted(untracked),
            ) => next == (LsState {
                task: LsTask::Close(self.closing(total, budget, Some(untracked))),
                ..self
            }),
            (LsTask::Close(_), LsOutcome::Printed) => next == (LsState {
                task: LsTask::Exit,
                ..self
            }),
            _ => next == self,
        }
    }

    /// What a reply reports can be counted: the ages of the projects and the
    /// sums of the sizes are in range.
    pub open spec fn can_take(self, reply: LsOutcome) -> bool {
        match (self.task, reply) {
            (LsTask::MeasureRows, LsOutcome::RowSizes(sizes)) => ls_text::ages_fit(
                self.projects,
                self.now,
            ) && ls_text::recorded_bytes(sizes, sizes.len() as int) <= u64::MAX,
            (LsTask::MeasureHits(hits), LsOutcome::HitSizes(sizes)) => sum_of(
                sizes,
                sizes.len() as int,
            ) <= u64::MAX,
            _ => true,
        }
    }
}

/// The first `n` sizes together.
pub open spec fn sum_of(sizes: Seq<Size>, n: int) -> int
    decreases n,
{
    if n <= 0 {
        0
    } else {
        sum_of(sizes, n - 1) + sizes[n - 1].bytes
    }
}

/// The command as it begins with some arguments. Arguments that make no sense
/// are refused with the usage.
pub open spec fn is_begun(
    s: LsState,
    args: Seq<Seq<u8>>,
    style: Style,
    error_style: Style,
) -> bool {
    exists|reading: Result<Scan, String>|
        #[trigger] scan::is_reading_of(args, reading) && match reading {
            Ok(scan) => s == LsState::admitted(style, error_style, scan),
            Err(error) => s.style == style && s.error_style == error_style && s.task
                == LsTask::Reject(messages::usage_error(error_style, error@, ls_usage())),
        }
}

/// Begins the command.
pub fn ls(args: &[Vec<u8>], style: Style, error_style: Style) -> (r: Ls)
    ensures
        is_begun(r@, text::contents(args@), style, error_style),
{
    let reading = parse_args(args);
    let ghost read = reading;
    let (scan, stage) = match reading {
        Ok(scan) => (scan, LsStage::LoadPolicy),
        Err(error) => (
            Scan::Off,
            LsStage::Reject(
                write_usage_error(
                    &error_style,
                    error.as_str(),
                    "cargo overstay ls [--include-untracked [dir]]",
                ),
            ),
        ),
    };
    let r = Ls {
        style,
        error_style,
        scan,
        policy: Policy { max_project_size: 0, max_total_cache: 0 },
        projects: Vec::new(),
        now: 0,
        recorded_bytes: 0,
        missing: 0,
        roots: Vec::new(),
        found_bytes: 0,
        stage,
    };
    proof {
        if let Ok(scan) = read {
            assert(r@ =~= LsState::admitted(style, error_style, scan));
        }
        assert(scan::is_reading_of(text::contents(args@), read));
    }
    r
}

fn found_targets(hits: &Vec<ScanHit>) -> (r: Vec<Vec<u8>>)
    ensures
        text::contents(r@) == targets_found(hits@),
{
    let mut r: Vec<Vec<u8>> = Vec::new();
    let mut i: usize = 0;
    while i < hits.len()
        invariant
            i == r@.len() <= hits@.len(),
            forall|j: int| 0 <= j < i ==> (#[trigger] r@[j])@ == hits@[j].target@,
        decreases hits@.len() - i,
    {
        r.push(copy_bytes(hits[i].target.as_slice()));
        i = i + 1;
    }
    assert(text::contents(r@) =~= targets_found(hits@));
    r
}

fn keep_found(places: &Vec<Option<Vec<u8>>>) -> (r: Vec<Vec<u8>>)
    ensures
        text::contents(r@) == found_places(places@, places@.len() as int),
{
    let mut r: Vec<Vec<u8>> = Vec::new();
    let mut i: usize = 0;
    assert(text::contents(r@) =~= found_places(places@, 0));
    while i < places.len()
        invariant
            i <= places@.len(),
            text::contents(r@) == found_places(places@, i as int),
        decreases places@.len() - i,
    {
        if let Some(p) = &places[i] {
            let ghost before = text::contents(r@);
            r.push(copy_bytes(p.as_slice()));
            assert(text::contents(r@) =~= before.push(p@));
        }
        i = i + 1;
    }
    r
}

fn pair_up(hits: Vec<ScanHit>, sizes: Vec<Size>) -> (r: Vec<SizedHit>)
    requires
        hits@.len() == sizes@.len(),
    ensures
        r@ == sized(hits@, sizes@),
{
    let ghost all_hits = hits@;
    let ghost all_sizes = sizes@;
    let mut hits = hits;
    let mut sizes = sizes;
    let mut r: Vec<SizedHit> = Vec::new();
    let ghost mut n: int = 0;
    assert(all_hits.skip(0) =~= all_hits);
    assert(all_sizes.skip(0) =~= all_sizes);
    while hits.len() > 0
        invariant
            0 <= n <= all_hits.len(),
            all_hits.len() == all_sizes.len(),
            hits@ == all_hits.skip(n),
            sizes@ == all_sizes.skip(n),
            r@ =~= sized(all_hits, all_sizes).take(n),
        decreases hits@.len(),
    {
        let hit = hits.remove(0);
        let size = sizes.remove(0);
        r.push(SizedHit { hit, size });
        proof {
            assert(hits@ =~= all_hits.skip(n + 1));
            assert(sizes@ =~= all_sizes.skip(n + 1));
            n = n + 1;
        }
    }
    assert(r@ =~= sized(all_hits, all_sizes));
    r
}

proof fn lemma_sized_sum(hits: Seq<ScanHit>, sizes: Seq<Size>, n: int)
    requires
        hits.len() == sizes.len(),
        0 <= n <= hits.len(),
    ensures
        ls_text::found_bytes(sized(hits, sizes), n) == sum_of(sizes, n),
    decreases n,
{
    if n > 0 {
        lemma_sized_sum(hits, sizes, n - 1);
    }
}

proof fn lemma_insert_sum(list: Seq<SizedHit>, k: int, x: SizedHit, n: int)
    requires
        0 <= k <= list.len(),
        0 <= n <= list.len() + 1,
    ensures
        ls_text::found_bytes(list.insert(k, x), n) == if n <= k {
            ls_text::found_bytes(list, n)
        } else {
            ls_text::found_bytes(list, n - 1) + x.size.bytes
        },
    decreases n,
{
    if n > 0 {
        lemma_insert_sum(list, k, x, n - 1);
    }
}

proof fn lemma_slot_in_range(list: Seq<SizedHit>, x: SizedHit)
    ensures
        0 <= rank::slot(list, x) <= list.len(),
    decreases list.len(),
{
    if list.len() > 0 {
        lemma_slot_in_range(list.drop_last(), x);
    }
}

proof fn lemma_front_sum(list: Seq<SizedHit>, n: int)
    requires
        0 <= n < list.len(),
    ensures
        ls_text::found_bytes(list.drop_last(), n) == ls_text::found_bytes(list, n),
    decreases n,
{
    if n > 0 {
        lemma_front_sum(list, n - 1);
    }
}

/// Ranking targets does not change the sum of their sizes.
proof fn lemma_ranked_sum(list: Seq<SizedHit>)
    ensures
        rank::ranked(list).len() == list.len(),
        ls_text::found_bytes(rank::ranked(list), list.len() as int) == ls_text::found_bytes(
            list,
            list.len() as int,
        ),
    decreases list.len(),
{
    if list.len() > 0 {
        let front = list.drop_last();
        let before = rank::ranked(front);
        let x = list.last();
        lemma_ranked_sum(front);
        lemma_slot_in_range(before, x);
        lemma_insert_sum(before, rank::slot(before, x), x, list.len() as int);
        lemma_front_sum(list, list.len() - 1);
    }
}

impl Ls {
    /// What the command wants done next.
    pub fn request(&self) -> (r: LsRequest)
        ensures
            ls_asks_for(r, self@),
    {
        match &self.stage {
            LsStage::Reject(message) => LsRequest::Reject { message: message.clone(), code: 2 },
            LsStage::LoadPolicy => LsRequest::LoadPolicy,
            LsStage::CheckDir(root) => LsRequest::CheckDir(copy_bytes(root.as_slice())),
            LsStage::Warn => LsRequest::WarnIfInactive,
            LsStage::ReadRows => LsRequest::ReadRows,
            LsStage::MeasureRows => LsRequest::MeasureRows(recorded_targets(&self.projects)),
            LsStage::ShowRows(s) => LsRequest::Print(s.clone()),
            LsStage::Canonicalize => LsRequest::Canonicalize(recorded_targets(&self.projects)),
            LsStage::Resolve(_) => LsRequest::ResolveUsual,
            LsStage::Walking(w) => LsRequest::Walk(w.request()),
            LsStage::MeasureHits(hits) => LsRequest::MeasureHits(found_targets(hits)),
            LsStage::ShowHits(s) => LsRequest::Print(s.clone()),
            LsStage::FormatTotal => LsRequest::FormatSize(self.recorded_bytes),
            LsStage::FormatBudget(_) => LsRequest::FormatSize(self.policy.max_total_cache),
            LsStage::FormatUntracked(_, _) => LsRequest::FormatSize(self.found_bytes),
            LsStage::Close(s) => LsRequest::Print(s.clone()),
            LsStage::Exit => LsRequest::Exit(0),
        }
    }

    /// The recorded projects in the order in which they are listed.
    pub fn projects(&self) -> (r: &Vec<Project>)
        ensures
            r@ == self@.projects,
    {
        &self.projects
    }

    fn walking(self, w: Walk) -> (r: Ls)
        ensures
            self@.is_walking(w@, r@),
    {
        let mut r = self;
        r.stage = match w.request() {
            WalkRequest::Finished => LsStage::MeasureHits(w.into_hits()),
            _ => LsStage::Walking(w),
        };
        r
    }

    fn scan_from(self, roots: Vec<Vec<u8>>, seen: Vec<Vec<u8>>) -> (r: Ls)
        ensures
            (LsState { roots: text::contents(roots@), ..self@ }).is_walking(
                WalkState::start(text::contents(roots@), text::contents(seen@)),
                r@,
            ),
    {
        let mut r = self;
        r.roots = copy_all(&roots);
        r.walking(scan(roots, seen))
    }

    fn close(self, total: &str, budget: &str, untracked: Option<&str>) -> (r: Ls)
        ensures
            r@ == (LsState {
                task: LsTask::Close(
                    self@.closing(
                        total@,
                        budget@,
                        match untracked {
                            Some(sum) => Some(sum@),
                            None => None,
                        },
                    ),
                ),
                ..self@
            }),
    {
        let mut r = self;
        r.stage = LsStage::Close(
            write_closing(
                &r.style,
                r.recorded_bytes > r.policy.max_total_cache,
                total,
                budget,
                untracked,
                r.missing,
            ),
        );
        r
    }

    fn with_stage(self, stage: LsStage) -> (r: Ls)
        ensures
            r@ == (LsState { task: stage.task(), ..self@ }),
    {
        let mut r = self;
        r.stage = stage;
        r
    }

    /// Takes the reply to a request.
    pub fn answer(self, reply: LsReply) -> (r: Ls)
        requires
            self@.can_take(reply@),
        ensures
            self@.goes_to(reply@, r@),
    {
        let mut s = self;
        let mut stage = LsStage::Exit;
        core::mem::swap(&mut stage, &mut s.stage);
        match (stage, reply) {
            (LsStage::LoadPolicy, LsReply::Policy(Ok(policy))) => {
                s.policy = policy;
                let stage = match &s.scan {
                    Scan::Explicit(root) => LsStage::CheckDir(copy_bytes(root.as_slice())),
                    _ => LsStage::Warn,
                };
                s.with_stage(stage)
            },
            (LsStage::LoadPolicy, LsReply::Policy(Err(error))) => {
                let message = write_complaint(&s.error_style, error.as_str());
                s.with_stage(LsStage::Reject(message))
            },
            (LsStage::CheckDir(root), LsReply::DirChecked(is_dir)) => if is_dir {
                s.with_stage(LsStage::Warn)
            } else {
                let message = write_not_a_directory(&s.error_style, root.as_slice());
                s.with_stage(LsStage::Reject(message))
            },
            (LsStage::Warn, LsReply::Warned) => s.with_stage(LsStage::ReadRows),
            (LsStage::ReadRows, LsReply::Rows { projects, now }) => {
                s.projects = rank(projects);
                s.now = now;
                s.with_stage(LsStage::MeasureRows)
            },
            (LsStage::MeasureRows, LsReply::RowSizes(sizes)) => {
                if sizes.len() != s.projects.len() {
                    return s.with_stage(LsStage::MeasureRows);
                }
                let (section, bytes, missing) = write_recorded_section(
                    &s.style,
                    &s.policy,
                    s.now,
                    &s.projects,
                    &sizes,
                );
                s.recorded_bytes = bytes;
                s.missing = missing;
                s.with_stage(LsStage::ShowRows(section))
            },
            (LsStage::ShowRows(_), LsReply::Printed) => if s.scan.is_on() {
                s.with_stage(LsStage::Canonicalize)
            } else {
                s.with_stage(LsStage::FormatTotal)
            },
            (LsStage::Canonicalize, LsReply::Canonical(places)) => {
                let seen = keep_found(&places);
                let usual: Vec<Candidate> = Vec::new();
                assert(usual@ =~= Seq::empty());
                match &s.scan {
                    Scan::Defaults => s.with_stage(LsStage::Resolve(seen)),
                    _ => {
                        let roots = s.scan.roots(&usual);
                        s.scan_from(roots, seen)
                    },
                }
            },
            (LsStage::Resolve(seen), LsReply::Resolved(usual)) => {
                let roots = s.scan.roots(&usual);
                s.scan_from(roots, seen)
            },
            (LsStage::Walking(w), LsReply::Walked(walked)) => s.walking(w.answer(walked)),
            (LsStage::MeasureHits(hits), LsReply::HitSizes(sizes)) => {
                if sizes.len() != hits.len() {
                    return s.with_stage(LsStage::MeasureHits(hits));
                }
                let ghost pairs = sized(hits@, sizes@);
                proof {
                    lemma_sized_sum(hits@, sizes@, hits@.len() as int);
                    lemma_ranked_sum(pairs);
                }
                let found = rank(pair_up(hits, sizes));
                let (section, bytes) = write_untracked_section(
                    &s.style,
                    &s.policy,
                    &s.roots,
                    &found,
                );
                s.found_bytes = bytes;
                s.with_stage(LsStage::ShowHits(section))
            },
            (LsStage::ShowHits(_), LsReply::Printed) => s.with_stage(LsStage::FormatTotal),
            (LsStage::FormatTotal, LsReply::Formatted(total)) => s.with_stage(
                LsStage::FormatBudget(total),
            ),
            (LsStage::FormatBudget(total), LsReply::Formatted(budget)) => if s.scan.is_on() {
                s.with_stage(LsStage::FormatUntracked(total, budget))
            } else {
                s.close(total.as_str(), budget.as_str(), None)
            },
            (
                LsStage::FormatUntracked(total, budget),
                LsReply::Formatted(untracked),
            ) => s.close(total.as_str(), budget.as_str(), Some(untracked.as_str())),
            (LsStage::Close(_), LsReply::Printed) => s.with_stage(LsStage::Exit),
            (stage, _) => s.with_stage(stage),
        }
    }
}

} // verus!
