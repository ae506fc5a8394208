//! The `purge` command from its arguments to its exit code.

use vstd::prelude::*;
use vstd::string::*;

use crate::messages;
use crate::messages::{write_not_a_directory, write_usage_error};
use crate::purge;
use crate::purge::{
    purge, Outcome, Purge, PurgeReply, PurgeRequest, PurgeState, Summary,
};
use crate::purge_text;
use crate::purge_text::{write_scanning_line, write_summary_line};
use crate::scan;
use crate::scan::{parse_args, Candidate, Scan};
use crate::store::Project;
use crate::style::Style;
use crate::text;
use crate::text::copy_bytes;

verus! {

/// What the command wants done next.
pub enum RunRequest {
    /// Write a message to the error stream and exit.
    Reject { message: String, code: i32 },
    /// Find out whether the scan root is a directory.
    CheckDir(Vec<u8>),
    /// Warn the user where their builds are not recorded.
    WarnIfInactive,
    /// Look at the usual places for a scan.
    ResolveUsual,
    /// Write to the output stream.
    Print(String),
    /// Read the records.
    ReadRows,
    /// Go on with the purge.
    Purge(PurgeRequest),
    /// Write a size out.
    FormatSize(u64),
    Exit(i32),
}

/// The reply to a request.
pub enum RunReply {
    DirChecked(bool),
    Warned,
    Resolved(Vec<Candidate>),
    Printed,
    Rows(Vec<Project>),
    Purged(PurgeReply),
    Formatted(String),
}

enum RunStage {
    Reject(String),
    CheckDir(Vec<u8>),
    Warn,
    Resolve,
    Announce(Vec<Vec<u8>>),
    ReadRows(Vec<Vec<u8>>),
    Purging(Purge),
    Format(Summary),
    Report(String),
    Exit,
}

/// The command under way.
pub struct Run {
    style: Style,
    error_style: Style,
    scan: Scan,
    stage: RunStage,
}

/// The model of what the command waits for.
pub enum RunTask {
    /// Refuse, with a message.
    Reject(Seq<char>),
    CheckDir(Seq<u8>),
    Warn,
    Resolve,
    /// Name the roots that will be scanned.
    Announce(Seq<Seq<u8>>),
    /// Read the records, to purge them and scan the roots.
    ReadRows(Seq<Seq<u8>>),
    Purging(PurgeState),
    /// Have the size that was given back written out.
    Format(Summary),
    /// Sum the purge up.
    Report(Seq<char>),
    Exit,
}

/// The model of a reply.
pub enum RunOutcome {
    DirChecked(bool),
    Warned,
    Resolved(Seq<Candidate>),
    Printed,
    Rows(Seq<Project>),
    Purged(Outcome),
    Formatted(Seq<char>),
}

/// The model of the command under way.
#[verifier::ext_equal]
pub struct RunState {
    pub style: Style,
    pub error_style: Style,
    pub scan: Scan,
    pub task: RunTask,
}

impl View for RunReply {
    type V = RunOutcome;

    open spec fn view(&self) -> RunOutcome {
        match self {
            RunReply::DirChecked(yes) => RunOutcome::DirChecked(*yes),
            RunReply::Warned => RunOutcome::Warned,
            RunReply::Resolved(candidates) => RunOutcome::Resolved(candidates@),
            RunReply::Printed => RunOutcome::Printed,
            RunReply::Rows(projects) => RunOutcome::Rows(projects@),
            RunReply::Purged(reply) => RunOutcome::Purged(reply@),
            RunReply::Formatted(s) => RunOutcome::Formatted(s@),
        }
    }
}

impl RunStage {
    spec fn task(self) -> RunTask {
        match self {
            RunStage::Reject(message) => RunTask::Reject(message@),
            RunStage::CheckDir(root) => RunTask::CheckDir(root@),
            RunStage::Warn => RunTask::Warn,
            RunStage::Resolve => RunTask::Resolve,
            RunStage::Announce(roots) => RunTask::Announce(text::contents(roots@)),
            RunStage::ReadRows(roots) => RunTask::ReadRows(text::contents(roots@)),
            RunStage::Purging(p) => RunTask::Purging(p@),
            RunStage::Format(summary) => RunTask::Format(summary),
            RunStage::Report(line) => RunTask::Report(line@),
            RunStage::Exit => RunTask::Exit,
        }
    }
}

impl View for Run {
    type V = RunState;

    closed spec fn view(&self) -> RunState {
        RunState {
            style: self.style,
            error_style: self.error_style,
            scan: self.scan,
            task: self.stage.task(),
        }
    }
}

/// How the command is called.
pub open spec fn purge_usage() -> Seq<char> {
    "cargo overstay purge [--include-untracked [dir]]"@
}

/// A request asks for what the command waits for. A refusal exits with 2, a
/// purge that ran with 0.
pub open spec fn run_asks_for(request: RunRequest, s: RunState) -> bool {
    match (request, s.task) {
        (RunRequest::Reject { message, code }, RunTask::Reject(m)) => message@ == m && code == 2,
        (RunRequest::CheckDir(root), RunTask::CheckDir(p)) => root@ == p,
        (RunRequest::WarnIfInactive, RunTask::Warn) => true,
        (RunRequest::ResolveUsual, RunTask::Resolve) => true,
        (RunRequest::Print(line), RunTask::Announce(roots)) => line@ == purge_text::scanning_line(
            s.style,
            roots,
        ),
        (RunRequest::ReadRows, RunTask::ReadRows(_)) => true,
        (RunRequest::Purge(request), RunTask::Purging(p)) => purge::asks_for(request, p.task),
        (RunRequest::FormatSize(size), RunTask::Format(summary)) => size == summary.freed,
        (RunRequest::Print(line), RunTask::Report(l)) => line@ == l,
        (RunRequest::Exit(code), RunTask::Exit) => code == 0,
        _ => false,
    }
}

impl RunState {
    /// The command once its arguments are understood. A directory that the
    /// user named is looked at first.
    pub open spec fn admitted(style: Style, error_style: Style, scan: Scan) -> RunState {
        RunState {
            style,
            error_style,
            scan,
            task: match scan {
                Scan::Explicit(root) => RunTask::CheckDir(root@),
                _ => RunTask::Warn,
            },
        }
    }

    /// The command once the roots are known. A scan names them.
    pub open spec fn rooted(self, roots: Seq<Seq<u8>>) -> RunState {
        RunState {
            task: if self.scan is Off {
                RunTask::ReadRows(roots)
            } else {
                RunTask::Announce(roots)
            },
            ..self
        }
    }

    /// The command with its purge in a given state.
    pub open spec fn purging(self, p: PurgeState) -> RunState {
        RunState {
            task: if p.task is Finished {
                RunTask::Format(p.summary)
            } else {
                RunTask::Purging(p)
            },
            ..self
        }
    }

    /// The command after a reply. One that does not fit changes nothing.
    pub open spec fn next(self, reply: RunOutcome) -> RunState {
        match (self.task, reply) {
            (RunTask::CheckDir(root), RunOutcome::DirChecked(is_dir)) => RunState {
                task: if is_dir {
                    RunTask::Warn
                } else {
                    RunTask::Reject(messages::not_a_directory(self.error_style, root))
                },
                ..self
            },
            (RunTask::Warn, RunOutcome::Warned) => if self.scan is Defaults {
                RunState { task: RunTask::Resolve, ..self }
            } else {
                self.rooted(self.scan.covered(Seq::empty()))
            },
            (RunTask::Resolve, RunOutcome::Resolved(usual)) => self.rooted(
                self.scan.covered(usual),
            ),
            (RunTask::Announce(roots), RunOutcome::Printed) => RunState {
                task: RunTask::ReadRows(roots),
                ..self
            },
            (RunTask::ReadRows(roots), RunOutcome::Rows(projects)) => self.purging(
                PurgeState::start(purge::targets_of(projects), roots),
            ),
            (RunTask::Purging(p), RunOutcome::Purged(reply)) => self.purging(p.next(reply)),
            (RunTask::Format(summary), RunOutcome::Formatted(freed)) => RunState {
                task: RunTask::Report(purge_text::summary_line(self.style, summary, freed)),
                ..self
            },
            (RunTask::Report(_), RunOutcome::Printed) => RunState { task: RunTask::Exit, ..self },
            _ => self,
        }
    }

    /// The counters of the purge can take what a reply reports.
    pub open spec fn can_take(self, reply: RunOutcome) -> bool {
        self.task matches RunTask::Purging(p) ==> (reply matches RunOutcome::Purged(outcome)
            ==> p.can_take(outcome))
    }
}

/// The command as it begins with some arguments. Arguments that make no sense
/// are refused with the usage.
pub open spec fn is_begun(
    s: RunState,
    args: Seq<Seq<u8>>,
    style: Style,
    error_style: Style,
) -> bool {
    exists|reading: Result<Scan, String>|
        #[trigger] scan::is_reading_of(args, reading) && match reading {
            Ok(scan) => s == RunState::admitted(style, error_style, scan),
            Err(error) => s.style == style && s.error_style == error_style && s.task
                == RunTask::Reject(messages::usage_error(error_style, error@, purge_usage())),
        }
}

/// Begins the command.
pub fn run(args: &[Vec<u8>], style: Style, error_style: Style) -> (r: Run)
    ensures
        is_begun(r@, text::contents(args@), style, error_style),
{
    let reading = parse_args(args);
    let ghost read = reading;
    let r = match reading {
        Ok(scan) => {
            let stage = match &scan {
                Scan::Explicit(root) => RunStage::CheckDir(copy_bytes(root.as_slice())),
                _ => RunStage::Warn,
            };
            Run { style, error_style, scan, stage }
        },
        Err(error) => {
            let message = write_usage_error(
                &error_style,
                error.as_str(),
                "cargo overstay purge [--include-untracked [dir]]",
            );
            Run { style, error_style, scan: Scan::Off, stage: RunStage::Reject(message) }
        },
    };
    assert(scan::is_reading_of(text::contents(args@), read));
    r
}

impl Run {
    /// What the command wants done next.
    pub fn request(&self) -> (r: RunRequest)
        ensures
            run_asks_for(r, self@),
    {
        match &self.stage {
            RunStage::Reject(message) => RunRequest::Reject { message: message.clone(), code: 2 },
            RunStage::CheckDir(root) => RunRequest::CheckDir(copy_bytes(root.as_slice())),
            RunStage::Warn => RunRequest::WarnIfInactive,
            RunStage::Resolve => RunRequest::ResolveUsual,
            RunStage::Announce(roots) => RunRequest::Print(
                write_scanning_line(&self.style, roots.as_slice()),
            ),
            RunStage::ReadRows(_) => RunRequest::ReadRows,
            RunStage::Purging(p) => RunRequest::Purge(p.request()),
            RunStage::Format(summary) => RunRequest::FormatSize(summary.freed),
            RunStage::Report(line) => RunRequest::Print(line.clone()),
            RunStage::Exit => RunRequest::Exit(0),
        }
    }

    /// The purge, while it is under way.
    pub fn purge(&self) -> (r: Option<&Purge>)
        ensures
            r is Some <==> self@.task is Purging,
            r matches Some(p) ==> self@.task == RunTask::Purging(p@),
    {
        match &self.stage {
            RunStage::Purging(p) => Some(p),
            _ => None,
        }
    }

    fn rooted(self, roots: Vec<Vec<u8>>) -> (r: Run)
        ensures
            r@ == self@.rooted(text::contents(roots@)),
    {
        let mut r = self;
        r.stage = if r.scan.is_on() {
            RunStage::Announce(roots)
        } else {
            RunStage::ReadRows(roots)
        };
        r
    }

    fn purging(self, p: Purge) -> (r: Run)
        ensures
            r@ == self@.purging(p@),
    {
        let mut r = self;
        r.stage = match p.request() {
            PurgeRequest::Finished => RunStage::Format(p.summary()),
            _ => RunStage::Purging(p),
        };
        r
    }

    /// Takes the reply to a request.
    pub fn answer(self, reply: RunReply) -> (r: Run)
        requires
            self@.can_take(reply@),
        ensures
            r@ == self@.next(reply@),
    {
        let Run { style, error_style, scan, stage } = self;
        match (stage, reply) {
            (RunStage::CheckDir(root), RunReply::DirChecked(is_dir)) => {
                let stage = if is_dir {
                    RunStage::Warn
                } else {
                    RunStage::Reject(write_not_a_directory(&error_style, root.as_slice()))
                };
                Run { style, error_style, scan, stage }
            },
            (RunStage::Warn, RunReply::Warned) => {
                let usual: Vec<Candidate> = Vec::new();
                match scan {
                    Scan::Defaults => Run { style, error_style, scan, stage: RunStage::Resolve },
                    _ => {
                        let roots = scan.roots(&usual);
                        assert(usual@ =~= Seq::empty());
                        Run { style, error_style, scan, stage: RunStage::Warn }.rooted(roots)
                    },
                }
            },
            (RunStage::Resolve, RunReply::Resolved(usual)) => {
                let roots = scan.roots(&usual);
                Run { style, error_style, scan, stage: RunStage::Resolve }.rooted(roots)
            },
            (RunStage::Announce(roots), RunReply::Printed) => Run {
                style,
                error_style,
                scan,
                stage: RunStage::ReadRows(roots),
            },
            (RunStage::ReadRows(roots), RunReply::Rows(projects)) => {
                let p = purge(&projects, roots);
                Run { style, error_style, scan, stage: RunStage::Warn }.purging(p)
            },
            (RunStage::Purging(p), RunReply::Purged(reply)) => {
                let p = p.answer(reply);
                Run { style, error_style, scan, stage: RunStage::Warn }.purging(p)
            },
            (RunStage::Format(summary), RunReply::Formatted(freed)) => {
                let line = write_summary_line(&style, &summary, freed.as_str());
                Run { style, error_style, scan, stage: RunStage::Report(line) }
            },
            (RunStage::Report(_), RunReply::Printed) => Run {
                style,
                error_style,
                scan,
                stage: RunStage::Exit,
            },
            (stage, _) => Run { style, error_style, scan, stage },
        }
    }
}

} // verus!
