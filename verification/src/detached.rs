//! The cleanup pass that runs in a detached child after a build. Nothing
//! watches the exit code of that process, so it is 0 in every case.

use vstd::prelude::*;

use crate::text::copy_bytes;
use crate::walk;

verus! {

/// What the pass wants done next.
pub enum CleanupRequest {
    /// Take the maintenance lock, without waiting for it.
    Lock,
    /// Read the size limits.
    LoadPolicy,
    /// The current directory.
    CurrentDir,
    /// Collect garbage, sparing the target that was just built. The free space
    /// that counts is that of the disk that holds `probe`.
    Collect { current: Option<Vec<u8>>, probe: Option<Vec<u8>> },
    Exit(i32),
}

/// The reply to a request.
pub enum CleanupReply {
    /// The lock was free and is held now.
    Locked(bool),
    /// The limits are in order.
    Policy(bool),
    CurrentDir(Option<Vec<u8>>),
    Collected,
}

enum CleanupStage {
    Lock,
    LoadPolicy,
    CurrentDir,
    Collect(Option<Vec<u8>>),
    Exit,
}

/// A cleanup pass under way.
pub struct Cleanup {
    current: Option<Vec<u8>>,
    stage: CleanupStage,
}

/// The model of what a pass waits for.
pub enum CleanupTask {
    Lock,
    LoadPolicy,
    CurrentDir,
    Collect(Option<Seq<u8>>),
    Exit,
}

/// The model of a reply.
pub enum CleanupOutcome {
    Locked(bool),
    Policy(bool),
    CurrentDir(Option<Seq<u8>>),
    Collected,
}

/// The model of a pass under way.
pub struct CleanupState {
    /// The target that was just built.
    pub current: Option<Seq<u8>>,
    pub task: CleanupTask,
}

impl View for CleanupReply {
    type V = CleanupOutcome;

    open spec fn view(&self) -> CleanupOutcome {
        match self {
            CleanupReply::Locked(held) => CleanupOutcome::Locked(*held),
            CleanupReply::Policy(good) => CleanupOutcome::Policy(*good),
            CleanupReply::CurrentDir(dir) => CleanupOutcome::CurrentDir(walk::bytes_of(*dir)),
            CleanupReply::Collected => CleanupOutcome::Collected,
        }
    }
}

impl View for Cleanup {
    type V = CleanupState;

    closed spec fn view(&self) -> CleanupState {
        CleanupState {
            current: walk::bytes_of(self.current),
            task: match self.stage {
                CleanupStage::Lock => CleanupTask::Lock,
                CleanupStage::LoadPolicy => CleanupTask::LoadPolicy,
                CleanupStage::CurrentDir => CleanupTask::CurrentDir,
                CleanupStage::Collect(probe) => CleanupTask::Collect(walk::bytes_of(probe)),
                CleanupStage::Exit => CleanupTask::Exit,
            },
        }
    }
}

/// A request asks for what a pass waits for.
pub open spec fn cleanup_asks_for(request: CleanupRequest, s: CleanupState) -> bool {
    match (request, s.task) {
        (CleanupRequest::Lock, CleanupTask::Lock) => true,
        (CleanupRequest::LoadPolicy, CleanupTask::LoadPolicy) => true,
        (CleanupRequest::CurrentDir, CleanupTask::CurrentDir) => true,
        (CleanupRequest::Collect { current, probe: p }, CleanupTask::Collect(probe)) =>
            walk::bytes_of(current) == s.current && walk::bytes_of(p) == probe,
        (CleanupRequest::Exit(code), CleanupTask::Exit) => code == 0,
        _ => false,
    }
}

/// The target that the argument of the child names. An empty argument names
/// none.
pub open spec fn named_target(target_arg: Option<&[u8]>) -> Option<Seq<u8>> {
    match target_arg {
        Some(p) => if p@.len() > 0 {
            Some(p@)
        } else {
            None
        },
        None => None,
    }
}

impl CleanupState {
    /// A pass that begins, after a build of a target.
    pub open spec fn start(current: Option<Seq<u8>>) -> CleanupState {
        CleanupState { current, task: CleanupTask::Lock }
    }

    /// The pass after a reply. Without the lock or with bad limits it ends;
    /// without a target the current directory tells which disk is meant. A
    /// reply that does not fit changes nothing.
    pub open spec fn next(self, reply: CleanupOutcome) -> CleanupState {
        CleanupState {
            task: match (self.task, reply) {
                (CleanupTask::Lock, CleanupOutcome::Locked(held)) => if held {
                    CleanupTask::LoadPolicy
                } else {
                    CleanupTask::Exit
                },
                (CleanupTask::LoadPolicy, CleanupOutcome::Policy(good)) => if good {
                    CleanupTask::CurrentDir
                } else {
                    CleanupTask::Exit
                },
                (CleanupTask::CurrentDir, CleanupOutcome::CurrentDir(dir)) => CleanupTask::Collect(
                    if self.current is Some {
                        self.current
                    } else {
                        dir
                    },
                ),
                (CleanupTask::Collect(_), CleanupOutcome::Collected) => CleanupTask::Exit,
                (task, _) => task,
            },
            ..self
        }
    }
}

/// The pass after the first `i` replies.
pub open spec fn at(start: CleanupState, replies: Seq<CleanupOutcome>, i: int) -> CleanupState
    decreases i,
{
    if i <= 0 {
        start
    } else {
        at(start, replies, i - 1).next(replies[i - 1])
    }
}

/// Ahead of `i` the lock was taken.
pub open spec fn was_locked(
    start: CleanupState,
    replies: Seq<CleanupOutcome>,
    i: int,
) -> bool {
    exists|j: int|
        0 <= j < i && (#[trigger] at(start, replies, j)).task is Lock && replies[j]
            == CleanupOutcome::Locked(true)
}

/// Ahead of `i` the limits turned out to be in order.
pub open spec fn limits_accepted(
    start: CleanupState,
    replies: Seq<CleanupOutcome>,
    i: int,
) -> bool {
    exists|j: int|
        0 <= j < i && (#[trigger] at(start, replies, j)).task is LoadPolicy && replies[j]
            == CleanupOutcome::Policy(true)
}

/// Garbage is collected only behind the maintenance lock, which one pass at a
/// time can hold, and only under limits that are in order. The target that was
/// just built is the one that is spared, and its disk is the one that counts.
pub proof fn collecting_needs_the_lock_and_good_limits(
    current: Option<Seq<u8>>,
    replies: Seq<CleanupOutcome>,
    i: int,
)
    requires
        0 <= i <= replies.len(),
    ensures
        ({
            let start = CleanupState::start(current);
            let s = at(start, replies, i);
            &&& s.current == current
            &&& s.task is LoadPolicy ==> was_locked(start, replies, i)
            &&& s.task is CurrentDir ==> was_locked(start, replies, i) && limits_accepted(
                start,
                replies,
                i,
            )
            &&& s.task matches CleanupTask::Collect(probe) ==> was_locked(start, replies, i)
                && limits_accepted(start, replies, i) && (current is Some ==> probe == current)
        }),
    decreases i,
{
    let start = CleanupState::start(current);
    if i > 0 {
        collecting_needs_the_lock_and_good_limits(current, replies, i - 1);
        let s = at(start, replies, i - 1);
        if was_locked(start, replies, i - 1) {
            assert(was_locked(start, replies, i));
        }
        if limits_accepted(start, replies, i - 1) {
            assert(limits_accepted(start, replies, i));
        }
        if s.task is Lock && replies[i - 1] == CleanupOutcome::Locked(true) {
            assert(was_locked(start, replies, i));
        }
        if s.task is LoadPolicy && replies[i - 1] == CleanupOutcome::Policy(true) {
            assert(limits_accepted(start, replies, i));
        }
    }
}

/// Begins a cleanup pass after a build.
pub fn run_detached_gc(target_arg: Option<&[u8]>) -> (r: Cleanup)
    ensures
        r@ == CleanupState::start(named_target(target_arg)),
{
    let current = match target_arg {
        Some(p) => if p.len() > 0 {
            Some(copy_bytes(p))
        } else {
            None
        },
        None => None,
    };
    Cleanup { current, stage: CleanupStage::Lock }
}

fn copy_path(p: &Option<Vec<u8>>) -> (r: Option<Vec<u8>>)
    ensures
        walk::bytes_of(r) == walk::bytes_of(*p),
{
    match p {
        Some(p) => Some(copy_bytes(p.as_slice())),
        None => None,
    }
}

impl Cleanup {
    /// What the pass wants done next.
    pub fn request(&self) -> (r: CleanupRequest)
        ensures
            cleanup_asks_for(r, self@),
    {
        match &self.stage {
            CleanupStage::Lock => CleanupRequest::Lock,
            CleanupStage::LoadPolicy => CleanupRequest::LoadPolicy,
            CleanupStage::CurrentDir => CleanupRequest::CurrentDir,
            CleanupStage::Collect(probe) => CleanupRequest::Collect {
                current: copy_path(&self.current),
                probe: copy_path(probe),
            },
            CleanupStage::Exit => CleanupRequest::Exit(0),
        }
    }

    /// Takes the reply to a request.
    pub fn answer(self, reply: CleanupReply) -> (r: Cleanup)
        ensures
            r@ == self@.next(reply@),
    {
        let Cleanup { current, stage } = self;
        let stage = match (stage, reply) {
            (CleanupStage::Lock, CleanupReply::Locked(held)) => if held {
                CleanupStage::LoadPolicy
            } else {
                CleanupStage::Exit
            },
            (CleanupStage::LoadPolicy, CleanupReply::Policy(good)) => if good {
                CleanupStage::CurrentDir
            } else {
                CleanupStage::Exit
            },
            (CleanupStage::CurrentDir, CleanupReply::CurrentDir(dir)) => CleanupStage::Collect(
                match &current {
                    Some(p) => Some(copy_bytes(p.as_slice())),
                    None => dir,
                },
            ),
            (CleanupStage::Collect(_), CleanupReply::Collected) => CleanupStage::Exit,
            (stage, _) => stage,
        };
        Cleanup { current, stage }
    }
}

} // verus!
