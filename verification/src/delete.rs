//! Deleting one target behind cargo's build lock, and saying what came of it.

use vstd::prelude::*;
use vstd::string::*;

use crate::purge::Deletion;
use crate::purge_text;
use crate::purge_text::write_deletion_line;
use crate::style::Style;
use crate::text::copy_bytes;

verus! {

/// What a deletion wants done next.
pub enum DeleteRequest {
    /// Take cargo's build lock of a target, without waiting for it.
    Lock(Vec<u8>),
    /// Measure a directory.
    Measure(Vec<u8>),
    /// Remove a directory and all that is in it, as far as that can be done.
    Remove(Vec<u8>),
    /// Write a size out.
    FormatSize(u64),
    /// Write to the output stream.
    Print(String),
    /// Nothing: this is what came of it.
    Done(Deletion),
}

/// The reply to a request.
pub enum DeleteReply {
    /// The lock was free and is held now.
    Locked(bool),
    Measured(u64),
    Removed,
    Formatted(String),
    Printed,
}

enum DeleteStage {
    Lock,
    MeasureBefore,
    Remove(u64),
    MeasureAfter(u64),
    Format(Deletion),
    Print(Deletion, String),
    Done(Deletion),
}

/// A deletion under way.
pub struct Delete {
    style: Style,
    target: Vec<u8>,
    stage: DeleteStage,
}

/// The model of what a deletion waits for.
pub enum DeleteTask {
    Lock,
    MeasureBefore,
    /// Remove a directory of a given size.
    Remove(u64),
    MeasureAfter(u64),
    /// Have the size that was given back written out.
    Format(Deletion),
    /// Say what came of it.
    Print(Deletion, Seq<char>),
    Done(Deletion),
}

/// The model of a reply.
pub enum DeleteOutcome {
    Locked(bool),
    Measured(u64),
    Removed,
    Formatted(Seq<char>),
    Printed,
}

/// The model of a deletion under way.
pub struct DeleteState {
    pub style: Style,
    pub target: Seq<u8>,
    pub task: DeleteTask,
}

impl View for DeleteReply {
    type V = DeleteOutcome;

    open spec fn view(&self) -> DeleteOutcome {
        match self {
            DeleteReply::Locked(held) => DeleteOutcome::Locked(*held),
            DeleteReply::Measured(size) => DeleteOutcome::Measured(*size),
            DeleteReply::Removed => DeleteOutcome::Removed,
            DeleteReply::Formatted(s) => DeleteOutcome::Formatted(s@),
            DeleteReply::Printed => DeleteOutcome::Printed,
        }
    }
}

impl View for Delete {
    type V = DeleteState;

    closed spec fn view(&self) -> DeleteState {
        DeleteState {
            style: self.style,
            target: self.target@,
            task: match self.stage {
                DeleteStage::Lock => DeleteTask::Lock,
                DeleteStage::MeasureBefore => DeleteTask::MeasureBefore,
                DeleteStage::Remove(before) => DeleteTask::Remove(before),
                DeleteStage::MeasureAfter(before) => DeleteTask::MeasureAfter(before),
                DeleteStage::Format(deletion) => DeleteTask::Format(deletion),
                DeleteStage::Print(deletion, line) => DeleteTask::Print(deletion, line@),
                DeleteStage::Done(deletion) => DeleteTask::Done(deletion),
            },
        }
    }
}

/// A request asks for what a deletion waits for.
pub open spec fn delete_asks_for(request: DeleteRequest, s: DeleteState) -> bool {
    match (request, s.task) {
        (DeleteRequest::Lock(target), DeleteTask::Lock) => target@ == s.target,
        (DeleteRequest::Measure(target), DeleteTask::MeasureBefore) => target@ == s.target,
        (DeleteRequest::Remove(target), DeleteTask::Remove(_)) => target@ == s.target,
        (DeleteRequest::Measure(target), DeleteTask::MeasureAfter(_)) => target@ == s.target,
        (DeleteRequest::FormatSize(size), DeleteTask::Format(deletion)) => size == deletion.gain(),
        (DeleteRequest::Print(line), DeleteTask::Print(_, l)) => line@ == l,
        (DeleteRequest::Done(deletion), DeleteTask::Done(d)) => deletion == d,
        _ => false,
    }
}

impl DeleteState {
    /// A deletion that begins.
    pub open spec fn start(style: Style, target: Seq<u8>) -> DeleteState {
        DeleteState { style, target, task: DeleteTask::Lock }
    }

    /// The deletion with the line ready that says what came of it.
    pub open spec fn telling(self, deletion: Deletion, freed: Seq<char>) -> DeleteState {
        DeleteState {
            task: DeleteTask::Print(
                deletion,
                purge_text::deletion_line(self.style, self.target, deletion, freed),
            ),
            ..self
        }
    }

    /// The deletion after a reply. Where a build holds the lock nothing is
    /// touched. A reply that does not fit changes nothing.
    pub open spec fn next(self, reply: DeleteOutcome) -> DeleteState {
        match (self.task, reply) {
            (DeleteTask::Lock, DeleteOutcome::Locked(true)) => DeleteState {
                task: DeleteTask::MeasureBefore,
                ..self
            },
            (DeleteTask::Lock, DeleteOutcome::Locked(false)) => self.telling(
                Deletion::Locked,
                ""@,
            ),
            (DeleteTask::MeasureBefore, DeleteOutcome::Measured(before)) => DeleteState {
                task: DeleteTask::Remove(before),
                ..self
            },
            (DeleteTask::Remove(before), DeleteOutcome::Removed) => DeleteState {
                task: DeleteTask::MeasureAfter(before),
                ..self
            },
            (DeleteTask::MeasureAfter(before), DeleteOutcome::Measured(after)) => DeleteState {
                task: DeleteTask::Format(Deletion::Removed { before, after }),
                ..self
            },
            (DeleteTask::Format(deletion), DeleteOutcome::Formatted(freed)) => self.telling(
                deletion,
                freed,
            ),
            (DeleteTask::Print(deletion, _), DeleteOutcome::Printed) => DeleteState {
                task: DeleteTask::Done(deletion),
                ..self
            },
            _ => self,
        }
    }
}

/// The deletion after the first `i` replies.
pub open spec fn at(start: DeleteState, replies: Seq<DeleteOutcome>, i: int) -> DeleteState
    decreases i,
{
    if i <= 0 {
        start
    } else {
        at(start, replies, i - 1).next(replies[i - 1])
    }
}

/// Ahead of `i` the build lock was asked for, and taken or not.
pub open spec fn lock_answered(
    start: DeleteState,
    replies: Seq<DeleteOutcome>,
    i: int,
    held: bool,
) -> bool {
    exists|j: int|
        0 <= j < i && (#[trigger] at(start, replies, j)).task is Lock && replies[j]
            == DeleteOutcome::Locked(held)
}

/// A deletion that found the lock taken.
pub open spec fn is_locked_out(task: DeleteTask) -> bool {
    task matches DeleteTask::Print(Deletion::Locked, _) || task == DeleteTask::Done(
        Deletion::Locked,
    )
}

/// Nothing is removed without cargo's build lock, and a target is reported as
/// locked only where a build holds that lock.
pub proof fn removing_needs_the_build_lock(
    style: Style,
    target: Seq<u8>,
    replies: Seq<DeleteOutcome>,
    i: int,
)
    requires
        0 <= i <= replies.len(),
    ensures
        ({
            let start = DeleteState::start(style, target);
            let s = at(start, replies, i);
            &&& s.target == target
            &&& s.task is Lock || lock_answered(start, replies, i, !is_locked_out(s.task))
            &&& s.task is Remove ==> lock_answered(start, replies, i, true)
            &&& !(s.task matches DeleteTask::Format(Deletion::Locked))
        }),
    decreases i,
{
    let start = DeleteState::start(style, target);
    if i > 0 {
        removing_needs_the_build_lock(style, target, replies, i - 1);
        let s = at(start, replies, i - 1);
        let t = at(start, replies, i);
        let held = !is_locked_out(t.task);
        if lock_answered(start, replies, i - 1, held) {
            assert(lock_answered(start, replies, i, held));
        }
        if s.task is Lock && replies[i - 1] == DeleteOutcome::Locked(held) {
            assert(lock_answered(start, replies, i, held));
        }
    }
}

/// Begins to delete a target.
pub fn delete_target(target: &[u8], style: Style) -> (r: Delete)
    ensures
        r@ == DeleteState::start(style, target@),
{
    Delete { style, target: copy_bytes(target), stage: DeleteStage::Lock }
}

impl Delete {
    /// What the deletion wants done next.
    pub fn request(&self) -> (r: DeleteRequest)
        ensures
            delete_asks_for(r, self@),
    {
        match &self.stage {
            DeleteStage::Lock => DeleteRequest::Lock(copy_bytes(self.target.as_slice())),
            DeleteStage::MeasureBefore => DeleteRequest::Measure(
                copy_bytes(self.target.as_slice()),
            ),
            DeleteStage::Remove(_) => DeleteRequest::Remove(copy_bytes(self.target.as_slice())),
            DeleteStage::MeasureAfter(_) => DeleteRequest::Measure(
                copy_bytes(self.target.as_slice()),
            ),
            DeleteStage::Format(deletion) => DeleteRequest::FormatSize(deletion.freed()),
            DeleteStage::Print(_, line) => DeleteRequest::Print(line.clone()),
            DeleteStage::Done(deletion) => DeleteRequest::Done(*deletion),
        }
    }

    fn telling(self, deletion: Deletion, freed: &str) -> (r: Delete)
        ensures
            r@ == self@.telling(deletion, freed@),
    {
        let line = write_deletion_line(&self.style, self.target.as_slice(), &deletion, freed);
        Delete { style: self.style, target: self.target, stage: DeleteStage::Print(deletion, line) }
    }

    /// Takes the reply to a request.
    pub fn answer(self, reply: DeleteReply) -> (r: Delete)
        ensures
            r@ == self@.next(reply@),
    {
        let Delete { style, target, stage } = self;
        match (stage, reply) {
            (DeleteStage::Lock, DeleteReply::Locked(held)) => {
                if held {
                    Delete { style, target, stage: DeleteStage::MeasureBefore }
                } else {
                    Delete { style, target, stage: DeleteStage::Lock }.telling(Deletion::Locked, "")
                }
            },
            (DeleteStage::MeasureBefore, DeleteReply::Measured(before)) => Delete {
                style,
                target,
                stage: DeleteStage::Remove(before),
            },
            (DeleteStage::Remove(before), DeleteReply::Removed) => Delete {
                style,
                target,
                stage: DeleteStage::MeasureAfter(before),
            },
            (DeleteStage::MeasureAfter(before), DeleteReply::Measured(after)) => Delete {
                style,
                target,
                stage: DeleteStage::Format(Deletion::Removed { before, after }),
            },
            (DeleteStage::Format(deletion), DeleteReply::Formatted(freed)) => Delete {
                style,
                target,
                stage: DeleteStage::Lock,
            }.telling(deletion, freed.as_str()),
            (DeleteStage::Print(deletion, _), DeleteReply::Printed) => Delete {
                style,
                target,
                stage: DeleteStage::Done(deletion),
            },
            (stage, _) => Delete { style, target, stage },
        }
    }
}

} // verus!
