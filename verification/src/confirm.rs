//! Asking the user, once, about the targets that are deleted only with their
//! consent.

use vstd::prelude::*;
use vstd::string::*;

use crate::purge::UnsureHit;
use crate::purge_text;
use crate::purge_text::{confirmation, unsure_total, write_question};
use crate::style::Style;

verus! {

/// What the inquiry wants done next.
pub enum ConfirmRequest {
    /// Write sizes out, one by one.
    FormatSizes(Vec<u64>),
    /// Write the question to the output stream and read a line.
    Ask(String),
    /// Nothing: this is the answer.
    Done(bool),
}

/// The reply to a request.
pub enum ConfirmReply {
    Formatted(Vec<String>),
    /// The line, where one could be read.
    Line(Option<String>),
}

enum ConfirmStage {
    Format(u64),
    Ask(String),
    Done(bool),
}

/// An inquiry under way.
pub struct Confirm {
    style: Style,
    hits: Vec<UnsureHit>,
    stage: ConfirmStage,
}

/// The model of what the inquiry waits for.
pub enum ConfirmTask {
    /// Have the sizes and their sum written out.
    Format,
    Ask(Seq<char>),
    Done(bool),
}

/// The model of an inquiry under way.
pub struct ConfirmState {
    pub style: Style,
    pub hits: Seq<UnsureHit>,
    pub task: ConfirmTask,
}

impl View for Confirm {
    type V = ConfirmState;

    closed spec fn view(&self) -> ConfirmState {
        ConfirmState {
            style: self.style,
            hits: self.hits@,
            task: match self.stage {
                ConfirmStage::Format(_) => ConfirmTask::Format,
                ConfirmStage::Ask(question) => ConfirmTask::Ask(question@),
                ConfirmStage::Done(yes) => ConfirmTask::Done(yes),
            },
        }
    }
}

/// The sizes of unsure targets, one by one, then their sum.
pub open spec fn sizes_and_sum(hits: Seq<UnsureHit>) -> Seq<u64> {
    Seq::new(hits.len(), |i: int| hits[i].size).push(purge_text::size_sum(hits) as u64)
}

/// A request asks for what the inquiry waits for.
pub open spec fn confirm_asks_for(request: ConfirmRequest, s: ConfirmState) -> bool {
    match (request, s.task) {
        (ConfirmRequest::FormatSizes(sizes), ConfirmTask::Format) => sizes@ == sizes_and_sum(
            s.hits,
        ),
        (ConfirmRequest::Ask(question), ConfirmTask::Ask(q)) => question@ == q,
        (ConfirmRequest::Done(yes), ConfirmTask::Done(y)) => yes == y,
        _ => false,
    }
}

impl ConfirmState {
    /// An inquiry that begins.
    pub open spec fn start(style: Style, hits: Seq<UnsureHit>) -> ConfirmState {
        ConfirmState { style, hits, task: ConfirmTask::Format }
    }

    /// The inquiry after a reply. One that does not fit changes nothing.
    pub open spec fn next(self, reply: ConfirmReply) -> ConfirmState {
        match (self.task, reply) {
            (ConfirmTask::Format, ConfirmReply::Formatted(texts)) => if texts@.len()
                == self.hits.len() + 1 {
                ConfirmState {
                    task: ConfirmTask::Ask(
                        purge_text::question(
                            self.style,
                            self.hits,
                            texts@.drop_last(),
                            texts@.last()@,
                        ),
                    ),
                    ..self
                }
            } else {
                self
            },
            (ConfirmTask::Ask(_), ConfirmReply::Line(line)) => ConfirmState {
                task: ConfirmTask::Done(line matches Some(s) && purge_text::is_yes(s@)),
                ..self
            },
            _ => self,
        }
    }
}

impl Confirm {
    #[verifier::type_invariant]
    spec fn is_consistent(self) -> bool {
        self.stage matches ConfirmStage::Format(total) ==> total == purge_text::size_sum(
            self.hits@,
        )
    }
}

/// Begins to ask about unsure targets.
pub fn confirm_on_stdin(hits: Vec<UnsureHit>, style: Style) -> (r: Confirm)
    requires
        purge_text::size_sum(hits@) <= u64::MAX,
    ensures
        r@ == ConfirmState::start(style, hits@),
{
    let total = unsure_total(hits.as_slice());
    Confirm { style, hits, stage: ConfirmStage::Format(total) }
}

impl Confirm {
    /// What the inquiry wants done next.
    pub fn request(&self) -> (r: ConfirmRequest)
        ensures
            confirm_asks_for(r, self@),
    {
        proof {
            use_type_invariant(self);
        }
        match &self.stage {
            ConfirmStage::Format(total) => {
                let mut sizes: Vec<u64> = Vec::new();
                let mut i: usize = 0;
                while i < self.hits.len()
                    invariant
                        i == sizes@.len() <= self.hits@.len(),
                        forall|j: int| 0 <= j < i ==> sizes@[j] == (#[trigger] self.hits@[j]).size,
                    decreases self.hits@.len() - i,
                {
                    sizes.push(self.hits[i].size);
                    i = i + 1;
                }
                sizes.push(*total);
                assert(sizes@ =~= sizes_and_sum(self.hits@));
                ConfirmRequest::FormatSizes(sizes)
            },
            ConfirmStage::Ask(question) => ConfirmRequest::Ask(question.clone()),
            ConfirmStage::Done(yes) => ConfirmRequest::Done(*yes),
        }
    }

    /// Takes the reply to a request.
    pub fn answer(self, reply: ConfirmReply) -> (r: Confirm)
        ensures
            r@ == self@.next(reply),
    {
        proof {
            use_type_invariant(&self);
        }
        let Confirm { style, hits, stage } = self;
        match (stage, reply) {
            (ConfirmStage::Format(total), ConfirmReply::Formatted(texts)) => {
                if texts.len() == 0 || texts.len() - 1 != hits.len() {
                    return Confirm { style, hits, stage: ConfirmStage::Format(total) };
                }
                let ghost all = texts@;
                let mut sizes = texts;
                let sum = match sizes.pop() {
                    Some(sum) => sum,
                    None => String::new(),
                };
                assert(sizes@ =~= all.drop_last());
                let question = write_question(
                    &style,
                    hits.as_slice(),
                    sizes.as_slice(),
                    sum.as_str(),
                );
                Confirm { style, hits, stage: ConfirmStage::Ask(question) }
            },
            (ConfirmStage::Ask(_), ConfirmReply::Line(line)) => {
                let yes = match &line {
                    Some(s) => confirmation(Some(s.as_str())),
                    None => confirmation(None),
                };
                Confirm { style, hits, stage: ConfirmStage::Done(yes) }
            },
            (stage, _) => Confirm { style, hits, stage },
        }
    }
}

} // verus!
