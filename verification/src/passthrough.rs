//! One invocation of the shim, from the arguments to the exit code of the real
//! cargo.

use vstd::prelude::*;
use vstd::string::*;
use vstd::utf8::*;

use crate::messages;
use crate::messages::write_complaint;
use crate::shim::GC_DETACHED_VERB;
use crate::style::Style;
use crate::text;
use crate::text::{copy_all, copy_bytes, show};
use crate::walk;

verus! {

/// What the shim wants done next.
pub enum ShimRequest {
    /// Write a message to the error stream and exit.
    Reject { message: String, code: i32 },
    /// The path of the running executable.
    OwnExecutable,
    /// The first `cargo` on `PATH` that is not this executable.
    FindCargo { own: Vec<u8> },
    /// The current directory, and the workspace it is in.
    Locate,
    /// The target directory of a cargo call in a workspace.
    TargetDir { args: Vec<String>, cwd: Vec<u8>, workspace: Vec<u8> },
    /// Record that a workspace is being built.
    Record { workspace: String, target: String },
    /// Read the size limits.
    LoadPolicy,
    /// Write a message to the error stream and go on.
    Complain(String),
    /// Run the real cargo to its end.
    RunCargo { cargo: Vec<u8>, args: Vec<Vec<u8>> },
    /// Start this executable again, detached.
    Spawn { own: Vec<u8>, args: Vec<Vec<u8>> },
    Exit(i32),
}

/// The reply to a request.
pub enum ShimReply {
    Own(Option<Vec<u8>>),
    Cargo(Option<Vec<u8>>),
    Located { cwd: Option<Vec<u8>>, workspace: Option<Vec<u8>> },
    Target(Vec<u8>),
    Recorded,
    /// What is wrong with the limits, where something is.
    Policy(Option<String>),
    Complained,
    /// The exit code, where cargo could be run and was not killed.
    Ran(Option<i32>),
    Spawned,
}

enum ShimStage {
    OwnExecutable,
    Reject(String),
    FindCargo { own: Vec<u8> },
    Locate { own: Vec<u8>, cargo: Vec<u8> },
    TargetDir { own: Vec<u8>, cargo: Vec<u8>, cwd: Vec<u8>, workspace: Vec<u8> },
    Record { own: Vec<u8>, cargo: Vec<u8>, workspace: Vec<u8>, target: Vec<u8> },
    LoadPolicy { own: Vec<u8>, cargo: Vec<u8>, target: Vec<u8> },
    Complain { own: Vec<u8>, cargo: Vec<u8>, message: String },
    RunCargo { own: Vec<u8>, cargo: Vec<u8>, cleanup: Option<Vec<u8>> },
    Spawn { own: Vec<u8>, target: Vec<u8>, code: i32 },
    Exit(i32),
}

/// One invocation under way.
pub struct Passthrough {
    args: Vec<Vec<u8>>,
    error_style: Style,
    stage: ShimStage,
}

/// The model of what an invocation waits for.
pub enum ShimTask {
    OwnExecutable,
    /// Refuse, with a message.
    Reject(Seq<char>),
    FindCargo { own: Seq<u8> },
    Locate { own: Seq<u8>, cargo: Seq<u8> },
    TargetDir { own: Seq<u8>, cargo: Seq<u8>, cwd: Seq<u8>, workspace: Seq<u8> },
    Record { own: Seq<u8>, cargo: Seq<u8>, workspace: Seq<u8>, target: Seq<u8> },
    /// The target is empty where the build is in no workspace.
    LoadPolicy { own: Seq<u8>, cargo: Seq<u8>, target: Seq<u8> },
    Complain { own: Seq<u8>, cargo: Seq<u8>, message: Seq<char> },
    /// Run cargo, and clean up around a target afterwards, where that is
    /// enabled.
    RunCargo { own: Seq<u8>, cargo: Seq<u8>, cleanup: Option<Seq<u8>> },
    Spawn { own: Seq<u8>, target: Seq<u8>, code: i32 },
    Exit(i32),
}

/// The model of a reply.
pub enum ShimOutcome {
    Own(Option<Seq<u8>>),
    Cargo(Option<Seq<u8>>),
    Located { cwd: Option<Seq<u8>>, workspace: Option<Seq<u8>> },
    Target(Seq<u8>),
    Recorded,
    Policy(Option<Seq<char>>),
    Complained,
    Ran(Option<i32>),
    Spawned,
}

/// The model of one invocation under way.
#[verifier::ext_equal]
pub struct ShimState {
    pub args: Seq<Seq<u8>>,
    pub error_style: Style,
    pub task: ShimTask,
}

impl View for ShimReply {
    type V = ShimOutcome;

    open spec fn view(&self) -> ShimOutcome {
        match self {
            ShimReply::Own(p) => ShimOutcome::Own(walk::bytes_of(*p)),
            ShimReply::Cargo(p) => ShimOutcome::Cargo(walk::bytes_of(*p)),
            ShimReply::Located { cwd, workspace } => ShimOutcome::Located {
                cwd: walk::bytes_of(*cwd),
                workspace: walk::bytes_of(*workspace),
            },
            ShimReply::Target(p) => ShimOutcome::Target(p@),
            ShimReply::Recorded => ShimOutcome::Recorded,
            ShimReply::Policy(None) => ShimOutcome::Policy(None),
            ShimReply::Policy(Some(error)) => ShimOutcome::Policy(Some(error@)),
            ShimReply::Complained => ShimOutcome::Complained,
            ShimReply::Ran(code) => ShimOutcome::Ran(*code),
            ShimReply::Spawned => ShimOutcome::Spawned,
        }
    }
}

impl ShimStage {
    spec fn task(self) -> ShimTask {
        match self {
            ShimStage::OwnExecutable => ShimTask::OwnExecutable,
            ShimStage::Reject(message) => ShimTask::Reject(message@),
            ShimStage::FindCargo { own } => ShimTask::FindCargo { own: own@ },
            ShimStage::Locate { own, cargo } => ShimTask::Locate { own: own@, cargo: cargo@ },
            ShimStage::TargetDir { own, cargo, cwd, workspace } => ShimTask::TargetDir {
                own: own@,
                cargo: cargo@,
                cwd: cwd@,
                workspace: workspace@,
            },
            ShimStage::Record { own, cargo, workspace, target } => ShimTask::Record {
                own: own@,
                cargo: cargo@,
                workspace: workspace@,
                target: target@,
            },
            ShimStage::LoadPolicy { own, cargo, target } => ShimTask::LoadPolicy {
                own: own@,
                cargo: cargo@,
                target: target@,
            },
            ShimStage::Complain { own, cargo, message } => ShimTask::Complain {
                own: own@,
                cargo: cargo@,
                message: message@,
            },
            ShimStage::RunCargo { own, cargo, cleanup } => ShimTask::RunCargo {
                own: own@,
                cargo: cargo@,
                cleanup: walk::bytes_of(cleanup),
            },
            ShimStage::Spawn { own, target, code } => ShimTask::Spawn {
                own: own@,
                target: target@,
                code,
            },
            ShimStage::Exit(code) => ShimTask::Exit(code),
        }
    }
}

impl View for Passthrough {
    type V = ShimState;

    closed spec fn view(&self) -> ShimState {
        ShimState {
            args: text::contents(self.args@),
            error_style: self.error_style,
            task: self.stage.task(),
        }
    }
}

/// The arguments of the detached child: its verb, then the target of the build
/// that just ended.
pub open spec fn child_args(target: Seq<u8>) -> Seq<Seq<u8>> {
    seq![encode_utf8("__gc-detached"@), target]
}

/// A request asks for what an invocation waits for. A refusal exits with 127.
pub open spec fn shim_asks_for(request: ShimRequest, s: ShimState) -> bool {
    match (request, s.task) {
        (ShimRequest::Reject { message, code }, ShimTask::Reject(m)) => message@ == m && code
            == 127,
        (ShimRequest::OwnExecutable, ShimTask::OwnExecutable) => true,
        (ShimRequest::FindCargo { own: p }, ShimTask::FindCargo { own }) => p@ == own,
        (ShimRequest::Locate, ShimTask::Locate { .. }) => true,
        (
            ShimRequest::TargetDir { args, cwd: c, workspace: w },
            ShimTask::TargetDir { cwd, workspace, .. },
        ) => c@ == cwd && w@ == workspace && args@.len() == s.args.len() && forall|i: int|
            0 <= i < args@.len() ==> (#[trigger] args@[i])@ == text::shown(s.args[i]),
        (
            ShimRequest::Record { workspace: w, target: t },
            ShimTask::Record { workspace, target, .. },
        ) => w@ == text::shown(workspace) && t@ == text::shown(target),
        (ShimRequest::LoadPolicy, ShimTask::LoadPolicy { .. }) => true,
        (ShimRequest::Complain(m), ShimTask::Complain { message, .. }) => m@ == message,
        (ShimRequest::RunCargo { cargo: c, args }, ShimTask::RunCargo { cargo, .. }) => c@ == cargo
            && text::contents(args@) == s.args,
        (ShimRequest::Spawn { own: p, args }, ShimTask::Spawn { own, target, .. }) => p@ == own
            && text::contents(args@) == child_args(target),
        (ShimRequest::Exit(c), ShimTask::Exit(code)) => c == code,
        _ => false,
    }
}

impl ShimState {
    /// An invocation that begins.
    pub open spec fn start(args: Seq<Seq<u8>>, error_style: Style) -> ShimState {
        ShimState { args, error_style, task: ShimTask::OwnExecutable }
    }

    /// The invocation after a reply. One that does not fit changes nothing.
    pub open spec fn next(self, reply: ShimOutcome) -> ShimState {
        ShimState {
            task: match (self.task, reply) {
                // Without a trustworthy own path there is no way to step over
                // the shim symlink: a search would find this executable first
                // and start it without end.
                (ShimTask::OwnExecutable, ShimOutcome::Own(own)) => if own is Some && own->0.len()
                    > 0 {
                    ShimTask::FindCargo { own: own->0 }
                } else {
                    ShimTask::Reject(
                        messages::complaint(
                            self.error_style,
                            "cannot determine own executable path; refusing to search for the real `cargo`"@,
                        ),
                    )
                },
                (ShimTask::FindCargo { own }, ShimOutcome::Cargo(Some(cargo))) => ShimTask::Locate {
                    own,
                    cargo,
                },
                (ShimTask::FindCargo { own }, ShimOutcome::Cargo(None)) => ShimTask::Reject(
                    messages::complaint(
                        self.error_style,
                        "could not find the real `cargo` on PATH"@,
                    ),
                ),
                (
                    ShimTask::Locate { own, cargo },
                    ShimOutcome::Located { cwd, workspace },
                ) => match (cwd, workspace) {
                    (Some(cwd), Some(workspace)) => ShimTask::TargetDir {
                        own,
                        cargo,
                        cwd,
                        workspace,
                    },
                    _ => ShimTask::LoadPolicy { own, cargo, target: Seq::empty() },
                },
                (
                    ShimTask::TargetDir { own, cargo, workspace, .. },
                    ShimOutcome::Target(target),
                ) => ShimTask::Record { own, cargo, workspace, target },
                (
                    ShimTask::Record { own, cargo, target, .. },
                    ShimOutcome::Recorded,
                ) => ShimTask::LoadPolicy { own, cargo, target },
                // Bad limits disable the cleanup but never block the build.
                (
                    ShimTask::LoadPolicy { own, cargo, target },
                    ShimOutcome::Policy(None),
                ) => ShimTask::RunCargo { own, cargo, cleanup: Some(target) },
                (
                    ShimTask::LoadPolicy { own, cargo, target },
                    ShimOutcome::Policy(Some(error)),
                ) => ShimTask::Complain {
                    own,
                    cargo,
                    message: messages::complaint(
                        self.error_style,
                        error + "; automatic cleanup disabled"@,
                    ),
                },
                (
                    ShimTask::Complain { own, cargo, .. },
                    ShimOutcome::Complained,
                ) => ShimTask::RunCargo { own, cargo, cleanup: None },
                (
                    ShimTask::RunCargo { own, cleanup, .. },
                    ShimOutcome::Ran(code),
                ) => match cleanup {
                    Some(target) => ShimTask::Spawn { own, target, code: exit_code(code) },
                    None => ShimTask::Exit(exit_code(code)),
                },
                (ShimTask::Spawn { code, .. }, ShimOutcome::Spawned) => ShimTask::Exit(code),
                (task, _) => task,
            },
            ..self
        }
    }
}

/// The exit code of the shim: that of cargo, or 1 where there is none.
pub open spec fn exit_code(ran: Option<i32>) -> i32 {
    match ran {
        Some(code) => code,
        None => 1,
    }
}

/// Begins to forward an invocation. The arguments are byte strings: the shim
/// forwards whatever the real cargo accepts.
pub fn passthrough(args: Vec<Vec<u8>>, error_style: Style) -> (r: Passthrough)
    ensures
        r@ == ShimState::start(text::contents(args@), error_style),
{
    Passthrough { args, error_style, stage: ShimStage::OwnExecutable }
}

fn show_all(v: &Vec<Vec<u8>>) -> (r: Vec<String>)
    ensures
        r@.len() == v@.len(),
        forall|i: int| 0 <= i < r@.len() ==> (#[trigger] r@[i])@ == text::shown(v@[i]@),
{
    let mut r: Vec<String> = Vec::new();
    let mut i: usize = 0;
    while i < v.len()
        invariant
            i == r@.len() <= v@.len(),
            forall|j: int| 0 <= j < i ==> (#[trigger] r@[j])@ == text::shown(v@[j]@),
        decreases v@.len() - i,
    {
        r.push(show(v[i].as_slice()));
        i = i + 1;
    }
    r
}

/// Writes the notice that the cleanup is disabled, with what is wrong with the
/// limits.
fn disabled_notice(error_style: &Style, error: &str) -> (r: String)
    ensures
        r@ == messages::complaint(*error_style, error@ + "; automatic cleanup disabled"@),
{
    let mut notice = error.to_owned();
    notice.append("; automatic cleanup disabled");
    write_complaint(error_style, notice.as_str())
}

impl Passthrough {
    /// What the shim wants done next.
    pub fn request(&self) -> (r: ShimRequest)
        ensures
            shim_asks_for(r, self@),
    {
        match &self.stage {
            ShimStage::OwnExecutable => ShimRequest::OwnExecutable,
            ShimStage::Reject(message) => ShimRequest::Reject {
                message: message.clone(),
                code: 127,
            },
            ShimStage::FindCargo { own } => ShimRequest::FindCargo {
                own: copy_bytes(own.as_slice()),
            },
            ShimStage::Locate { .. } => ShimRequest::Locate,
            ShimStage::TargetDir { cwd, workspace, .. } => ShimRequest::TargetDir {
                args: show_all(&self.args),
                cwd: copy_bytes(cwd.as_slice()),
                workspace: copy_bytes(workspace.as_slice()),
            },
            ShimStage::Record { workspace, target, .. } => ShimRequest::Record {
                workspace: show(workspace.as_slice()),
                target: show(target.as_slice()),
            },
            ShimStage::LoadPolicy { .. } => ShimRequest::LoadPolicy,
            ShimStage::Complain { message, .. } => ShimRequest::Complain(message.clone()),
            ShimStage::RunCargo { cargo, .. } => ShimRequest::RunCargo {
                cargo: copy_bytes(cargo.as_slice()),
                args: copy_all(&self.args),
            },
            ShimStage::Spawn { own, target, .. } => {
                let mut args: Vec<Vec<u8>> = Vec::new();
                args.push(GC_DETACHED_VERB.as_bytes_vec());
                args.push(copy_bytes(target.as_slice()));
                assert(text::contents(args@) =~= child_args(target@));
                ShimRequest::Spawn { own: copy_bytes(own.as_slice()), args }
            },
            ShimStage::Exit(code) => ShimRequest::Exit(*code),
        }
    }

    /// Takes the reply to a request.
    pub fn answer(self, reply: ShimReply) -> (r: Passthrough)
        ensures
            r@ == self@.next(reply@),
    {
        let Passthrough { args, error_style, stage } = self;
        let stage = match (stage, reply) {
            (ShimStage::OwnExecutable, ShimReply::Own(Some(own))) => if own.len() > 0 {
                ShimStage::FindCargo { own }
            } else {
                ShimStage::Reject(
                    write_complaint(
                        &error_style,
                        "cannot determine own executable path; refusing to search for the real `cargo`",
                    ),
                )
            },
            (ShimStage::OwnExecutable, ShimReply::Own(None)) => ShimStage::Reject(
                write_complaint(
                    &error_style,
                    "cannot determine own executable path; refusing to search for the real `cargo`",
                ),
            ),
            (ShimStage::FindCargo { own }, ShimReply::Cargo(Some(cargo))) => ShimStage::Locate {
                own,
                cargo,
            },
            (ShimStage::FindCargo { .. }, ShimReply::Cargo(None)) => ShimStage::Reject(
                write_complaint(&error_style, "could not find the real `cargo` on PATH"),
            ),
            (
                ShimStage::Locate { own, cargo },
                ShimReply::Located { cwd: Some(cwd), workspace: Some(workspace) },
            ) => ShimStage::TargetDir { own, cargo, cwd, workspace },
            (ShimStage::Locate { own, cargo }, ShimReply::Located { .. }) => {
                let target: Vec<u8> = Vec::new();
                assert(target@ =~= Seq::empty());
                ShimStage::LoadPolicy { own, cargo, target }
            },
            (
                ShimStage::TargetDir { own, cargo, workspace, .. },
                ShimReply::Target(target),
            ) => ShimStage::Record { own, cargo, workspace, target },
            (
                ShimStage::Record { own, cargo, target, .. },
                ShimReply::Recorded,
            ) => ShimStage::LoadPolicy { own, cargo, target },
            (
                ShimStage::LoadPolicy { own, cargo, target },
                ShimReply::Policy(None),
            ) => ShimStage::RunCargo { own, cargo, cleanup: Some(target) },
            (ShimStage::LoadPolicy { own, cargo, .. }, ShimReply::Policy(Some(error))) => {
                let message = disabled_notice(&error_style, error.as_str());
                ShimStage::Complain { own, cargo, message }
            },
            (
                ShimStage::Complain { own, cargo, .. },
                ShimReply::Complained,
            ) => ShimStage::RunCargo { own, cargo, cleanup: None },
            (ShimStage::RunCargo { own, cleanup, .. }, ShimReply::Ran(ran)) => {
                let code = match ran {
                    Some(code) => code,
                    None => 1,
                };
                match cleanup {
                    Some(target) => ShimStage::Spawn { own, target, code },
                    None => ShimStage::Exit(code),
                }
            },
            (ShimStage::Spawn { code, .. }, ShimReply::Spawned) => ShimStage::Exit(code),
            (stage, _) => stage,
        };
        Passthrough { args, error_style, stage }
    }
}

} // verus!
