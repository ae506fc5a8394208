//! What holds of every invocation of the shim, whatever the system replies.

use vstd::prelude::*;

use crate::detached;
use crate::dispatch;
use crate::passthrough;
use crate::passthrough::{ShimOutcome, ShimState, ShimTask};
use crate::style::Style;

verus! {

/// The invocation after the first `i` replies.
pub open spec fn at(start: ShimState, replies: Seq<ShimOutcome>, i: int) -> ShimState
    decreases i,
{
    if i <= 0 {
        start
    } else {
        at(start, replies, i - 1).next(replies[i - 1])
    }
}

/// Ahead of `i` cargo was run, and ended with a code or without one.
pub open spec fn ran(
    start: ShimState,
    replies: Seq<ShimOutcome>,
    i: int,
    code: Option<i32>,
) -> bool {
    exists|j: int|
        0 <= j < i && (#[trigger] at(start, replies, j)).task is RunCargo && replies[j]
            == ShimOutcome::Ran(code)
}

/// Ahead of `i` the search for the real cargo stepped over `own` and found
/// `cargo`.
pub open spec fn resolved(
    start: ShimState,
    replies: Seq<ShimOutcome>,
    i: int,
    own: Seq<u8>,
    cargo: Seq<u8>,
) -> bool {
    exists|j: int|
        0 <= j < i && (#[trigger] at(start, replies, j)).task == (ShimTask::FindCargo { own })
            && replies[j] == ShimOutcome::Cargo(Some(cargo))
}

/// Ahead of `i` the limits turned out to be in order.
pub open spec fn limits_accepted(
    start: ShimState,
    replies: Seq<ShimOutcome>,
    i: int,
) -> bool {
    exists|j: int|
        0 <= j < i && (#[trigger] at(start, replies, j)).task is LoadPolicy && replies[j]
            == ShimOutcome::Policy(None)
}

/// Ahead of `i` the build of a workspace was recorded.
pub open spec fn recorded(start: ShimState, replies: Seq<ShimOutcome>, i: int) -> bool {
    exists|j: int|
        0 <= j < i && (#[trigger] at(start, replies, j)).task is Record && replies[j] is Recorded
}

/// Ahead of `i` the build turned out to be in a workspace.
pub open spec fn in_workspace(start: ShimState, replies: Seq<ShimOutcome>, i: int) -> bool {
    exists|j: int|
        0 <= j < i && (#[trigger] at(start, replies, j)).task is Locate && is_workspace(replies[j])
}

/// A reply names the current directory and its workspace.
pub open spec fn is_workspace(reply: ShimOutcome) -> bool {
    reply matches ShimOutcome::Located { cwd, workspace } && cwd is Some && workspace is Some
}

/// The executable and the cargo of a task that has both.
pub open spec fn parties(task: ShimTask) -> Option<(Seq<u8>, Seq<u8>)> {
    match task {
        ShimTask::Locate { own, cargo } => Some((own, cargo)),
        ShimTask::TargetDir { own, cargo, .. } => Some((own, cargo)),
        ShimTask::Record { own, cargo, .. } => Some((own, cargo)),
        ShimTask::LoadPolicy { own, cargo, .. } => Some((own, cargo)),
        ShimTask::Complain { own, cargo, .. } => Some((own, cargo)),
        ShimTask::RunCargo { own, cargo, .. } => Some((own, cargo)),
        _ => None,
    }
}

spec fn grounded(start: ShimState, replies: Seq<ShimOutcome>, i: int) -> bool {
    let task = at(start, replies, i).task;
    &&& task matches ShimTask::FindCargo { own } ==> own.len() > 0
    &&& parties(task) matches Some(both) ==> both.0.len() > 0 && resolved(
        start,
        replies,
        i,
        both.0,
        both.1,
    )
    &&& task matches ShimTask::RunCargo { cleanup: Some(_), .. } ==> limits_accepted(
        start,
        replies,
        i,
    )
    &&& task matches ShimTask::Spawn { code, .. } ==> limits_accepted(start, replies, i)
        && exists|c: Option<i32>| #[trigger] ran(start, replies, i, c) && code == passthrough::exit_code(c)
    &&& task matches ShimTask::Exit(code) ==> exists|c: Option<i32>|
        #[trigger] ran(start, replies, i, c) && code == passthrough::exit_code(c)
    &&& in_workspace(start, replies, i) ==> recorded(start, replies, i) || task is TargetDir
        || task is Record
    &&& task is OwnExecutable || task is FindCargo || task is Locate ==> !in_workspace(
        start,
        replies,
        i,
    )
}

proof fn lemma_grounded_step(start: ShimState, replies: Seq<ShimOutcome>, i: int)
    requires
        0 <= i < replies.len(),
        grounded(start, replies, i),
    ensures
        grounded(start, replies, i + 1),
{
    let s = at(start, replies, i).task;
    let t = at(start, replies, i + 1).task;
    assert(at(start, replies, i + 1) == at(start, replies, i).next(replies[i]));
    assert forall|own: Seq<u8>, cargo: Seq<u8>| #[trigger]
        resolved(start, replies, i, own, cargo) implies resolved(
        start,
        replies,
        i + 1,
        own,
        cargo,
    ) by {}
    assert forall|c: Option<i32>| #[trigger] ran(start, replies, i, c) implies ran(
        start,
        replies,
        i + 1,
        c,
    ) by {}
    assert(in_workspace(start, replies, i + 1) ==> in_workspace(start, replies, i) || (s is Locate
        && is_workspace(replies[i])));
    if let (ShimTask::FindCargo { own }, ShimOutcome::Cargo(Some(cargo))) = (s, replies[i]) {
        assert(at(start, replies, i).task == (ShimTask::FindCargo { own }));
        assert(resolved(start, replies, i + 1, own, cargo));
    }
    if let (ShimTask::RunCargo { .. }, ShimOutcome::Ran(code)) = (s, replies[i]) {
        assert(at(start, replies, i).task is RunCargo);
        assert(ran(start, replies, i + 1, code));
    }
    if s is LoadPolicy && replies[i] == ShimOutcome::Policy(None) {
        assert(at(start, replies, i).task is LoadPolicy);
        assert(limits_accepted(start, replies, i + 1));
    }
    if s is Record && replies[i] is Recorded {
        assert(at(start, replies, i).task is Record);
        assert(recorded(start, replies, i + 1));
    }
    if limits_accepted(start, replies, i) {
        assert(limits_accepted(start, replies, i + 1));
    }
    if recorded(start, replies, i) {
        assert(recorded(start, replies, i + 1));
    }
    if let ShimTask::Spawn { code, .. } = s {
        let c = choose|c: Option<i32>|
            #[trigger] ran(start, replies, i, c) && code == passthrough::exit_code(c);
        assert(ran(start, replies, i + 1, c));
    }
    if let ShimTask::Exit(code) = s {
        let c = choose|c: Option<i32>|
            #[trigger] ran(start, replies, i, c) && code == passthrough::exit_code(c);
        assert(ran(start, replies, i + 1, c));
    }
}

proof fn lemma_grounded(
    args: Seq<Seq<u8>>,
    style: Style,
    replies: Seq<ShimOutcome>,
    i: int,
)
    requires
        0 <= i <= replies.len(),
    ensures
        grounded(ShimState::start(args, style), replies, i),
    decreases i,
{
    if i > 0 {
        lemma_grounded(args, style, replies, i - 1);
        lemma_grounded_step(ShimState::start(args, style), replies, i - 1);
    }
}

/// The shim exits with the code of the cargo that it ran, or with 1 where that
/// cargo left no code.
pub proof fn the_exit_code_is_cargos(
    args: Seq<Seq<u8>>,
    style: Style,
    replies: Seq<ShimOutcome>,
    i: int,
    code: i32,
)
    requires
        0 <= i <= replies.len(),
        at(ShimState::start(args, style), replies, i).task == ShimTask::Exit(code),
    ensures
        exists|c: Option<i32>|
            #[trigger] ran(ShimState::start(args, style), replies, i, c) && code == passthrough::exit_code(c),
{
    lemma_grounded(args, style, replies, i);
}

/// Cargo is run only where the search for it could step over this executable,
/// so the shim never runs itself.
pub proof fn cargo_is_run_only_past_the_shim(
    args: Seq<Seq<u8>>,
    style: Style,
    replies: Seq<ShimOutcome>,
    i: int,
    own: Seq<u8>,
    cargo: Seq<u8>,
    cleanup: Option<Seq<u8>>,
)
    requires
        0 <= i <= replies.len(),
        at(ShimState::start(args, style), replies, i).task == (ShimTask::RunCargo {
            own,
            cargo,
            cleanup,
        }),
    ensures
        own.len() > 0,
        resolved(ShimState::start(args, style), replies, i, own, cargo),
{
    lemma_grounded(args, style, replies, i);
}

/// The cleanup starts only after cargo ended, and only under limits that are
/// in order.
pub proof fn cleanup_follows_the_build_under_good_limits(
    args: Seq<Seq<u8>>,
    style: Style,
    replies: Seq<ShimOutcome>,
    i: int,
)
    requires
        0 <= i <= replies.len(),
        at(ShimState::start(args, style), replies, i).task is Spawn,
    ensures
        limits_accepted(ShimState::start(args, style), replies, i),
        exists|c: Option<i32>| #[trigger] ran(ShimState::start(args, style), replies, i, c),
{
    lemma_grounded(args, style, replies, i);
}

/// Limits that are not in order never block the build: the complaint about
/// them is followed by cargo, without a cleanup.
pub proof fn bad_limits_do_not_block_the_build(
    s: ShimState,
    own: Seq<u8>,
    cargo: Seq<u8>,
    target: Seq<u8>,
    error: Seq<char>,
)
    requires
        s.task == (ShimTask::LoadPolicy { own, cargo, target }),
    ensures
        s.next(ShimOutcome::Policy(Some(error))).next(ShimOutcome::Complained).task == (
        ShimTask::RunCargo { own, cargo, cleanup: None }),
{
}

/// A build in a workspace is recorded before cargo runs.
pub proof fn a_build_is_recorded_before_it_runs(
    args: Seq<Seq<u8>>,
    style: Style,
    replies: Seq<ShimOutcome>,
    i: int,
)
    requires
        0 <= i <= replies.len(),
        at(ShimState::start(args, style), replies, i).task is RunCargo,
        in_workspace(ShimState::start(args, style), replies, i),
    ensures
        recorded(ShimState::start(args, style), replies, i),
{
    lemma_grounded(args, style, replies, i);
}

/// Cargo is handed the arguments of the shim, byte for byte.
pub proof fn cargo_gets_the_arguments_as_they_are(
    args: Seq<Seq<u8>>,
    style: Style,
    replies: Seq<ShimOutcome>,
    i: int,
)
    requires
        0 <= i <= replies.len(),
    ensures
        at(ShimState::start(args, style), replies, i).args == args,
    decreases i,
{
    if i > 0 {
        cargo_gets_the_arguments_as_they_are(args, style, replies, i - 1);
    }
}

/// The detached child that the shim starts is told from any other call by its
/// arguments alone, whatever name it runs under, and learns the target of the
/// build. An empty target tells it nothing.
pub proof fn the_detached_child_is_recognized(target: Seq<u8>, arg: &[u8])
    requires
        arg@ == target,
    ensures
        dispatch::is_detached(passthrough::child_args(target)),
        passthrough::child_args(target).len() == 2,
        passthrough::child_args(target)[1] == target,
        detached::named_target(Some(arg)) == if target.len() > 0 {
            Some(target)
        } else {
            None
        },
{
}

} // verus!
