//! What the shim hands to cargo and to the cleanup, and what it exits with.

use vstd::prelude::*;
use vstd::string::*;

use crate::messages;
use crate::passthrough;
use crate::passthrough::{ShimOutcome, ShimReply, ShimRequest, ShimState, ShimTask};
use crate::passthrough_laws;
use crate::spelling;
use crate::style::Style;
use crate::text;

verus! {

/// What replies say, one by one.
pub open spec fn outcomes(replies: Seq<ShimReply>) -> Seq<ShimOutcome> {
    replies.map_values(|r: ShimReply| r@)
}

/// The invocation of the shim after the first `i` replies.
pub open spec fn shim_at(
    args: Seq<Seq<u8>>,
    style: Style,
    replies: Seq<ShimReply>,
    i: int,
) -> ShimState {
    passthrough_laws::at(ShimState::start(args, style), outcomes(replies), i)
}

/// The code that an invocation will exit with is `code`.
spec fn will_exit_with(task: ShimTask, code: i32) -> bool {
    match task {
        ShimTask::Spawn { code: c, .. } => c == code,
        ShimTask::Exit(c) => c == code,
        _ => false,
    }
}

proof fn lemma_stays_decided(
    args: Seq<Seq<u8>>,
    style: Style,
    replies: Seq<ShimReply>,
    j: int,
    i: int,
    code: i32,
)
    requires
        0 <= j <= i <= replies.len(),
        will_exit_with(shim_at(args, style, replies, j).task, code),
    ensures
        will_exit_with(shim_at(args, style, replies, i).task, code),
    decreases i - j,
{
    if j < i {
        lemma_stays_decided(args, style, replies, j, i - 1, code);
    }
}

/// Where the real cargo ended with a code, the shim exits with that code, be it
/// zero or not. Where cargo left no code, the shim exits with 1.
pub proof fn the_shim_exits_like_cargo(
    args: Seq<Seq<u8>>,
    style: Style,
    replies: Seq<ShimReply>,
    j: int,
    i: int,
    ended: Option<i32>,
    code: i32,
)
    requires
        0 <= j < i <= replies.len(),
        shim_at(args, style, replies, j).task is RunCargo,
        replies[j] == ShimReply::Ran(ended),
        passthrough::shim_asks_for(ShimRequest::Exit(code), shim_at(args, style, replies, i)),
    ensures
        ended matches Some(c) ==> code == c,
        ended is None ==> code == 1,
{
    assert(outcomes(replies)[j] == replies[j]@);
    let c: i32 = match ended {
        Some(c) => c,
        None => 1i32,
    };
    assert(shim_at(args, style, replies, j + 1) == shim_at(args, style, replies, j).next(
        replies[j]@,
    ));
    assert(will_exit_with(shim_at(args, style, replies, j + 1).task, c));
    lemma_stays_decided(args, style, replies, j + 1, i, c);
}

/// Ahead of `i` cargo was run, and this came of it.
pub open spec fn cargo_ended(
    args: Seq<Seq<u8>>,
    style: Style,
    replies: Seq<ShimReply>,
    i: int,
    ended: Option<i32>,
) -> bool {
    exists|j: int|
        0 <= j < i && (#[trigger] shim_at(args, style, replies, j)).task is RunCargo && replies[j]
            == ShimReply::Ran(ended)
}

/// The shim exits only after cargo was run, and with nothing but its code: with
/// `code` where cargo ended with `code`, or with 1 where cargo left none.
pub proof fn an_exit_code_comes_from_cargo(
    args: Seq<Seq<u8>>,
    style: Style,
    replies: Seq<ShimReply>,
    i: int,
    code: i32,
)
    requires
        0 <= i <= replies.len(),
        passthrough::shim_asks_for(ShimRequest::Exit(code), shim_at(args, style, replies, i)),
    ensures
        cargo_ended(args, style, replies, i, Some(code)) || code == 1 && cargo_ended(
            args,
            style,
            replies,
            i,
            None,
        ),
{
    let start = ShimState::start(args, style);
    let said = outcomes(replies);
    passthrough_laws::the_exit_code_is_cargos(args, style, said, i, code);
    let c = choose|c: Option<i32>|
        #[trigger] passthrough_laws::ran(start, said, i, c) && code == passthrough::exit_code(c);
    let j = choose|j: int|
        0 <= j < i && (#[trigger] passthrough_laws::at(start, said, j)).task is RunCargo && said[j]
            == ShimOutcome::Ran(c);
    assert(said[j] == replies[j]@);
    assert(replies[j] == ShimReply::Ran(c));
    assert(shim_at(args, style, replies, j).task is RunCargo);
    assert(cargo_ended(args, style, replies, i, c));
}

/// A reply names no path of the shim, or no cargo.
pub open spec fn leaves_no_cargo(reply: ShimReply) -> bool {
    match reply {
        ShimReply::Own(None) => true,
        ShimReply::Own(Some(own)) => own@.len() == 0,
        ShimReply::Cargo(None) => true,
        _ => false,
    }
}

/// The shim gives up with 127, and only where it found no path of its own or no
/// cargo: never once cargo was found.
pub proof fn the_shim_gives_up_without_cargo(
    args: Seq<Seq<u8>>,
    style: Style,
    replies: Seq<ShimReply>,
    i: int,
    message: String,
    code: i32,
)
    requires
        0 <= i <= replies.len(),
        passthrough::shim_asks_for(
            (ShimRequest::Reject { message, code }),
            shim_at(args, style, replies, i),
        ),
    ensures
        code == 127,
        exists|j: int| 0 <= j < i && #[trigger] leaves_no_cargo(replies[j]),
    decreases i,
{
    if i > 0 {
        let before = shim_at(args, style, replies, i - 1);
        assert(outcomes(replies)[i - 1] == replies[i - 1]@);
        if before.task is Reject {
            the_shim_gives_up_without_cargo(args, style, replies, i - 1, message, code);
        } else {
            assert(leaves_no_cargo(replies[i - 1]));
        }
    }
}

/// Ahead of `i` the search for cargo found `cargo`.
pub open spec fn cargo_was_found(replies: Seq<ShimReply>, i: int, cargo: Seq<u8>) -> bool {
    exists|j: int|
        0 <= j < i && #[trigger] is_cargo_reply(replies[j], cargo)
}

pub open spec fn is_cargo_reply(reply: ShimReply, cargo: Seq<u8>) -> bool {
    reply matches ShimReply::Cargo(Some(p)) && p@ == cargo
}

/// The cargo that is run is the one that the search found, and it is handed the
/// arguments of the shim: as many, each byte for byte, in their order.
pub proof fn cargo_is_run_as_the_shim_was(
    args: Seq<Seq<u8>>,
    style: Style,
    replies: Seq<ShimReply>,
    i: int,
    cargo: Vec<u8>,
    handed: Vec<Vec<u8>>,
)
    requires
        0 <= i <= replies.len(),
        passthrough::shim_asks_for(
            (ShimRequest::RunCargo { cargo, args: handed }),
            shim_at(args, style, replies, i),
        ),
    ensures
        cargo_was_found(replies, i, cargo@),
        handed@.len() == args.len(),
        forall|k: int| 0 <= k < args.len() ==> (#[trigger] handed@[k])@ == args[k],
{
    let start = ShimState::start(args, style);
    let said = outcomes(replies);
    passthrough_laws::cargo_gets_the_arguments_as_they_are(args, style, said, i);
    assert forall|k: int| 0 <= k < args.len() implies (#[trigger] handed@[k])@ == args[k] by {
        assert(text::contents(handed@)[k] == handed@[k]@);
    }
    if let ShimTask::RunCargo { own, cargo: found, cleanup } = shim_at(
        args,
        style,
        replies,
        i,
    ).task {
        passthrough_laws::cargo_is_run_only_past_the_shim(
            args,
            style,
            said,
            i,
            own,
            found,
            cleanup,
        );
        let j = choose|j: int|
            0 <= j < i && (#[trigger] passthrough_laws::at(start, said, j)).task == (
            ShimTask::FindCargo { own }) && said[j] == ShimOutcome::Cargo(Some(found));
        assert(said[j] == replies[j]@);
        assert(is_cargo_reply(replies[j], cargo@));
    }
}

/// The cleanup is started with two arguments: the word `__gc-detached`, and the
/// target of the build.
pub proof fn the_cleanup_is_told_the_target(
    s: ShimState,
    target: Seq<u8>,
    own: Vec<u8>,
    handed: Vec<Vec<u8>>,
    mine: Seq<u8>,
    code: i32,
)
    requires
        s.task == (ShimTask::Spawn { own: mine, target, code }),
        passthrough::shim_asks_for((ShimRequest::Spawn { own, args: handed }), s),
    ensures
        own@ == mine,
        handed@.len() == 2,
        handed@[0]@ == seq![
            95u8,
            95u8,
            103u8,
            99u8,
            45u8,
            100u8,
            101u8,
            116u8,
            97u8,
            99u8,
            104u8,
            101u8,
            100u8,
        ],
        handed@[1]@ == target,
{
    spelling::child_verb();
    let told = text::contents(handed@);
    assert(told == passthrough::child_args(target));
    assert(told.len() == 2 && told[1] == target);
    assert(text::contents(handed@)[0] == handed@[0]@);
    assert(text::contents(handed@)[1] == handed@[1]@);
}

/// Step by step: the own path leads to the search, the found cargo to the
/// workspace, a workspace to its target directory, that to the record, the
/// record to the limits, and good limits to cargo with a cleanup of that target.
/// Outside a workspace nothing is recorded, and the cleanup has no target. Bad
/// limits are complained about, and cargo runs without a cleanup.
pub proof fn the_way_to_cargo(
    s: ShimState,
    own: Vec<u8>,
    cargo: Vec<u8>,
    cwd: Vec<u8>,
    workspace: Vec<u8>,
    target: Vec<u8>,
)
    requires
        s.task is OwnExecutable,
        own@.len() > 0,
    ensures
        ({
            let found = s.next(ShimReply::Own(Some(own))@).next(ShimReply::Cargo(Some(cargo))@);
            let inside = found.next(
                (ShimReply::Located { cwd: Some(cwd), workspace: Some(workspace) })@,
            );
            let known = inside.next(ShimReply::Target(target)@);
            let outside = found.next((ShimReply::Located { cwd: Some(cwd), workspace: None })@);
            let nowhere = found.next(
                (ShimReply::Located { cwd: None, workspace: Some(workspace) })@,
            );
            &&& found.task == (ShimTask::Locate { own: own@, cargo: cargo@ })
            &&& inside.task == (ShimTask::TargetDir {
                own: own@,
                cargo: cargo@,
                cwd: cwd@,
                workspace: workspace@,
            })
            &&& known.task == (ShimTask::Record {
                own: own@,
                cargo: cargo@,
                workspace: workspace@,
                target: target@,
            })
            &&& known.next(ShimReply::Recorded@).next(ShimReply::Policy(None)@).task == (
            ShimTask::RunCargo { own: own@, cargo: cargo@, cleanup: Some(target@) })
            &&& outside.next(ShimReply::Policy(None)@).task == (ShimTask::RunCargo {
                own: own@,
                cargo: cargo@,
                cleanup: Some(Seq::<u8>::empty()),
            })
            &&& nowhere.task == outside.task
        }),
{
}

/// The cleanup around a target starts once cargo ended, if it was enabled, and
/// the shim exits once it was started.
pub proof fn the_way_from_cargo(
    s: ShimState,
    own: Seq<u8>,
    cargo: Seq<u8>,
    target: Seq<u8>,
    c: i32,
)
    ensures
        s.task == (ShimTask::RunCargo { own, cargo, cleanup: Some(target) }) ==> s.next(
            ShimReply::Ran(Some(c))@,
        ).task == (ShimTask::Spawn { own, target, code: c }) && s.next(
            ShimReply::Ran(Some(c))@,
        ).next(ShimReply::Spawned@).task == ShimTask::Exit(c) && s.next(ShimReply::Ran(None)@).next(
            ShimReply::Spawned@,
        ).task == ShimTask::Exit(1),
        s.task == (ShimTask::RunCargo { own, cargo, cleanup: None }) ==> s.next(
            ShimReply::Ran(Some(c))@,
        ).task == ShimTask::Exit(c) && s.next(ShimReply::Ran(None)@).task == ShimTask::Exit(1),
{
}

/// The target directory is asked for with the arguments as texts, the current
/// directory and the workspace. What is recorded is the workspace and that
/// directory, as texts. A complaint is written as it is.
pub proof fn the_shim_asks_for_what_it_waits_for(
    s: ShimState,
    own: Vec<u8>,
    args: Vec<String>,
    cwd: Vec<u8>,
    workspace: Vec<u8>,
    place: String,
    target: String,
    message: String,
    k: int,
)
    ensures
        passthrough::shim_asks_for(ShimRequest::OwnExecutable, s) == (s.task is OwnExecutable),
        passthrough::shim_asks_for(ShimRequest::Locate, s) == (s.task is Locate),
        passthrough::shim_asks_for(ShimRequest::LoadPolicy, s) == (s.task is LoadPolicy),
        passthrough::shim_asks_for((ShimRequest::FindCargo { own }), s) == (s.task == (
        ShimTask::FindCargo { own: own@ })),
        passthrough::shim_asks_for((ShimRequest::TargetDir { args, cwd, workspace }), s) ==> (
        s.task matches ShimTask::TargetDir { cwd: c, workspace: w, .. } && c == cwd@ && w
            == workspace@ && args@.len() == s.args.len() && (0 <= k < args@.len() ==> args@[k]@
            == text::shown(s.args[k]))),
        passthrough::shim_asks_for((ShimRequest::Record { workspace: place, target }), s) ==> (
        s.task matches ShimTask::Record { workspace: w, target: t, .. } && place@ == text::shown(w)
            && target@ == text::shown(t)),
        passthrough::shim_asks_for(ShimRequest::Complain(message), s) ==> (
        s.task matches ShimTask::Complain { message: m, .. } && m == message@),
{
}

/// What the shim says when it gives up, and when it goes on under bad limits.
pub proof fn the_shim_says_what_is_wrong(
    s: ShimState,
    own: Seq<u8>,
    cargo: Seq<u8>,
    target: Seq<u8>,
    error: String,
)
    ensures
        s.task is OwnExecutable ==> s.next(ShimReply::Own(None)@).task == ShimTask::Reject(
            messages::complaint(
                s.error_style,
                "cannot determine own executable path; refusing to search for the real `cargo`"@,
            ),
        ),
        s.task == (ShimTask::FindCargo { own }) ==> s.next(ShimReply::Cargo(None)@).task
            == ShimTask::Reject(
            messages::complaint(s.error_style, "could not find the real `cargo` on PATH"@),
        ),
        s.task == (ShimTask::LoadPolicy { own, cargo, target }) ==> s.next(
            ShimReply::Policy(Some(error))@,
        ).task == (ShimTask::Complain {
            own,
            cargo,
            message: messages::complaint(
                s.error_style,
                error@ + "; automatic cleanup disabled"@,
            ),
        }),
{
}

} // verus!
