//! What the program does under which name and with which arguments.

use vstd::prelude::*;
use vstd::string::*;
use vstd::utf8::*;

use crate::cli;
use crate::cli::Command;
use crate::delete;
use crate::delete::{DeleteReply, DeleteRequest, DeleteState, DeleteTask};
use crate::detached;
use crate::detached::{CleanupReply, CleanupRequest, CleanupState, CleanupTask};
use crate::dispatch;
use crate::dispatch::Route;
use crate::ls;
use crate::path;
use crate::purge::Deletion;
use crate::purge_command;
use crate::shim;
use crate::shim::ShimStatus;
use crate::spelling;
use crate::style::Style;
use crate::text;

verus! {

proof fn lemma_words()
    ensures
        encode_utf8("__gc-detached"@) == seq![95u8, 95u8, 103u8, 99u8, 45u8, 100u8, 101u8, 116u8, 97u8, 99u8, 104u8, 101u8, 100u8],
        encode_utf8("cargo"@) == seq![99u8, 97u8, 114u8, 103u8, 111u8],
        encode_utf8("cargo-"@) == seq![99u8, 97u8, 114u8, 103u8, 111u8, 45u8],
{
    spelling::child_verb();
    spelling::cargo();
    spelling::cargo_prefix();
}

/// With the word `__gc-detached` ahead, the program is the cleanup, under
/// whatever name, and is given the word behind it. Without that word it is not.
pub proof fn the_cleanup_is_told_by_its_verb(
    argv0: Option<&[u8]>,
    args: Seq<Vec<u8>>,
    r: Route,
)
    requires
        dispatch::is_route(argv0, args, r),
    ensures
        (r is DetachedGc) == (args.len() > 0 && args[0]@ == seq![95u8, 95u8, 103u8, 99u8, 45u8, 100u8, 101u8, 116u8, 97u8, 99u8, 104u8, 101u8, 100u8]),
        r matches Route::DetachedGc(Some(p)) ==> args.len() > 1 && p@ == args[1]@,
        r == Route::DetachedGc(None) ==> args.len() == 1,
{
    lemma_words();
    if args.len() > 0 {
        assert(text::contents(args)[0] == args[0]@);
    }
    if args.len() > 1 {
        assert(text::contents(args)[1] == args[1]@);
    }
}

/// Called as `cargo`, in whatever directory, the program forwards every call but
/// that of its own cleanup.
pub proof fn a_program_named_cargo_forwards(
    dir: Seq<u8>,
    argv0: &[u8],
    args: Seq<Vec<u8>>,
    r: Route,
)
    requires
        dispatch::is_route(Some(argv0), args, r),
        argv0@ == path::join(dir, seq![99u8, 97u8, 114u8, 103u8, 111u8]),
        args.len() > 0 ==> args[0]@ != seq![95u8, 95u8, 103u8, 99u8, 45u8, 100u8, 101u8, 116u8, 97u8, 99u8, 104u8, 101u8, 100u8],
    ensures
        r is Passthrough,
{
    lemma_words();
    let name = seq![99u8, 97u8, 114u8, 103u8, 111u8];
    path::a_name_has_no_slash(name);
    path::places_are_told_apart_by_names(dir, name, name);
    if args.len() > 0 {
        assert(text::contents(args)[0] == args[0]@);
    }
    assert(name.len() == 5 && seq!['.' as u8, '.' as u8].len() == 2);
}

/// Under any other name no call is forwarded.
pub proof fn only_a_program_named_cargo_forwards(
    dir: Seq<u8>,
    name: Seq<u8>,
    argv0: &[u8],
    args: Seq<Vec<u8>>,
    r: Route,
)
    requires
        dispatch::is_route(Some(argv0), args, r),
        argv0@ == path::join(dir, name),
        path::is_plain(name),
        name != seq![99u8, 97u8, 114u8, 103u8, 111u8],
    ensures
        !(r is Passthrough),
{
    lemma_words();
    path::places_are_told_apart_by_names(dir, name, name);
}

/// Called as `cargo-x`, the program drops a first argument `x`, and nothing
/// else. In every other case the command line gets the arguments as they are.
pub proof fn only_the_token_of_the_convention_is_dropped(
    dir: Seq<u8>,
    name: Seq<u8>,
    argv0: &[u8],
    args: Seq<Vec<u8>>,
    rest: &[Vec<u8>],
)
    requires
        dispatch::is_route(Some(argv0), args, Route::Cli(rest)),
        argv0@ == path::join(dir, name),
        path::is_plain(name),
        name != seq!['.' as u8, '.' as u8],
    ensures
        valid_utf8(name) && args.len() > 0 && name == seq![99u8, 97u8, 114u8, 103u8, 111u8, 45u8] + args[0]@ ==> rest@
            == args.skip(1),
        !(valid_utf8(name) && args.len() > 0 && name == seq![99u8, 97u8, 114u8, 103u8, 111u8, 45u8] + args[0]@) ==> rest@ == args,
{
    lemma_words();
    path::places_are_told_apart_by_names(dir, name, name);
    if args.len() > 0 {
        assert(text::contents(args)[0] == args[0]@);
    }
}

/// Without a name of its own the program is the command line, with its arguments
/// as they are.
pub proof fn a_nameless_program_is_the_command_line(args: Seq<Vec<u8>>, r: Route)
    requires
        dispatch::is_route(None, args, r),
        args.len() > 0 ==> args[0]@ != seq![95u8, 95u8, 103u8, 99u8, 45u8, 100u8, 101u8, 116u8, 97u8, 99u8, 104u8, 101u8, 100u8],
    ensures
        r matches Route::Cli(rest) && rest@ == args,
{
    lemma_words();
    if args.len() > 0 {
        assert(text::contents(args)[0] == args[0]@);
    }
}

/// The first argument tells the command: `purge`, `ls`, or one of `--version`,
/// `-V` and `version`. The arguments behind it are those of the command. Any
/// other first argument, and none, is answered with the usage and code 2.
pub proof fn the_verb_tells_the_command(
    args: Seq<Seq<u8>>,
    name: Seq<char>,
    version: Seq<char>,
    style: Style,
    error_style: Style,
    r: Command,
)
    requires
        cli::is_command(args, name, version, style, error_style, r),
    ensures
        (r is Purge) == (args.len() > 0 && args[0] == seq![112u8, 117u8, 114u8, 103u8, 101u8]),
        (r is Ls) == (args.len() > 0 && args[0] == seq![108u8, 115u8]),
        (r is Version) == (args.len() > 0 && (args[0] == seq![45u8, 45u8, 118u8, 101u8, 114u8, 115u8, 105u8, 111u8, 110u8] || args[0] == seq![45u8, 86u8]
            || args[0] == seq![118u8, 101u8, 114u8, 115u8, 105u8, 111u8, 110u8])),
        r matches Command::Purge(run) ==> purge_command::is_begun(
            run@,
            args.skip(1),
            style,
            error_style,
        ),
        r matches Command::Ls(list) ==> ls::is_begun(list@, args.skip(1), style, error_style),
        r matches Command::Version { text, code } ==> code == 0 && text@ == name + seq![' ']
            + version + seq!['\n'],
        r matches Command::Usage { code, .. } ==> code == 2,
{
    spelling::purge();
    spelling::ls();
    spelling::long_version();
    spelling::short_version();
    spelling::version();
    reveal_strlit(" ");
    reveal_strlit("\n");
    assert(" "@ =~= seq![' ']);
    assert("\n"@ =~= seq!['\n']);
    let (a, b, c, d, e) = (seq![112u8, 117u8, 114u8, 103u8, 101u8], seq![108u8, 115u8], seq![45u8, 45u8, 118u8, 101u8, 114u8, 115u8, 105u8, 111u8, 110u8], seq![45u8, 86u8], seq![118u8, 101u8, 114u8, 115u8, 105u8, 111u8, 110u8]);
    assert(a.len() == 5 && b.len() == 2 && c.len() == 9 && d.len() == 2 && e.len() == 7);
    assert(b[0] == 'l' as u8 && d[0] == '-' as u8);
}

/// The shim is active where the `cargo` that is found and this binary are one
/// file. Where either cannot be told, or they differ, the found one is named;
/// where none is found, that is said.
pub proof fn the_shim_is_active_where_it_is_found(
    found: Option<Vec<u8>>,
    theirs: Option<Seq<u8>>,
    own: Option<Seq<u8>>,
    r: ShimStatus,
)
    requires
        shim::is_status(found, theirs, own, r),
    ensures
        (r is NoCargo) == (found is None),
        (r is Active) == (found is Some && theirs is Some && own is Some && path::components(
            theirs->0,
        ) == path::components(own->0)),
        r matches ShimStatus::Shadowed(p) ==> found == Some(p),
{
}

/// The target that the cleanup spares is its argument, unless that is empty.
pub proof fn the_argument_names_the_target(target: &[u8])
    ensures
        target@.len() > 0 ==> detached::named_target(Some(target)) == Some(target@),
        target@.len() == 0 ==> detached::named_target(Some(target)) is None,
        detached::named_target(None) is None,
{
}

/// The cleanup goes on from the lock only where it is held, and from the limits
/// only where they are good. It then collects on the disk of its target, or of
/// the current directory where it has none, and ends with code 0.
pub proof fn the_way_of_a_cleanup(
    s: CleanupState,
    current: Option<Seq<u8>>,
    dir: Option<Vec<u8>>,
    code: i32,
)
    ensures
        CleanupState::start(current).task is Lock,
        CleanupState::start(current).current == current,
        s.task is Lock ==> s.next(CleanupReply::Locked(true)@).task is LoadPolicy && s.next(
            CleanupReply::Locked(false)@,
        ).task is Exit,
        s.task is LoadPolicy ==> s.next(CleanupReply::Policy(true)@).task is CurrentDir && s.next(
            CleanupReply::Policy(false)@,
        ).task is Exit,
        s.task is CurrentDir && s.current is Some ==> s.next(CleanupReply::CurrentDir(dir)@).task
            == CleanupTask::Collect(s.current),
        s.task is CurrentDir && s.current is None && dir is Some ==> s.next(
            CleanupReply::CurrentDir(dir)@,
        ).task == CleanupTask::Collect(Some(dir->0@)),
        s.task is CurrentDir && s.current is None && dir is None ==> s.next(
            CleanupReply::CurrentDir(dir)@,
        ).task == CleanupTask::Collect(None),
        s.task is Collect ==> s.next(CleanupReply::Collected@).task is Exit,
        detached::cleanup_asks_for(CleanupRequest::Exit(code), s) ==> s.task is Exit && code == 0,
{
}

/// What is collected spares the target that the pass was given, and is told the
/// disk by the path to look at.
pub proof fn a_cleanup_hands_on_its_target(
    s: CleanupState,
    current: Option<Vec<u8>>,
    probe: Option<Vec<u8>>,
)
    requires
        detached::cleanup_asks_for((CleanupRequest::Collect { current, probe }), s),
    ensures
        s.task is Collect,
        (current is Some) == (s.current is Some),
        current matches Some(p) ==> s.current == Some(p@),
        probe matches Some(p) ==> s.task == CleanupTask::Collect(Some(p@)),
        probe is None ==> s.task == CleanupTask::Collect(None),
{
}

/// A deletion locks, measures, removes, measures again and tells. It reports
/// the two sizes as they were measured, and a target whose lock is taken as
/// locked, untouched.
pub proof fn the_way_of_a_deletion(
    style: Style,
    target: Seq<u8>,
    before: u64,
    after: u64,
    shown: String,
)
    ensures
        ({
            let s = DeleteState::start(style, target);
            let held = s.next(DeleteReply::Locked(true)@);
            let measured = held.next(DeleteReply::Measured(before)@);
            let removed = measured.next(DeleteReply::Removed@);
            let again = removed.next(DeleteReply::Measured(after)@);
            let told = again.next(DeleteReply::Formatted(shown)@).next(DeleteReply::Printed@);
            &&& s.task is Lock
            &&& told.target == target
            &&& held.task is MeasureBefore
            &&& measured.task == DeleteTask::Remove(before)
            &&& removed.task == DeleteTask::MeasureAfter(before)
            &&& again.task == DeleteTask::Format(Deletion::Removed { before, after })
            &&& told.task == DeleteTask::Done(Deletion::Removed { before, after })
            &&& s.next(DeleteReply::Locked(false)@).next(DeleteReply::Printed@).task
                == DeleteTask::Done(Deletion::Locked)
        }),
{
}

/// Everything that a deletion does is done to its target. The size that is
/// written out is that by which the directory shrank, and the result is handed
/// out as it is.
pub proof fn a_deletion_keeps_to_its_target(
    s: DeleteState,
    p: Vec<u8>,
    before: u64,
    after: u64,
    size: u64,
    outcome: Deletion,
)
    ensures
        delete::delete_asks_for(DeleteRequest::Lock(p), s) ==> p@ == s.target && s.task is Lock,
        delete::delete_asks_for(DeleteRequest::Measure(p), s) ==> p@ == s.target,
        delete::delete_asks_for(DeleteRequest::Remove(p), s) ==> p@ == s.target && s.task is Remove,
        delete::delete_asks_for(DeleteRequest::FormatSize(size), s) && s.task
            == DeleteTask::Format(Deletion::Removed { before, after }) ==> (if before >= after {
            size == before - after
        } else {
            size == 0
        }),
        delete::delete_asks_for(DeleteRequest::Done(outcome), s) ==> s.task == DeleteTask::Done(
            outcome,
        ),
{
}

} // verus!
