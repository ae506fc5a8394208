//! Where one invocation goes, decided purely from its name and arguments.
//!
//! Invoked as `cargo`, through the shim symlink, the program forwards to the
//! real cargo; invoked under any other name it is the `cargo overstay` command
//! line.

use vstd::prelude::*;
use vstd::string::*;
use vstd::utf8::*;

use crate::path;
use crate::path::name_of;
use crate::shim::GC_DETACHED_VERB;
use crate::text;
use crate::text::{is_text, is_utf8, same_bytes};

verus! {

/// Where one invocation goes.
#[derive(Debug)]
pub enum Route<'a> {
    /// The cleanup pass of a detached child, with the target it was given.
    DetachedGc(Option<&'a Vec<u8>>),
    Passthrough,
    Cli(&'a [Vec<u8>]),
}

/// The name that the program was called by.
pub open spec fn program_name(argv0: Option<&[u8]>) -> Option<Seq<u8>> {
    match argv0 {
        Some(p) => path::file_name(p@),
        None => None,
    }
}

/// The first argument is the verb of the detached child.
pub open spec fn is_detached(args: Seq<Seq<u8>>) -> bool {
    args.len() > 0 && args[0] == encode_utf8("__gc-detached"@)
}

/// Cargo's convention for external subcommands: a program named `cargo-x` is
/// handed `x` as its first argument.
pub open spec fn is_convention_call(name: Option<Seq<u8>>, args: Seq<Seq<u8>>) -> bool {
    name matches Some(n) && valid_utf8(n) && args.len() > 0 && n == encode_utf8("cargo-"@)
        + args[0]
}

/// Called by cargo as `cargo x rest`, or directly as `cargo-x rest`, the
/// program is left with the same arguments.
pub proof fn both_ways_of_calling_are_one(token: Seq<u8>, rest: Seq<Seq<u8>>)
    requires
        valid_utf8(encode_utf8("cargo-"@) + token),
        rest.len() > 0 ==> rest[0] != token,
    ensures
        ({
            let name = Some(encode_utf8("cargo-"@) + token);
            &&& is_convention_call(name, seq![token] + rest)
            &&& (seq![token] + rest).skip(1) == rest
            &&& !is_convention_call(name, rest)
        }),
{
    let prefix = encode_utf8("cargo-"@);
    assert((seq![token] + rest).skip(1) =~= rest);
    if rest.len() > 0 && prefix + token == prefix + rest[0] {
        let n = prefix.len() as int;
        assert((prefix + token).skip(n) =~= token);
        assert((prefix + rest[0]).skip(n) =~= rest[0]);
    }
}

fn is_called_as(name: &[u8], first: &[u8]) -> (r: bool)
    ensures
        r == (name@ == encode_utf8("cargo-"@) + first@),
{
    let prefix = "cargo-".as_bytes();
    let n = name.len();
    if n < prefix.len() || n - prefix.len() != first.len() {
        return false;
    }
    let (head, tail) = name.split_at(prefix.len());
    let r = same_bytes(head, prefix) && same_bytes(tail, first);
    proof {
        let whole = encode_utf8("cargo-"@) + first@;
        assert(name@ =~= head@ + tail@);
        if name@ == whole {
            assert(head@ =~= whole.subrange(0, prefix@.len() as int));
            assert(tail@ =~= whole.subrange(prefix@.len() as int, whole.len() as int));
            assert(head@ =~= encode_utf8("cargo-"@));
            assert(tail@ =~= first@);
        }
    }
    r
}

/// A route is the right one for a call.
pub open spec fn is_route(argv0: Option<&[u8]>, args: Seq<Vec<u8>>, r: Route) -> bool {
    let all = text::contents(args);
    let name = program_name(argv0);
    if is_detached(all) {
        r matches Route::DetachedGc(target) && match target {
            Some(p) => args.len() > 1 && p@ == all[1],
            None => args.len() == 1,
        }
    } else if name == Some(encode_utf8("cargo"@)) {
        r is Passthrough
    } else {
        r matches Route::Cli(rest) && rest@ == if is_convention_call(name, all) {
            args.skip(1)
        } else {
            args
        }
    }
}

/// Picks the route. The verb of the detached child outranks the name: the
/// child is started through the path of the running executable, which can
/// carry either name. A program named exactly `cargo` is a pure passthrough,
/// so no verb can ever shadow a cargo subcommand. The token of cargo's
/// convention is stripped, so that a direct call looks the same.
pub fn dispatch<'a>(argv0: Option<&[u8]>, args: &'a [Vec<u8>]) -> (r: Route<'a>)
    ensures
        is_route(argv0, args@, r),
{
    if args.len() > 0 && is_text(args[0].as_slice(), GC_DETACHED_VERB) {
        return Route::DetachedGc(
            if args.len() > 1 {
                Some(&args[1])
            } else {
                None
            },
        );
    }
    let name = match argv0 {
        Some(p) => name_of(p),
        None => None,
    };
    let stripped = match &name {
        Some(name) => {
            if is_text(name.as_slice(), "cargo") {
                return Route::Passthrough;
            }
            args.len() > 0 && is_utf8(name.as_slice()) && is_called_as(
                name.as_slice(),
                args[0].as_slice(),
            )
        },
        None => false,
    };
    if stripped {
        let (_, rest) = args.split_at(1);
        assert(rest@ =~= args@.skip(1));
        Route::Cli(rest)
    } else {
        Route::Cli(args)
    }
}

} // verus!
