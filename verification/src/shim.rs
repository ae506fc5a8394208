//! The cargo shim: forwards every invocation to the real cargo, records which
//! workspace was built, and hands cleanup to a detached child.

use vstd::prelude::*;
use vstd::string::*;

use crate::path;
use crate::path::is_same_path;
use crate::style::Style;
use crate::text;
use crate::text::show;

verus! {

/// Where a shell's `cargo` actually lands.
#[derive(Debug, PartialEq)]
pub enum ShimStatus {
    /// `cargo` on `PATH` resolves to this same binary, through the shim
    /// symlink.
    Active,
    /// Some other `cargo` comes first on `PATH`, so the shim never runs.
    Shadowed(Vec<u8>),
    NoCargo,
}

/// Two files that can both be found and are one.
pub open spec fn is_one_file(a: Option<Seq<u8>>, b: Option<Seq<u8>>) -> bool {
    a is Some && b is Some && path::same_path(a->0, b->0)
}

/// The bytes of a path, where there is one.
pub open spec fn bytes_at(p: Option<&Vec<u8>>) -> Option<Seq<u8>> {
    match p {
        Some(p) => Some(p@),
        None => None,
    }
}

/// A status is the right one for the `cargo` that a shell finds, where it finds
/// one, and for the canonical paths of that and of this binary.
pub open spec fn is_status(
    found: Option<Vec<u8>>,
    found_canonical: Option<Seq<u8>>,
    own_canonical: Option<Seq<u8>>,
    r: ShimStatus,
) -> bool {
    match found {
        None => r is NoCargo,
        Some(p) => if is_one_file(found_canonical, own_canonical) {
            r is Active
        } else {
            r == ShimStatus::Shadowed(p)
        },
    }
}

/// Says whether the `cargo` that a shell finds is this binary. The comparison
/// is by canonical path, which is what makes the symlink install verifiable:
/// the shim and the binary are one file, while a real cargo never is.
pub fn shim_status(
    found: Option<Vec<u8>>,
    found_canonical: Option<&Vec<u8>>,
    own_canonical: Option<&Vec<u8>>,
) -> (r: ShimStatus)
    ensures
        is_status(found, bytes_at(found_canonical), bytes_at(own_canonical), r),
{
    let found = match found {
        Some(p) => p,
        None => return ShimStatus::NoCargo,
    };
    let same = match (found_canonical, own_canonical) {
        (Some(a), Some(b)) => is_same_path(a.as_slice(), b.as_slice()),
        _ => false,
    };
    if same {
        ShimStatus::Active
    } else {
        ShimStatus::Shadowed(found)
    }
}

/// What is said where builds are not recorded, and nothing where they are.
pub open spec fn inactive_warning(style: Style, status: ShimStatus) -> Seq<char> {
    match status {
        ShimStatus::Active => ""@,
        ShimStatus::Shadowed(found) => style.as_warning("cargo-overstay:"@)
            + " the cargo shim is not active \u{2014} `cargo` resolves to "@ + style.as_path(
            text::shown(found@),
        ) + "\n"@ + style.as_muted(
            "  Builds through it are never tracked. Put the shim's directory ahead of that one on PATH."@,
        ) + "\n"@,
        ShimStatus::NoCargo => style.as_warning("cargo-overstay:"@)
            + " no `cargo` found on PATH \u{2014} builds cannot be tracked\n"@,
    }
}

/// Writes the warning for the error stream, where it cannot corrupt a list
/// that is piped on. Where the program cannot find its own executable it has
/// no status, and says nothing.
pub fn warn_if_inactive(style: &Style, status: Option<&ShimStatus>) -> (r: String)
    ensures
        r@ == match status {
            Some(status) => inactive_warning(*style, *status),
            None => ""@,
        },
{
    match status {
        None | Some(ShimStatus::Active) => "".to_owned(),
        Some(ShimStatus::Shadowed(found)) => {
            let mut r = style.warning("cargo-overstay:");
            r.append(" the cargo shim is not active \u{2014} `cargo` resolves to ");
            r.append(style.path(show(found.as_slice()).as_str()).as_str());
            r.append("\n");
            r.append(
                style.muted(
                    "  Builds through it are never tracked. Put the shim's directory ahead of that one on PATH.",
                ).as_str(),
            );
            r.append("\n");
            r
        },
        Some(ShimStatus::NoCargo) => {
            let mut r = style.warning("cargo-overstay:");
            r.append(" no `cargo` found on PATH \u{2014} builds cannot be tracked\n");
            r
        },
    }
}

/// Hidden internal verb that runs the cleanup after a build in a detached
/// child process, off the critical path of a normal `cargo` command.
pub const GC_DETACHED_VERB: &'static str = "__gc-detached";

} // verus!
