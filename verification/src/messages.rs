//! What the commands say when they refuse to run.

use vstd::prelude::*;
use vstd::string::*;

use crate::style::Style;
use crate::text;
use crate::text::show;

verus! {

/// The message about arguments that make no sense, with the usage of the
/// command.
pub open spec fn usage_error(style: Style, error: Seq<char>, usage: Seq<char>) -> Seq<char> {
    style.as_error("cargo-overstay:"@) + " "@ + error + "\n"@ + style.as_heading("Usage:"@) + " "@
        + style.as_command(usage) + "\n"@
}

pub fn write_usage_error(style: &Style, error: &str, usage: &str) -> (r: String)
    ensures
        r@ == usage_error(*style, error@, usage@),
{
    let mut r = style.error("cargo-overstay:");
    r.append(" ");
    r.append(error);
    r.append("\n");
    r.append(style.heading("Usage:").as_str());
    r.append(" ");
    r.append(style.command(usage).as_str());
    r.append("\n");
    r
}

/// The message about a scan root that is no directory.
pub open spec fn not_a_directory(style: Style, root: Seq<u8>) -> Seq<char> {
    style.as_error("cargo-overstay:"@) + " "@ + style.as_path(text::shown(root))
        + " is not a directory\n"@
}

pub fn write_not_a_directory(style: &Style, root: &[u8]) -> (r: String)
    ensures
        r@ == not_a_directory(*style, root@),
{
    let mut r = style.error("cargo-overstay:");
    r.append(" ");
    r.append(style.path(show(root).as_str()).as_str());
    r.append(" is not a directory\n");
    r
}

/// A message about something that went wrong.
pub open spec fn complaint(style: Style, error: Seq<char>) -> Seq<char> {
    style.as_error("cargo-overstay:"@) + " "@ + error + "\n"@
}

pub fn write_complaint(style: &Style, error: &str) -> (r: String)
    ensures
        r@ == complaint(*style, error@),
{
    let mut r = style.error("cargo-overstay:");
    r.append(" ");
    r.append(error);
    r.append("\n");
    r
}

} // verus!
