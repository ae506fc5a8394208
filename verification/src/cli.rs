//! The `cargo overstay <command>` dispatch: `purge`, `ls` and the version.

use vstd::prelude::*;
use vstd::string::*;
use vstd::utf8::*;

use crate::ls;
use crate::ls::{ls, Ls};
use crate::purge_command;
use crate::purge_command::{run, Run};
use crate::style::Style;
use crate::text;
use crate::text::{align_left, is_text};

verus! {

/// What one call of the command line is.
pub enum Command {
    /// A purge, about to begin.
    Purge(Run),
    /// A list, about to begin.
    Ls(Ls),
    /// Write a text to the output stream and exit.
    Version { text: String, code: i32 },
    /// Write a text to the error stream and exit.
    Usage { text: String, code: i32 },
}

/// The verb asks for the version: the usual flags, or cargo's own subcommand.
pub open spec fn is_version_verb(verb: Seq<u8>) -> bool {
    verb == encode_utf8("--version"@) || verb == encode_utf8("-V"@) || verb == encode_utf8(
        "version"@,
    )
}

/// A line about a command: how it is called, and what it does.
pub open spec fn command_line(style: Style, call: Seq<char>, about: Seq<char>) -> Seq<char> {
    "  "@ + style.as_command(text::left_aligned(call, 36)) + " "@ + about + "\n"@
}

/// How the program is called.
pub open spec fn usage(style: Style) -> Seq<char> {
    style.as_heading("Usage"@) + "\n"@ + ("  "@ + style.as_command("cargo overstay"@) + " "@
        + style.as_muted("<command>"@) + "\n"@) + "\n"@ + style.as_heading("Commands"@) + "\n"@
        + command_line(style, "purge"@, "delete tracked build targets"@) + command_line(
        style,
        "purge --include-untracked [dir]"@,
        "also scan dir (default: home + temp)"@,
    ) + command_line(style, "ls"@, "list tracked projects with sizes"@) + command_line(
        style,
        "ls --include-untracked [dir]"@,
        "also scan dir (default: home + temp)"@,
    ) + command_line(style, "--version"@, "print the version and exit"@)
}

fn write_command_line(style: &Style, call: &str, about: &str) -> (r: String)
    ensures
        r@ == command_line(*style, call@, about@),
{
    let mut r = "  ".to_owned();
    r.append(style.command(align_left(call, 36).as_str()).as_str());
    r.append(" ");
    r.append(about);
    r.append("\n");
    r
}

/// Writes how the program is called, for the error stream.
pub fn print_usage(style: &Style) -> (r: String)
    ensures
        r@ == usage(*style),
{
    let mut call = "  ".to_owned();
    call.append(style.command("cargo overstay").as_str());
    call.append(" ");
    call.append(style.muted("<command>").as_str());
    call.append("\n");
    let mut r = style.heading("Usage");
    r.append("\n");
    r.append(call.as_str());
    r.append("\n");
    r.append(style.heading("Commands").as_str());
    r.append("\n");
    r.append(write_command_line(style, "purge", "delete tracked build targets").as_str());
    r.append(
        write_command_line(
            style,
            "purge --include-untracked [dir]",
            "also scan dir (default: home + temp)",
        ).as_str(),
    );
    r.append(write_command_line(style, "ls", "list tracked projects with sizes").as_str());
    r.append(
        write_command_line(
            style,
            "ls --include-untracked [dir]",
            "also scan dir (default: home + temp)",
        ).as_str(),
    );
    r.append(write_command_line(style, "--version", "print the version and exit").as_str());
    r
}

/// A command is the right one for some arguments.
pub open spec fn is_command(
    args: Seq<Seq<u8>>,
    name: Seq<char>,
    version: Seq<char>,
    style: Style,
    error_style: Style,
    r: Command,
) -> bool {
    if args.len() > 0 && args[0] == encode_utf8("purge"@) {
        r matches Command::Purge(run) && purge_command::is_begun(
            run@,
            args.skip(1),
            style,
            error_style,
        )
    } else if args.len() > 0 && args[0] == encode_utf8("ls"@) {
        r matches Command::Ls(ls) && ls::is_begun(ls@, args.skip(1), style, error_style)
    } else if args.len() > 0 && is_version_verb(args[0]) {
        r matches Command::Version { text, code } && text@ == name + " "@ + version + "\n"@ && code
            == 0
    } else {
        r matches Command::Usage { text, code } && text@ == usage(error_style) && code == 2
    }
}

/// Reads the verb and begins its command. `name` and `version` are those of
/// the package; `style` is for the output stream, `error_style` for the error
/// stream. Asking for the version exits with 0, a verb that is unknown or
/// missing with 2.
pub fn run_cli(
    args: &[Vec<u8>],
    name: &str,
    version: &str,
    style: Style,
    error_style: Style,
) -> (r: Command)
    ensures
        is_command(text::contents(args@), name@, version@, style, error_style, r),
{
    if args.len() > 0 {
        let verb = args[0].as_slice();
        let (_, rest) = args.split_at(1);
        assert(text::contents(rest@) =~= text::contents(args@).skip(1));
        if is_text(verb, "purge") {
            return Command::Purge(run(rest, style, error_style));
        }
        if is_text(verb, "ls") {
            return Command::Ls(ls(rest, style, error_style));
        }
        if is_text(verb, "--version") || is_text(verb, "-V") || is_text(verb, "version") {
            let mut text = name.to_owned();
            text.append(" ");
            text.append(version);
            text.append("\n");
            return Command::Version { text, code: 0 };
        }
    }
    Command::Usage { text: print_usage(&error_style), code: 2 }
}

} // verus!
