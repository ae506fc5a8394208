//! Terminal-aware ANSI styling for human-facing output.

use vstd::prelude::*;
use vstd::string::*;

verus! {

/// Whether output is colored.
#[derive(Clone, Copy)]
pub struct Style {
    pub enabled: bool,
}

/// `value` between the escape sequence of an ANSI code and the reset sequence,
/// or left alone where colors are off.
pub open spec fn painted(enabled: bool, code: Seq<char>, value: Seq<char>) -> Seq<char> {
    if enabled {
        "\x1b["@ + code + "m"@ + value + "\x1b[0m"@
    } else {
        value
    }
}

/// The lower case of an ASCII letter, every other character unchanged.
pub open spec fn ascii_lower(c: char) -> char {
    if 'A' <= c <= 'Z' {
        (c as u32 + 32) as char
    } else {
        c
    }
}

/// Two texts that differ at most in the case of ASCII letters.
pub open spec fn same_ignoring_ascii_case(a: Seq<char>, b: Seq<char>) -> bool {
    a.len() == b.len() && forall|i: int|
        0 <= i < a.len() ==> ascii_lower(#[trigger] a[i]) == ascii_lower(b[i])
}

/// A terminal type that cannot show colors.
pub open spec fn is_dumb(term: Option<&str>) -> bool {
    term matches Some(name) && same_ignoring_ascii_case(name@, "dumb"@)
}

fn lower(c: char) -> (r: char)
    ensures
        r == ascii_lower(c),
{
    if 'A' <= c && c <= 'Z' {
        ((c as u8) + 32) as char
    } else {
        c
    }
}

fn eq_ignore_ascii_case(a: &str, b: &str) -> (r: bool)
    ensures
        r == same_ignoring_ascii_case(a@, b@),
{
    let n = a.unicode_len();
    if n != b.unicode_len() {
        return false;
    }
    let mut i: usize = 0;
    while i < n
        invariant
            n == a@.len() == b@.len(),
            i <= n,
            forall|j: int| 0 <= j < i ==> ascii_lower(#[trigger] a@[j]) == ascii_lower(b@[j]),
        decreases n - i,
    {
        if lower(a.get_char(i)) != lower(b.get_char(i)) {
            return false;
        }
        i = i + 1;
    }
    true
}

/// A stream is a terminal that can show colors, and the user did not decline
/// them.
pub open spec fn wants_colors(is_terminal: bool, no_color: bool, term: Option<&str>) -> bool {
    is_terminal && !no_color && !is_dumb(term)
}

/// Colors go to a terminal that can show them, unless the user declined them.
pub fn color_enabled(is_terminal: bool, no_color: bool, term: Option<&str>) -> (r: bool)
    ensures
        r == wants_colors(is_terminal, no_color, term),
{
    is_terminal && !no_color && match term {
        Some(name) => !eq_ignore_ascii_case(name, "dumb"),
        None => true,
    }
}

impl Style {
    /// The style for a stream: `no_color` says whether `NO_COLOR` is set,
    /// `term` holds the value of `TERM`.
    pub fn for_terminal(is_terminal: bool, no_color: bool, term: Option<&str>) -> (r: Style)
        ensures
            r.enabled == wants_colors(is_terminal, no_color, term),
    {
        Style { enabled: color_enabled(is_terminal, no_color, term) }
    }

    pub open spec fn as_heading(self, value: Seq<char>) -> Seq<char> {
        painted(self.enabled, "1;4"@, value)
    }

    pub open spec fn as_command(self, value: Seq<char>) -> Seq<char> {
        painted(self.enabled, "1;36"@, value)
    }

    pub open spec fn as_path(self, value: Seq<char>) -> Seq<char> {
        painted(self.enabled, "4;36"@, value)
    }

    pub open spec fn as_accent(self, value: Seq<char>) -> Seq<char> {
        painted(self.enabled, "36"@, value)
    }

    pub open spec fn as_success(self, value: Seq<char>) -> Seq<char> {
        painted(self.enabled, "1;32"@, value)
    }

    pub open spec fn as_warning(self, value: Seq<char>) -> Seq<char> {
        painted(self.enabled, "1;33"@, value)
    }

    pub open spec fn as_error(self, value: Seq<char>) -> Seq<char> {
        painted(self.enabled, "1;31"@, value)
    }

    pub open spec fn as_strong(self, value: Seq<char>) -> Seq<char> {
        painted(self.enabled, "1"@, value)
    }

    pub open spec fn as_muted(self, value: Seq<char>) -> Seq<char> {
        painted(self.enabled, "2"@, value)
    }

    pub fn heading(&self, value: &str) -> (r: String)
        ensures
            r@ == self.as_heading(value@),
    {
        self.paint("1;4", value)
    }

    pub fn command(&self, value: &str) -> (r: String)
        ensures
            r@ == self.as_command(value@),
    {
        self.paint("1;36", value)
    }

    pub fn path(&self, value: &str) -> (r: String)
        ensures
            r@ == self.as_path(value@),
    {
        self.paint("4;36", value)
    }

    pub fn accent(&self, value: &str) -> (r: String)
        ensures
            r@ == self.as_accent(value@),
    {
        self.paint("36", value)
    }

    pub fn success(&self, value: &str) -> (r: String)
        ensures
            r@ == self.as_success(value@),
    {
        self.paint("1;32", value)
    }

    pub fn warning(&self, value: &str) -> (r: String)
        ensures
            r@ == self.as_warning(value@),
    {
        self.paint("1;33", value)
    }

    pub fn error(&self, value: &str) -> (r: String)
        ensures
            r@ == self.as_error(value@),
    {
        self.paint("1;31", value)
    }

    pub fn strong(&self, value: &str) -> (r: String)
        ensures
            r@ == self.as_strong(value@),
    {
        self.paint("1", value)
    }

    pub fn muted(&self, value: &str) -> (r: String)
        ensures
            r@ == self.as_muted(value@),
    {
        self.paint("2", value)
    }

    /// Wraps a text in an ANSI code, where colors are on.
    pub fn paint(&self, code: &str, value: &str) -> (r: String)
        ensures
            r@ == painted(self.enabled, code@, value@),
    {
        if self.enabled {
            let mut r = "\x1b[".to_owned();
            r.append(code);
            r.append("m");
            r.append(value);
            r.append("\x1b[0m");
            r
        } else {
            value.to_owned()
        }
    }
}

} // verus!
