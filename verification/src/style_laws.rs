//! What colored output looks like, and when output is colored.

use vstd::prelude::*;
use vstd::string::*;

use crate::style;
use crate::style::Style;

verus! {

/// Without colors every role leaves a text as it is.
pub proof fn plain_output_is_left_alone(s: Style, value: Seq<char>, code: Seq<char>)
    requires
        !s.enabled,
    ensures
        style::painted(s.enabled, code, value) == value,
        s.as_heading(value) == value,
        s.as_command(value) == value,
        s.as_path(value) == value,
        s.as_accent(value) == value,
        s.as_success(value) == value,
        s.as_warning(value) == value,
        s.as_error(value) == value,
        s.as_strong(value) == value,
        s.as_muted(value) == value,
{
}

/// The escape character, a bracket, a code and an `m`, then the text, then the
/// sequence that resets the colors.
pub open spec fn escaped(code: Seq<char>, value: Seq<char>) -> Seq<char> {
    seq!['\u{1b}', '['] + code + seq!['m'] + value + seq!['\u{1b}', '[', '0', 'm']
}

/// With colors a text stands between the escape sequence of its role and the
/// reset sequence: underlined bold headings, bold cyan commands, underlined cyan
/// paths, cyan accents, bold green for success, bold yellow for warnings, bold
/// red for errors, bold, and dim.
pub proof fn colors_wrap_the_text(s: Style, value: Seq<char>, code: Seq<char>)
    requires
        s.enabled,
    ensures
        style::painted(s.enabled, code, value) == escaped(code, value),
        s.as_heading(value) == escaped(seq!['1', ';', '4'], value),
        s.as_command(value) == escaped(seq!['1', ';', '3', '6'], value),
        s.as_path(value) == escaped(seq!['4', ';', '3', '6'], value),
        s.as_accent(value) == escaped(seq!['3', '6'], value),
        s.as_success(value) == escaped(seq!['1', ';', '3', '2'], value),
        s.as_warning(value) == escaped(seq!['1', ';', '3', '3'], value),
        s.as_error(value) == escaped(seq!['1', ';', '3', '1'], value),
        s.as_strong(value) == escaped(seq!['1'], value),
        s.as_muted(value) == escaped(seq!['2'], value),
{
    reveal_strlit("\x1b[");
    reveal_strlit("m");
    reveal_strlit("\x1b[0m");
    reveal_strlit("1;4");
    reveal_strlit("1;36");
    reveal_strlit("4;36");
    reveal_strlit("36");
    reveal_strlit("1;32");
    reveal_strlit("1;33");
    reveal_strlit("1;31");
    reveal_strlit("1");
    reveal_strlit("2");
    assert("\x1b["@ =~= seq!['\u{1b}', '[']);
    assert("m"@ =~= seq!['m']);
    assert("\x1b[0m"@ =~= seq!['\u{1b}', '[', '0', 'm']);
    assert("1;4"@ =~= seq!['1', ';', '4']);
    assert("1;36"@ =~= seq!['1', ';', '3', '6']);
    assert("4;36"@ =~= seq!['4', ';', '3', '6']);
    assert("36"@ =~= seq!['3', '6']);
    assert("1;32"@ =~= seq!['1', ';', '3', '2']);
    assert("1;33"@ =~= seq!['1', ';', '3', '3']);
    assert("1;31"@ =~= seq!['1', ';', '3', '1']);
    assert("1"@ =~= seq!['1']);
    assert("2"@ =~= seq!['2']);
}

/// A dumb terminal is one whose type is the word `dumb`, in small letters or
/// capital ones; any other type, and none, can show colors.
pub proof fn only_the_word_dumb_is_dumb(name: &str)
    ensures
        style::is_dumb(Some(name)) == (name@.len() == 4 && (name@[0] == 'd' || name@[0] == 'D') && (
        name@[1] == 'u' || name@[1] == 'U') && (name@[2] == 'm' || name@[2] == 'M') && (name@[3]
            == 'b' || name@[3] == 'B')),
        !style::is_dumb(None),
{
    reveal_strlit("dumb");
    let word = "dumb"@;
    if name@.len() == 4 {
        assert(style::ascii_lower(name@[0]) == style::ascii_lower(word[0]) <==> (name@[0] == 'd'
            || name@[0] == 'D'));
        assert(style::ascii_lower(name@[1]) == style::ascii_lower(word[1]) <==> (name@[1] == 'u'
            || name@[1] == 'U'));
        assert(style::ascii_lower(name@[2]) == style::ascii_lower(word[2]) <==> (name@[2] == 'm'
            || name@[2] == 'M'));
        assert(style::ascii_lower(name@[3]) == style::ascii_lower(word[3]) <==> (name@[3] == 'b'
            || name@[3] == 'B'));
    }
}

/// Colors go to terminals only, never against `NO_COLOR`, and not to a dumb
/// terminal. To every other terminal they go.
pub proof fn colors_go_to_willing_terminals(
    is_terminal: bool,
    no_color: bool,
    name: &str,
    term: Option<&str>,
)
    ensures
        !is_terminal ==> !style::wants_colors(is_terminal, no_color, term),
        no_color ==> !style::wants_colors(is_terminal, no_color, term),
        is_terminal && !no_color ==> style::wants_colors(is_terminal, no_color, None),
        is_terminal && !no_color ==> style::wants_colors(is_terminal, no_color, Some(name)) == !(
        name@.len() == 4 && (name@[0] == 'd' || name@[0] == 'D') && (name@[1] == 'u' || name@[1]
            == 'U') && (name@[2] == 'm' || name@[2] == 'M') && (name@[3] == 'b' || name@[3]
            == 'B')),
{
    only_the_word_dumb_is_dumb(name);
}

} // verus!
