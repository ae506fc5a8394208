//! What aligned texts, numerals and displayed byte strings look like.

use vstd::prelude::*;
use vstd::string::*;
use vstd::utf8::*;

use crate::text;

verus! {

/// The number that decimal digits stand for.
pub open spec fn value(digits: Seq<char>) -> int
    decreases digits.len(),
{
    if digits.len() == 0 {
        0
    } else {
        value(digits.drop_last()) * 10 + (digits.last() as int - 48)
    }
}

/// A numeral is made of decimal digits, has no leading zero and reads back as
/// the number it was written for.
pub proof fn a_numeral_reads_back(n: nat)
    ensures
        value(text::numeral(n)) == n,
        text::numeral(n).len() > 0,
        forall|i: int|
            0 <= i < text::numeral(n).len() ==> 48 <= #[trigger] text::numeral(n)[i] as int <= 57,
        text::numeral(n)[0] as int == 48 ==> text::numeral(n).len() == 1,
    decreases n,
{
    let all = text::numeral(n);
    if n < 10 {
        assert(all.drop_last() =~= Seq::empty());
        assert(value(all.drop_last()) == 0);
        assert(text::digit(n as int) as int == 48 + n);
    } else {
        a_numeral_reads_back(n / 10);
        let front = text::numeral(n / 10);
        assert(all.drop_last() =~= front);
        assert(text::digit((n % 10) as int) as int == 48 + n % 10);
        assert forall|i: int| 0 <= i < all.len() implies 48 <= #[trigger] all[i] as int <= 57 by {
            if i < front.len() {
                assert(all[i] == front[i]);
            }
        }
        assert(all[0] == front[0]);
        if front[0] as int == 48 {
            assert(front.drop_last() =~= Seq::empty());
            assert(value(front.drop_last()) == 0);
        }
    }
}

/// A text at the right edge of a column ends the cell, and nothing but blanks
/// is ahead of it. The cell is as wide as the column, or as the text where that
/// is wider.
pub proof fn a_right_aligned_text_ends_its_cell(s: Seq<char>, width: int)
    ensures
        ({
            let cell = text::right_aligned(s, width);
            &&& cell.len() == if width > s.len() {
                width
            } else {
                s.len() as int
            }
            &&& cell.skip(cell.len() - s.len()) == s
            &&& forall|i: int| 0 <= i < cell.len() - s.len() ==> #[trigger] cell[i] == ' '
        }),
{
    let cell = text::right_aligned(s, width);
    assert(cell.skip(cell.len() - s.len()) =~= s);
}

/// A text at the left edge of a column begins the cell, and nothing but blanks
/// follows.
pub proof fn a_left_aligned_text_begins_its_cell(s: Seq<char>, width: int)
    ensures
        ({
            let cell = text::left_aligned(s, width);
            &&& cell.len() == if width > s.len() {
                width
            } else {
                s.len() as int
            }
            &&& cell.take(s.len() as int) == s
            &&& forall|i: int| s.len() <= i < cell.len() ==> #[trigger] cell[i] == ' '
        }),
{
    let cell = text::left_aligned(s, width);
    assert(cell.take(s.len() as int) =~= s);
}

/// One thing is counted in the singular, every other number of things with an
/// `s`.
pub proof fn only_one_is_singular(n: int)
    ensures
        text::plural(n).len() == if n == 1 {
            0int
        } else {
            1
        },
        n != 1 ==> text::plural(n)[0] == 's',
{
    reveal_strlit("");
    reveal_strlit("s");
}

/// Texts are joined with one separator between two neighbours, and none
/// elsewhere.
pub proof fn joining_puts_separators_between(
    parts: Seq<Seq<char>>,
    part: Seq<char>,
    separator: Seq<char>,
)
    ensures
        text::joined(seq![part], separator) == part,
        parts.len() > 0 ==> text::joined(parts.push(part), separator) == text::joined(
            parts,
            separator,
        ) + separator + part,
{
    reveal_strlit("");
    let one = seq![part];
    assert(one.drop_last() =~= Seq::empty());
    assert(text::joined(one.drop_last(), separator) =~= Seq::empty());
    assert(text::joined(one, separator) =~= part);
    assert(parts.push(part).drop_last() =~= parts);
}

/// The bytes of a text are displayed as that text.
pub proof fn a_text_is_shown_as_it_is(s: Seq<char>)
    ensures
        text::shown(encode_utf8(s)) == s,
{
    encode_utf8_valid_utf8(s);
    encode_utf8_decode_utf8(s);
}

} // verus!
