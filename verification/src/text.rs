//! Strings and byte strings: alignment, numbers, joining, decoding.

use vstd::prelude::*;
use vstd::string::*;
use vstd::utf8::*;

verus! {

/// `n` blanks, none where `n` is negative.
pub open spec fn blanks(n: int) -> Seq<char> {
    Seq::new(
        if n > 0 {
            n as nat
        } else {
            0
        },
        |i: int| ' ',
    )
}

/// `s` moved to the right edge of a column of `width` characters. A text that
/// is too long for the column is kept whole.
pub open spec fn right_aligned(s: Seq<char>, width: int) -> Seq<char> {
    blanks(width - s.len()) + s
}

/// `s` at the left edge of a column of `width` characters.
pub open spec fn left_aligned(s: Seq<char>, width: int) -> Seq<char> {
    s + blanks(width - s.len())
}

fn blank_run(len: usize, width: usize) -> (r: String)
    ensures
        r@ == blanks(width - len),
{
    let mut r = String::new();
    let mut i: usize = len;
    while i < width
        invariant
            len <= width ==> len <= i <= width,
            len > width ==> i == len,
            r@ =~= blanks(i - len),
        decreases width - i,
    {
        proof {
            reveal_strlit(" ");
        }
        r.append(" ");
        i = i + 1;
    }
    r
}

/// Right-aligns a text in a column.
pub fn align_right(s: &str, width: usize) -> (r: String)
    ensures
        r@ == right_aligned(s@, width as int),
{
    let mut r = blank_run(s.unicode_len(), width);
    r.append(s);
    r
}

/// Left-aligns a text in a column.
pub fn align_left(s: &str, width: usize) -> (r: String)
    ensures
        r@ == left_aligned(s@, width as int),
{
    let mut r = s.to_owned();
    r.append(blank_run(s.unicode_len(), width).as_str());
    r
}

/// The character of a decimal digit.
pub open spec fn digit(d: int) -> char {
    (('0' as int) + d) as char
}

/// The decimal numeral of `n`, without leading zeros.
pub open spec fn numeral(n: nat) -> Seq<char>
    decreases n,
{
    if n < 10 {
        seq![digit(n as int)]
    } else {
        numeral(n / 10).push(digit((n % 10) as int))
    }
}

fn digit_text(d: u64) -> (r: &'static str)
    requires
        d < 10,
    ensures
        r@ == seq![digit(d as int)],
{
    proof {
        reveal_strlit("0");
        reveal_strlit("1");
        reveal_strlit("2");
        reveal_strlit("3");
        reveal_strlit("4");
        reveal_strlit("5");
        reveal_strlit("6");
        reveal_strlit("7");
        reveal_strlit("8");
        reveal_strlit("9");
    }
    match d {
        0 => "0",
        1 => "1",
        2 => "2",
        3 => "3",
        4 => "4",
        5 => "5",
        6 => "6",
        7 => "7",
        8 => "8",
        _ => "9",
    }
}

/// Writes a number in decimal.
pub fn decimal(n: u64) -> (r: String)
    ensures
        r@ == numeral(n as nat),
    decreases n,
{
    if n < 10 {
        digit_text(n).to_owned()
    } else {
        let mut r = decimal(n / 10);
        r.append(digit_text(n % 10));
        assert(r@ =~= numeral((n / 10) as nat).push(digit((n % 10) as int)));
        r
    }
}

/// The ending of a noun that is counted `n` times.
pub open spec fn plural(n: int) -> Seq<char> {
    if n == 1 {
        ""@
    } else {
        "s"@
    }
}

/// Picks the ending of a noun that is counted `n` times.
pub fn plural_ending(n: usize) -> (r: &'static str)
    ensures
        r@ == plural(n as int),
{
    if n == 1 {
        ""
    } else {
        "s"
    }
}

/// What `String::from_utf8_lossy` makes of a byte string that is not valid
/// UTF-8.
pub uninterp spec fn lossy(bytes: Seq<u8>) -> Seq<char>;

/// The text that is displayed for a byte string.
pub open spec fn shown(bytes: Seq<u8>) -> Seq<char> {
    if valid_utf8(bytes) {
        decode_utf8(bytes)
    } else {
        lossy(bytes)
    }
}

/// Decodes a byte string for display.
///
/// Calls `String::from_utf8_lossy`. Believed of it: bytes that are valid UTF-8
/// are decoded as they stand; the text of any other byte string depends on its
/// bytes alone and holds a replacement character. Which bytes one such
/// character stands for is left unsaid.
#[verifier::external_body]
pub(crate) fn show(bytes: &[u8]) -> (r: String)
    ensures
        valid_utf8(bytes@) ==> r@ == decode_utf8(bytes@),
        !valid_utf8(bytes@) ==> r@ == lossy(bytes@) && r@.contains('\u{fffd}'),
{
    String::from_utf8_lossy(bytes).into_owned()
}

/// Tests whether a byte string is valid UTF-8.
///
/// Calls `core::str::from_utf8`. Believed of it: it succeeds on exactly the
/// valid UTF-8 byte strings.
#[verifier::external_body]
pub(crate) fn is_utf8(bytes: &[u8]) -> (r: bool)
    ensures
        r == valid_utf8(bytes@),
{
    core::str::from_utf8(bytes).is_ok()
}

/// The contents of byte strings, one by one.
pub open spec fn contents(v: Seq<Vec<u8>>) -> Seq<Seq<u8>> {
    Seq::new(v.len(), |i: int| v[i]@)
}

/// Compares two byte strings.
pub fn same_bytes(a: &[u8], b: &[u8]) -> (r: bool)
    ensures
        r == (a@ == b@),
{
    if a.len() != b.len() {
        return false;
    }
    let mut i: usize = 0;
    while i < a.len()
        invariant
            a@.len() == b@.len(),
            i <= a@.len(),
            forall|j: int| 0 <= j < i ==> a@[j] == b@[j],
        decreases a@.len() - i,
    {
        if a[i] != b[i] {
            return false;
        }
        i = i + 1;
    }
    assert(a@ =~= b@);
    true
}

/// Tests whether a byte string holds exactly the bytes of a text.
pub fn is_text(a: &[u8], text: &str) -> (r: bool)
    ensures
        r == (a@ == encode_utf8(text@)),
{
    same_bytes(a, text.as_bytes())
}

/// Tests whether a byte string begins with a given byte.
pub fn begins_with(a: &[u8], byte: u8) -> (r: bool)
    ensures
        r == (a@.len() > 0 && a@[0] == byte),
{
    a.len() > 0 && a[0] == byte
}

/// Copies a byte string.
pub fn copy_bytes(a: &[u8]) -> (r: Vec<u8>)
    ensures
        r@ == a@,
{
    vstd::slice::slice_to_vec(a)
}

/// Copies byte strings, one by one.
pub fn copy_all(v: &Vec<Vec<u8>>) -> (r: Vec<Vec<u8>>)
    ensures
        contents(r@) == contents(v@),
{
    let mut r: Vec<Vec<u8>> = Vec::new();
    let mut i: usize = 0;
    while i < v.len()
        invariant
            i == r@.len() <= v@.len(),
            forall|j: int| 0 <= j < i ==> (#[trigger] r@[j])@ == v@[j]@,
        decreases v@.len() - i,
    {
        r.push(copy_bytes(v[i].as_slice()));
        i = i + 1;
    }
    assert(contents(r@) =~= contents(v@));
    r
}

/// The texts of a list, a separator ahead of each but the first.
pub open spec fn joined(parts: Seq<Seq<char>>, separator: Seq<char>) -> Seq<char>
    decreases parts.len(),
{
    if parts.len() == 0 {
        ""@
    } else {
        joined(parts.drop_last(), separator) + (if parts.len() == 1 {
            ""@
        } else {
            separator
        }) + parts.last()
    }
}

} // verus!
