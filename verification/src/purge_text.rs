//! What a purge says, and how the answer to its question is read.

use vstd::prelude::*;
use vstd::string::*;

use crate::purge::{Deletion, Summary, UnsureHit};
use crate::scan;
use crate::scan::describe_roots;
use crate::style::Style;
use crate::text;
use crate::text::{align_right, decimal, plural_ending, show};

verus! {

/// The line that names the directories being scanned.
pub open spec fn scanning_line(style: Style, roots: Seq<Seq<u8>>) -> Seq<char> {
    style.as_muted("scanning"@) + " "@ + style.as_muted(scan::roots_shown(roots)) + "\n"@
}

/// Writes the line that names the directories being scanned.
pub fn write_scanning_line(style: &Style, roots: &[Vec<u8>]) -> (r: String)
    ensures
        r@ == scanning_line(*style, text::contents(roots@)),
{
    let mut r = style.muted("scanning");
    r.append(" ");
    r.append(style.muted(describe_roots(roots).as_str()).as_str());
    r.append("\n");
    r
}

/// The line for a target that was worked on: what it gave back, or that a
/// build kept it.
pub open spec fn deletion_line(
    style: Style,
    target: Seq<u8>,
    outcome: Deletion,
    freed: Seq<char>,
) -> Seq<char> {
    match outcome {
        Deletion::Locked => style.as_warning(text::right_aligned("-"@, 10)) + "  "@
            + style.as_path(text::shown(target)) + "  "@ + style.as_warning(
            "(skipped: build running)"@,
        ) + "\n"@,
        Deletion::Removed { .. } => style.as_success(text::right_aligned(freed, 10)) + "  "@
            + style.as_path(text::shown(target)) + "\n"@,
    }
}

/// Writes the line for a target that was worked on. `freed` is the text of the
/// size that it gave back.
pub fn write_deletion_line(style: &Style, target: &[u8], outcome: &Deletion, freed: &str) -> (r:
    String)
    ensures
        r@ == deletion_line(*style, target@, *outcome, freed@),
{
    match outcome {
        Deletion::Locked => {
            let mut r = style.warning(align_right("-", 10).as_str());
            r.append("  ");
            r.append(style.path(show(target).as_str()).as_str());
            r.append("  ");
            r.append(style.warning("(skipped: build running)").as_str());
            r.append("\n");
            r
        },
        Deletion::Removed { .. } => {
            let mut r = style.success(align_right(freed, 10).as_str());
            r.append("  ");
            r.append(style.path(show(target).as_str()).as_str());
            r.append("\n");
            r
        },
    }
}

/// The line that sums a purge up. Targets that builds kept are mentioned where
/// there are any.
pub open spec fn summary_line(style: Style, summary: Summary, freed: Seq<char>) -> Seq<char> {
    style.as_success("freed "@ + freed) + " from "@ + style.as_strong(
        text::numeral(summary.deleted as nat),
    ) + " target dir"@ + text::plural(summary.deleted as int) + (if summary.locked > 0 {
        " "@ + style.as_warning(
            "("@ + text::numeral(summary.locked as nat) + " skipped: build running)"@,
        )
    } else {
        ""@
    }) + "\n"@
}

/// Writes the line that sums a purge up. `freed` is the text of the size that
/// was given back.
pub fn write_summary_line(style: &Style, summary: &Summary, freed: &str) -> (r: String)
    ensures
        r@ == summary_line(*style, *summary, freed@),
{
    let mut headline = "freed ".to_owned();
    headline.append(freed);
    let mut kept = "".to_owned();
    if summary.locked > 0 {
        let mut note = "(".to_owned();
        note.append(decimal(summary.locked as u64).as_str());
        note.append(" skipped: build running)");
        kept = " ".to_owned();
        kept.append(style.warning(note.as_str()).as_str());
    }
    let mut r = style.success(headline.as_str());
    r.append(" from ");
    r.append(style.strong(decimal(summary.deleted as u64).as_str()).as_str());
    r.append(" target dir");
    r.append(plural_ending(summary.deleted));
    r.append(kept.as_str());
    r.append("\n");
    r
}

/// The sizes of some unsure targets together.
pub open spec fn size_sum(hits: Seq<UnsureHit>) -> int
    decreases hits.len(),
{
    if hits.len() == 0 {
        0
    } else {
        size_sum(hits.drop_last()) + hits.last().size
    }
}

/// Sums up the sizes of unsure targets.
pub fn unsure_total(hits: &[UnsureHit]) -> (r: u64)
    requires
        size_sum(hits@) <= u64::MAX,
    ensures
        r == size_sum(hits@),
{
    let mut sum: u64 = 0;
    let mut i: usize = 0;
    assert(hits@.take(0) =~= Seq::empty());
    while i < hits.len()
        invariant
            i <= hits@.len(),
            sum == size_sum(hits@.take(i as int)),
            size_sum(hits@) <= u64::MAX,
        decreases hits@.len() - i,
    {
        assert(hits@.take(i + 1).drop_last() =~= hits@.take(i as int));
        proof {
            lemma_size_sum_grows(hits@, i + 1);
        }
        sum = sum + hits[i].size;
        i = i + 1;
    }
    assert(hits@.take(i as int) =~= hits@);
    sum
}

proof fn lemma_size_sum_grows(hits: Seq<UnsureHit>, n: int)
    requires
        0 <= n <= hits.len(),
    ensures
        size_sum(hits.take(n)) <= size_sum(hits),
    decreases hits.len(),
{
    if n == hits.len() {
        assert(hits.take(n) =~= hits);
    } else {
        lemma_size_sum_grows(hits.drop_last(), n);
        assert(hits.drop_last().take(n) =~= hits.take(n));
    }
}

/// The list of the first `n` unsure targets with the texts of their sizes, one
/// per line.
pub open spec fn unsure_lines(
    style: Style,
    hits: Seq<UnsureHit>,
    sizes: Seq<String>,
    n: int,
) -> Seq<char>
    decreases n,
{
    if n <= 0 {
        ""@
    } else {
        unsure_lines(style, hits, sizes, n - 1) + ("  "@ + style.as_accent(
            text::right_aligned(sizes[n - 1]@, 10),
        ) + "  "@ + style.as_path(text::shown(hits[n - 1].target@)) + "\n"@)
    }
}

/// The question about the unsure targets, with the list of them ahead of it.
pub open spec fn question(
    style: Style,
    hits: Seq<UnsureHit>,
    sizes: Seq<String>,
    total: Seq<char>,
) -> Seq<char> {
    "\n"@ + style.as_heading("Unverified targets"@) + "\n"@ + style.as_warning(
        text::numeral(hits.len()),
    ) + " target dir"@ + text::plural(hits.len() as int) + " without cargo build markers:\n"@
        + unsure_lines(style, hits, sizes, hits.len() as int) + style.as_strong(
        "Delete these too?"@,
    ) + " "@ + style.as_muted("("@ + total + " total) [y/N]"@) + " "@
}

/// Writes the question about the unsure targets. `sizes` holds the texts of
/// their sizes, `total` the text of the sum.
pub fn write_question(style: &Style, hits: &[UnsureHit], sizes: &[String], total: &str) -> (r:
    String)
    requires
        sizes@.len() == hits@.len(),
    ensures
        r@ == question(*style, hits@, sizes@, total@),
{
    let mut lines = "".to_owned();
    let mut i: usize = 0;
    while i < hits.len()
        invariant
            i <= hits@.len(),
            sizes@.len() == hits@.len(),
            lines@ == unsure_lines(*style, hits@, sizes@, i as int),
        decreases hits@.len() - i,
    {
        let mut line = "  ".to_owned();
        line.append(style.accent(align_right(sizes[i].as_str(), 10).as_str()).as_str());
        line.append("  ");
        line.append(style.path(show(hits[i].target.as_slice()).as_str()).as_str());
        line.append("\n");
        lines.append(line.as_str());
        i = i + 1;
    }
    let mut hint = "(".to_owned();
    hint.append(total);
    hint.append(" total) [y/N]");
    let mut r = "\n".to_owned();
    r.append(style.heading("Unverified targets").as_str());
    r.append("\n");
    r.append(style.warning(decimal(hits.len() as u64).as_str()).as_str());
    r.append(" target dir");
    r.append(plural_ending(hits.len()));
    r.append(" without cargo build markers:\n");
    r.append(lines.as_str());
    r.append(style.strong("Delete these too?").as_str());
    r.append(" ");
    r.append(style.muted(hint.as_str()).as_str());
    r.append(" ");
    r
}

/// The characters of the Unicode property `White_Space`.
pub open spec fn is_white_space(c: char) -> bool {
    ||| '\u{9}' <= c <= '\u{d}'
    ||| c == '\u{20}' || c == '\u{85}' || c == '\u{a0}' || c == '\u{1680}'
    ||| '\u{2000}' <= c <= '\u{200a}'
    ||| c == '\u{2028}' || c == '\u{2029}' || c == '\u{202f}' || c == '\u{205f}' || c == '\u{3000}'
}

fn white_space(c: char) -> (r: bool)
    ensures
        r == is_white_space(c),
{
    ('\u{9}' <= c && c <= '\u{d}') || c == '\u{20}' || c == '\u{85}' || c == '\u{a0}' || c
        == '\u{1680}' || ('\u{2000}' <= c && c <= '\u{200a}') || c == '\u{2028}' || c == '\u{2029}'
        || c == '\u{202f}' || c == '\u{205f}' || c == '\u{3000}'
}

/// `word` is what remains of `line` without white space at both ends.
pub open spec fn is_trimmed(line: Seq<char>, word: Seq<char>) -> bool {
    exists|from: int, to: int|
        0 <= from <= to <= line.len() && word == #[trigger] line.subrange(from, to) && (forall|
            i: int,
        |
            0 <= i < from ==> is_white_space(#[trigger] line[i])) && (forall|i: int|
            to <= i < line.len() ==> is_white_space(#[trigger] line[i])) && (from < to ==> (
        !is_white_space(line[from]) && !is_white_space(line[to - 1])))
}

/// A line that agrees: `y`, `Y` or `yes`, with white space around it or
/// without.
pub open spec fn is_yes(line: Seq<char>) -> bool {
    is_trimmed(line, "y"@) || is_trimmed(line, "Y"@) || is_trimmed(line, "yes"@)
}

fn is_word(line: &str, from: usize, to: usize, word: &str) -> (r: bool)
    requires
        from <= to <= line@.len(),
    ensures
        r == (line@.subrange(from as int, to as int) == word@),
{
    let n = word.unicode_len();
    if to - from != n {
        return false;
    }
    let mut i: usize = 0;
    while i < n
        invariant
            n == word@.len() == to - from,
            from <= to <= line@.len(),
            i <= n,
            forall|j: int| 0 <= j < i ==> line@[from + j] == word@[j],
        decreases n - i,
    {
        if line.get_char(from + i) != word.get_char(i) {
            assert(line@.subrange(from as int, to as int)[i as int] != word@[i as int]);
            return false;
        }
        i = i + 1;
    }
    assert(line@.subrange(from as int, to as int) =~= word@);
    true
}

proof fn lemma_trimmed_is_unique(line: Seq<char>, from: int, to: int, word: Seq<char>)
    requires
        0 <= from < to <= line.len(),
        forall|i: int| 0 <= i < from ==> is_white_space(#[trigger] line[i]),
        forall|i: int| to <= i < line.len() ==> is_white_space(#[trigger] line[i]),
        !is_white_space(line[from]),
        !is_white_space(line[to - 1]),
    ensures
        is_trimmed(line, word) == (line.subrange(from, to) == word),
{
    if is_trimmed(line, word) {
        let (a, b) = choose|a: int, b: int|
            0 <= a <= b <= line.len() && word == #[trigger] line.subrange(a, b) && (forall|i: int|
                0 <= i < a ==> is_white_space(#[trigger] line[i])) && (forall|i: int|
                b <= i < line.len() ==> is_white_space(#[trigger] line[i])) && (a < b ==> (
            !is_white_space(line[a]) && !is_white_space(line[b - 1])));
        assert(a <= from && to <= b);
        assert(a == from && to == b);
    }
}

/// Reads the answer to the question about the unsure targets. Without a line
/// nobody agreed.
pub fn confirmation(line: Option<&str>) -> (r: bool)
    ensures
        r == (line matches Some(s) && is_yes(s@)),
{
    let line = match line {
        Some(s) => s,
        None => return false,
    };
    let n = line.unicode_len();
    let mut from: usize = 0;
    while from < n && white_space(line.get_char(from))
        invariant
            n == line@.len(),
            from <= n,
            forall|i: int| 0 <= i < from ==> is_white_space(#[trigger] line@[i]),
        decreases n - from,
    {
        from = from + 1;
    }
    if from == n {
        proof {
            reveal_strlit("y");
            reveal_strlit("Y");
            reveal_strlit("yes");
            lemma_blank_is_no_word(line@, "y"@);
            lemma_blank_is_no_word(line@, "Y"@);
            lemma_blank_is_no_word(line@, "yes"@);
        }
        return false;
    }
    let mut to: usize = n;
    while white_space(line.get_char(to - 1))
        invariant
            n == line@.len(),
            from < to <= n,
            !is_white_space(line@[from as int]),
            forall|i: int| to <= i < n ==> is_white_space(#[trigger] line@[i]),
        decreases to,
    {
        to = to - 1;
    }
    proof {
        lemma_trimmed_is_unique(line@, from as int, to as int, "y"@);
        lemma_trimmed_is_unique(line@, from as int, to as int, "Y"@);
        lemma_trimmed_is_unique(line@, from as int, to as int, "yes"@);
    }
    is_word(line, from, to, "y") || is_word(line, from, to, "Y") || is_word(line, from, to, "yes")
}

proof fn lemma_blank_is_no_word(line: Seq<char>, word: Seq<char>)
    requires
        forall|i: int| 0 <= i < line.len() ==> is_white_space(#[trigger] line[i]),
        word.len() > 0,
    ensures
        !is_trimmed(line, word),
{
}

} // verus!
