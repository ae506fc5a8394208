//! Which lines agree to a deletion, and what is asked.

use vstd::prelude::*;
use vstd::string::*;

use crate::confirm;
use crate::confirm::{ConfirmReply, ConfirmRequest, ConfirmState, ConfirmTask};
use crate::purge::UnsureHit;
use crate::purge_text;

verus! {

/// White space as Unicode has it: the tab, the line breaks, the blank and the
/// blanks of other widths.
pub open spec fn is_blank(c: char) -> bool {
    let n = c as u32;
    ||| n == 9 || n == 10 || n == 11 || n == 12 || n == 13 || n == 32
    ||| n == 0x85 || n == 0xa0 || n == 0x1680
    ||| n == 0x2000 || n == 0x2001 || n == 0x2002 || n == 0x2003 || n == 0x2004 || n == 0x2005
    ||| n == 0x2006 || n == 0x2007 || n == 0x2008 || n == 0x2009 || n == 0x200a
    ||| n == 0x2028 || n == 0x2029 || n == 0x202f || n == 0x205f || n == 0x3000
}

/// Nothing but white space.
pub open spec fn all_blank(s: Seq<char>) -> bool {
    forall|i: int| 0 <= i < s.len() ==> is_blank(#[trigger] s[i])
}

/// A word that agrees.
pub open spec fn is_consent(word: Seq<char>) -> bool {
    word == seq!['y'] || word == seq!['Y'] || word == seq!['y', 'e', 's']
}

/// `word` stands in `line` with nothing but white space around it.
pub open spec fn stands_alone(line: Seq<char>, word: Seq<char>, from: int) -> bool {
    &&& 0 <= from
    &&& from + word.len() <= line.len()
    &&& word == line.subrange(from, from + word.len())
    &&& all_blank(line.subrange(0, from))
    &&& all_blank(line.subrange(from + word.len(), line.len() as int))
}

proof fn lemma_blank(c: char)
    ensures
        purge_text::is_white_space(c) == is_blank(c),
{
}

proof fn lemma_words()
    ensures
        "y"@ == seq!['y'],
        "Y"@ == seq!['Y'],
        "yes"@ == seq!['y', 'e', 's'],
        !is_blank('y'),
        !is_blank('Y'),
        !is_blank('s'),
{
    reveal_strlit("y");
    reveal_strlit("Y");
    reveal_strlit("yes");
    assert("y"@ =~= seq!['y']);
    assert("Y"@ =~= seq!['Y']);
    assert("yes"@ =~= seq!['y', 'e', 's']);
}

proof fn lemma_trimmed_stands(line: Seq<char>, word: Seq<char>)
    requires
        purge_text::is_trimmed(line, word),
    ensures
        exists|from: int| #[trigger] stands_alone(line, word, from),
{
    let (from, to) = choose|from: int, to: int|
        0 <= from <= to <= line.len() && word == #[trigger] line.subrange(from, to) && (forall|
            i: int,
        |
            0 <= i < from ==> purge_text::is_white_space(#[trigger] line[i])) && (forall|i: int|
            to <= i < line.len() ==> purge_text::is_white_space(#[trigger] line[i])) && (from < to
            ==> (!purge_text::is_white_space(line[from]) && !purge_text::is_white_space(
            line[to - 1],
        )));
    assert(to == from + word.len());
    let (ahead, behind) = (line.subrange(0, from), line.subrange(to, line.len() as int));
    assert forall|i: int| 0 <= i < ahead.len() implies is_blank(#[trigger] ahead[i]) by {
        lemma_blank(line[i]);
    }
    assert forall|i: int| 0 <= i < behind.len() implies is_blank(#[trigger] behind[i]) by {
        lemma_blank(line[to + i]);
    }
    assert(stands_alone(line, word, from));
}

proof fn lemma_stands_trimmed(line: Seq<char>, word: Seq<char>, from: int)
    requires
        stands_alone(line, word, from),
        word.len() > 0,
        !is_blank(word[0]),
        !is_blank(word.last()),
    ensures
        purge_text::is_trimmed(line, word),
{
    let to = from + word.len();
    let (ahead, behind) = (line.subrange(0, from), line.subrange(to, line.len() as int));
    assert forall|i: int| 0 <= i < from implies purge_text::is_white_space(#[trigger] line[i]) by {
        assert(ahead[i] == line[i]);
        lemma_blank(line[i]);
    }
    assert forall|i: int| to <= i < line.len() implies purge_text::is_white_space(
        #[trigger] line[i],
    ) by {
        assert(behind[i - to] == line[i]);
        lemma_blank(line[i]);
    }
    assert(word[0] == line[from] && word.last() == line[to - 1]);
    lemma_blank(line[from]);
    lemma_blank(line[to - 1]);
    assert(word == line.subrange(from, to));
}

/// A line agrees exactly where, but for white space around it, it is `y`, `Y`
/// or `yes`. Every other line declines.
pub proof fn only_y_and_yes_agree(line: Seq<char>)
    ensures
        purge_text::is_yes(line) == exists|word: Seq<char>, from: int|
            is_consent(word) && #[trigger] stands_alone(line, word, from),
{
    lemma_words();
    if purge_text::is_yes(line) {
        let word = if purge_text::is_trimmed(line, "y"@) {
            "y"@
        } else if purge_text::is_trimmed(line, "Y"@) {
            "Y"@
        } else {
            "yes"@
        };
        lemma_trimmed_stands(line, word);
        assert(is_consent(word));
    }
    if exists|word: Seq<char>, from: int|
        is_consent(word) && #[trigger] stands_alone(line, word, from) {
        let (word, from) = choose|word: Seq<char>, from: int|
            is_consent(word) && #[trigger] stands_alone(line, word, from);
        lemma_stands_trimmed(line, word, from);
    }
}

/// A line that agrees has a `y` or a `Y` in it, and nothing else but white space
/// and the rest of `yes`.
pub proof fn a_line_that_agrees_has_a_y(line: Seq<char>, i: int)
    requires
        purge_text::is_yes(line),
    ensures
        line.contains('y') || line.contains('Y'),
        0 <= i < line.len() ==> is_blank(line[i]) || line[i] == 'y' || line[i] == 'Y' || line[i]
            == 'e' || line[i] == 's',
{
    only_y_and_yes_agree(line);
    let (word, from) = choose|word: Seq<char>, from: int|
        is_consent(word) && #[trigger] stands_alone(line, word, from);
    assert(word[0] == line[from]);
    if 0 <= i < from {
        assert(line.subrange(0, from)[i] == line[i]);
    } else if from + word.len() <= i < line.len() {
        assert(line.subrange(from + word.len(), line.len() as int)[i - (from + word.len())]
            == line[i]);
    } else if 0 <= i < line.len() {
        assert(word[i - from] == line[i]);
    }
}

/// A line without a word declines.
pub proof fn a_blank_line_declines(line: Seq<char>)
    requires
        all_blank(line),
    ensures
        !purge_text::is_yes(line),
{
    lemma_words();
    if purge_text::is_yes(line) {
        a_line_that_agrees_has_a_y(line, 0);
        let i = if line.contains('y') {
            line.index_of('y')
        } else {
            line.index_of('Y')
        };
        assert(is_blank(line[i]));
    }
}

/// The words agree however much white space stands around them.
pub proof fn white_space_around_consent_is_ignored(
    ahead: Seq<char>,
    word: Seq<char>,
    behind: Seq<char>,
)
    requires
        all_blank(ahead),
        all_blank(behind),
        is_consent(word),
    ensures
        purge_text::is_yes(ahead + word + behind),
{
    let line = ahead + word + behind;
    let from = ahead.len() as int;
    assert(line.subrange(0, from) =~= ahead);
    assert(line.subrange(from, from + word.len()) =~= word);
    assert(line.subrange(from + word.len(), line.len() as int) =~= behind);
    assert(stands_alone(line, word, from));
    only_y_and_yes_agree(line);
}

/// An inquiry ends with a yes only where the line that was read agrees. Where no
/// line could be read, it ends with a no.
pub proof fn an_inquiry_ends_with_what_was_read(s: ConfirmState, line: String)
    requires
        s.task is Ask,
    ensures
        s.next(ConfirmReply::Line(None)).task == ConfirmTask::Done(false),
        s.next(ConfirmReply::Line(Some(line))).task == ConfirmTask::Done(
            exists|word: Seq<char>, from: int|
                is_consent(word) && #[trigger] stands_alone(line@, word, from),
        ),
{
    only_y_and_yes_agree(line@);
}

/// The answer of an inquiry is asked for once it is known, as it is.
pub proof fn an_inquiry_hands_out_its_answer(s: ConfirmState, yes: bool)
    requires
        confirm::confirm_asks_for(ConfirmRequest::Done(yes), s),
    ensures
        s.task == ConfirmTask::Done(yes),
{
}

/// The sizes to be written out are those of the directories in their order, and
/// their sum behind them.
pub proof fn sizes_are_written_out_in_order(s: ConfirmState, sizes: Vec<u64>, k: int)
    requires
        confirm::confirm_asks_for(ConfirmRequest::FormatSizes(sizes), s),
        purge_text::size_sum(s.hits) <= u64::MAX,
        0 <= k < s.hits.len(),
    ensures
        sizes@.len() == s.hits.len() + 1,
        sizes@[k] == s.hits[k].size,
        sizes@[s.hits.len() as int] == purge_text::size_sum(s.hits),
{
    lemma_sum_is_natural(s.hits);
}

proof fn lemma_sum_is_natural(hits: Seq<UnsureHit>)
    ensures
        0 <= purge_text::size_sum(hits),
    decreases hits.len(),
{
    if hits.len() > 0 {
        lemma_sum_is_natural(hits.drop_last());
    }
}

/// The sum of the sizes is exact: nothing for no directory, the size of a single
/// one, and for more the sums of any two parts together.
pub proof fn sizes_are_summed_exactly(a: Seq<UnsureHit>, b: Seq<UnsureHit>, hit: UnsureHit)
    ensures
        purge_text::size_sum(Seq::empty()) == 0,
        purge_text::size_sum(seq![hit]) == hit.size,
        purge_text::size_sum(a.push(hit)) == purge_text::size_sum(a) + hit.size,
        purge_text::size_sum(a + b) == purge_text::size_sum(a) + purge_text::size_sum(b),
    decreases b.len(),
{
    assert(a.push(hit).drop_last() =~= a);
    assert(seq![hit].drop_last() =~= Seq::empty());
    assert(purge_text::size_sum(seq![hit].drop_last()) == 0);
    if b.len() > 0 {
        sizes_are_summed_exactly(a, b.drop_last(), hit);
        assert((a + b).drop_last() =~= a + b.drop_last());
    } else {
        assert(a + b =~= a);
    }
}

} // verus!
