//! The sums and the order of the list, and what its lines say.

use vstd::prelude::*;
use vstd::string::*;

use crate::ls;
use crate::ls::{LsOutcome, LsReply, LsRequest, LsState, LsTask};
use crate::ls_laws;
use crate::ls_text;
use crate::ls_text::{Size, SizedHit};
use crate::rank;
use crate::store::Project;
use crate::text;
use crate::walk::ScanHit;

verus! {

/// The bytes of the targets that are directories, added up from the front.
pub open spec fn bytes_on_disk(sizes: Seq<Option<Size>>) -> int
    decreases sizes.len(),
{
    if sizes.len() == 0 {
        0
    } else if sizes[0] is Some {
        sizes[0]->0.bytes + bytes_on_disk(sizes.drop_first())
    } else {
        bytes_on_disk(sizes.drop_first())
    }
}

/// How many targets are no directories, counted from the front.
pub open spec fn gone_from_disk(sizes: Seq<Option<Size>>) -> int
    decreases sizes.len(),
{
    if sizes.len() == 0 {
        0
    } else if sizes[0] is Some {
        gone_from_disk(sizes.drop_first())
    } else {
        1 + gone_from_disk(sizes.drop_first())
    }
}

proof fn lemma_ahead(sizes: Seq<Option<Size>>, more: Seq<Option<Size>>, n: int)
    requires
        n <= sizes.len(),
    ensures
        ls_text::recorded_bytes(sizes + more, n) == ls_text::recorded_bytes(sizes, n),
        ls_text::missing_targets(sizes + more, n) == ls_text::missing_targets(sizes, n),
    decreases n,
{
    if n > 0 {
        lemma_ahead(sizes, more, n - 1);
    }
}

/// The sum over the recorded targets is exact. It is nothing for no target and
/// the bytes of a single one; one more directory adds its bytes and one more
/// target that is gone adds nothing; and two parts add up. The targets that are
/// gone are counted likewise.
pub proof fn recorded_bytes_add_up(
    sizes: Seq<Option<Size>>,
    more: Seq<Option<Size>>,
    size: Size,
)
    ensures
        ls_text::recorded_bytes(Seq::empty(), 0) == 0,
        ls_text::recorded_bytes(seq![Some(size)], 1) == size.bytes,
        ls_text::recorded_bytes(sizes.push(Some(size)), (sizes.len() + 1) as int)
            == ls_text::recorded_bytes(sizes, sizes.len() as int) + size.bytes,
        ls_text::recorded_bytes(sizes.push(None), (sizes.len() + 1) as int)
            == ls_text::recorded_bytes(sizes, sizes.len() as int),
        ls_text::recorded_bytes(sizes + more, (sizes.len() + more.len()) as int)
            == ls_text::recorded_bytes(sizes, sizes.len() as int) + ls_text::recorded_bytes(
            more,
            more.len() as int,
        ),
        ls_text::missing_targets(Seq::empty(), 0) == 0,
        ls_text::missing_targets(sizes.push(Some(size)), (sizes.len() + 1) as int)
            == ls_text::missing_targets(sizes, sizes.len() as int),
        ls_text::missing_targets(sizes.push(None), (sizes.len() + 1) as int)
            == ls_text::missing_targets(sizes, sizes.len() as int) + 1,
        ls_text::missing_targets(sizes + more, (sizes.len() + more.len()) as int)
            == ls_text::missing_targets(sizes, sizes.len() as int) + ls_text::missing_targets(
            more,
            more.len() as int,
        ),
    decreases more.len(),
{
    let one: Seq<Option<Size>> = seq![Some(size)];
    assert(ls_text::recorded_bytes(one, 0) == 0);
    let none: Seq<Option<Size>> = seq![None];
    assert(sizes.push(Some(size)) =~= sizes + one);
    assert(sizes.push(None) =~= sizes + none);
    lemma_ahead(sizes, one, sizes.len() as int);
    lemma_ahead(sizes, none, sizes.len() as int);
    if more.len() > 0 {
        let less = more.drop_last();
        recorded_bytes_add_up(sizes, less, size);
        let last = seq![more.last()];
        assert(sizes + more =~= (sizes + less) + last);
        assert(more =~= less + last);
        lemma_ahead(sizes + less, last, (sizes + less).len() as int);
        lemma_ahead(less, last, less.len() as int);
    } else {
        assert(sizes + more =~= sizes);
    }
}

/// The sum over the recorded targets is that of the bytes of the directories
/// among them, and the targets that are gone are all those that are none.
pub proof fn recorded_bytes_are_those_on_disk(sizes: Seq<Option<Size>>)
    ensures
        ls_text::recorded_bytes(sizes, sizes.len() as int) == bytes_on_disk(sizes),
        ls_text::missing_targets(sizes, sizes.len() as int) == gone_from_disk(sizes),
        0 <= bytes_on_disk(sizes),
        0 <= gone_from_disk(sizes) <= sizes.len(),
    decreases sizes.len(),
{
    if sizes.len() > 0 {
        let rest = sizes.drop_first();
        recorded_bytes_are_those_on_disk(rest);
        let one: Seq<Option<Size>> = seq![sizes[0]];
        assert(sizes =~= one + rest);
        recorded_bytes_add_up(one, rest, sizes[0]->0);
        assert(ls_text::recorded_bytes(one, 0) == 0);
        assert(ls_text::missing_targets(one, 0) == 0);
    }
}

/// Once the recorded targets were measured, the command knows the sum of the
/// bytes of the directories among them, and how many are gone.
pub proof fn measuring_takes_the_sum(s: LsState, sizes: Vec<Option<Size>>, next: LsState)
    requires
        s.task is MeasureRows,
        sizes@.len() == s.projects.len(),
        s.projects.len() <= usize::MAX,
        bytes_on_disk(sizes@) <= u64::MAX,
        s.goes_to(LsReply::RowSizes(sizes)@, next),
    ensures
        next.recorded_bytes == bytes_on_disk(sizes@),
        next.missing == gone_from_disk(sizes@),
        next.task is ShowRows,
        next.projects == s.projects,
{
    recorded_bytes_are_those_on_disk(sizes@);
}

proof fn lemma_sum_stays(states: Seq<LsState>, replies: Seq<LsOutcome>, j: int, i: int)
    requires
        ls_laws::is_run(states, replies),
        0 <= j <= i <= replies.len(),
        !ls_laws::is_early(states[j].task),
        !(states[j].task is Reject),
    ensures
        !ls_laws::is_early(states[i].task),
        !(states[i].task is Reject),
        states[i].recorded_bytes == states[j].recorded_bytes,
        states[i].missing == states[j].missing,
        states[i].policy == states[j].policy,
        states[i].style == states[j].style,
    decreases i - j,
{
    if j < i {
        lemma_sum_stays(states, replies, j, i - 1);
        assert(ls_laws::is_step(states, replies, i - 1));
    }
}

/// Of the sizes that are written out for the closing lines, the first is the
/// exact sum of the bytes of the recorded targets that are directories, and the
/// second is the limit on it.
pub proof fn the_total_is_the_sum_on_disk(
    states: Seq<LsState>,
    replies: Seq<LsOutcome>,
    j: int,
    i: int,
    sizes: Vec<Option<Size>>,
    shown: u64,
)
    requires
        ls_laws::is_run(states, replies),
        0 <= j < i <= replies.len(),
        states[j].task is MeasureRows,
        replies[j] == LsReply::RowSizes(sizes)@,
        sizes@.len() == states[j].projects.len() <= usize::MAX,
        bytes_on_disk(sizes@) <= u64::MAX,
        ls::ls_asks_for(LsRequest::FormatSize(shown), states[i]),
    ensures
        states[i].task is FormatTotal ==> shown == bytes_on_disk(sizes@),
        states[i].task is FormatBudget ==> shown == states[i].policy.max_total_cache,
        states[i].recorded_bytes == bytes_on_disk(sizes@),
        states[i].missing == gone_from_disk(sizes@),
{
    assert(ls_laws::is_step(states, replies, j));
    measuring_takes_the_sum(states[j], sizes, states[j + 1]);
    lemma_sum_stays(states, replies, j + 1, i);
}

/// The bytes of sizes, added up from the front.
pub open spec fn bytes_in(sizes: Seq<Size>) -> int
    decreases sizes.len(),
{
    if sizes.len() == 0 {
        0
    } else {
        sizes[0].bytes + bytes_in(sizes.drop_first())
    }
}

proof fn lemma_found_insert(found: Seq<SizedHit>, x: SizedHit, k: int, n: int)
    requires
        0 <= k <= found.len(),
        0 <= n <= found.len(),
    ensures
        n <= k ==> ls_text::found_bytes(found.insert(k, x), n) == ls_text::found_bytes(found, n),
        n >= k ==> ls_text::found_bytes(found.insert(k, x), n + 1) == ls_text::found_bytes(found, n)
            + x.size.bytes,
    decreases n,
{
    let all = found.insert(k, x);
    if n > 0 {
        lemma_found_insert(found, x, k, n - 1);
    }
    if n > k {
        assert(all[n] == found[n - 1]);
    }
    if n == k {
        assert(all[n] == x);
        if n > 0 {
            assert(all[n - 1] == found[n - 1]);
        }
    }
    if 0 < n < k {
        assert(all[n - 1] == found[n - 1]);
    }
}

proof fn lemma_found_ahead(found: Seq<SizedHit>, x: SizedHit, n: int)
    requires
        n <= found.len(),
    ensures
        ls_text::found_bytes(found.push(x), n) == ls_text::found_bytes(found, n),
    decreases n,
{
    if n > 0 {
        lemma_found_ahead(found, x, n - 1);
    }
}

/// The sum over the found targets is exact: one more adds its bytes, wherever it
/// stands.
pub proof fn found_bytes_add_up(found: Seq<SizedHit>, x: SizedHit, k: int)
    requires
        0 <= k <= found.len(),
    ensures
        ls_text::found_bytes(Seq::empty(), 0) == 0,
        ls_text::found_bytes(seq![x], 1) == x.size.bytes,
        ls_text::found_bytes(found.insert(k, x), (found.len() + 1) as int)
            == ls_text::found_bytes(found, found.len() as int) + x.size.bytes,
{
    lemma_found_insert(found, x, k, found.len() as int);
    assert(ls_text::found_bytes(seq![x], 0) == 0);
}

proof fn lemma_ranked_sum(found: Seq<SizedHit>)
    ensures
        ls_text::found_bytes(rank::ranked(found), found.len() as int) == ls_text::found_bytes(
            found,
            found.len() as int,
        ),
    decreases found.len(),
{
    rank::ranking_is_stable(found, 0);
    if found.len() > 0 {
        let less = found.drop_last();
        let x = found.last();
        lemma_ranked_sum(less);
        rank::ranking_is_stable(less, 0);
        let before = rank::ranked(less);
        assert(0 <= rank::slot(before, x) <= before.len()) by {
            lemma_slot_within(before, x);
        }
        lemma_found_insert(before, x, rank::slot(before, x), before.len() as int);
        lemma_found_ahead(less, x, less.len() as int);
        assert(less.push(x) =~= found);
    }
}

proof fn lemma_slot_within(list: Seq<SizedHit>, x: SizedHit)
    ensures
        0 <= rank::slot(list, x) <= list.len(),
    decreases list.len(),
{
    if list.len() > 0 {
        lemma_slot_within(list.drop_last(), x);
    }
}

proof fn lemma_sized_sum(hits: Seq<ScanHit>, sizes: Seq<Size>, n: int)
    requires
        hits.len() == sizes.len(),
        0 <= n <= sizes.len(),
    ensures
        ls_text::found_bytes(ls::sized(hits, sizes), n) == ls::sum_of(sizes, n),
    decreases n,
{
    if n > 0 {
        lemma_sized_sum(hits, sizes, n - 1);
    }
}

proof fn lemma_sum_front(sizes: Seq<Size>, n: int)
    requires
        0 < n <= sizes.len(),
    ensures
        ls::sum_of(sizes, n) == sizes[0].bytes + ls::sum_of(sizes.drop_first(), n - 1),
    decreases n,
{
    if n > 1 {
        lemma_sum_front(sizes, n - 1);
        assert(sizes.drop_first()[n - 2] == sizes[n - 1]);
    } else {
        assert(ls::sum_of(sizes, 0) == 0);
    }
}

proof fn lemma_sum_is_bytes(sizes: Seq<Size>)
    ensures
        ls::sum_of(sizes, sizes.len() as int) == bytes_in(sizes),
        0 <= bytes_in(sizes),
    decreases sizes.len(),
{
    if sizes.len() > 0 {
        lemma_sum_is_bytes(sizes.drop_first());
        lemma_sum_front(sizes, sizes.len() as int);
    }
}

/// Once the found targets were measured, the command knows the sum of their
/// bytes, and writes that one out for the closing lines. The recorded ones are
/// no part of it.
pub proof fn the_found_total_is_the_sum(
    s: LsState,
    hits: Seq<ScanHit>,
    sizes: Vec<Size>,
    next: LsState,
)
    requires
        s.task == LsTask::MeasureHits(hits),
        sizes@.len() == hits.len(),
        bytes_in(sizes@) <= u64::MAX,
        s.goes_to(LsReply::HitSizes(sizes)@, next),
    ensures
        next.found_bytes == bytes_in(sizes@),
        next.recorded_bytes == s.recorded_bytes,
        next.task is ShowHits,
{
    lemma_sum_is_bytes(sizes@);
    let found = ls::sized(hits, sizes@);
    lemma_sized_sum(hits, sizes@, sizes@.len() as int);
    lemma_ranked_sum(found);
    rank::ranking_is_stable(found, 0);
}

/// The size that is written out for the found targets is the sum that is known.
pub proof fn the_found_total_is_shown(s: LsState, shown: u64)
    requires
        ls::ls_asks_for(LsRequest::FormatSize(shown), s),
        s.task is FormatUntracked,
    ensures
        shown == s.found_bytes,
{
}

/// The recorded projects are listed with the latest used first. None is lost or
/// made up, and those used at the same time keep their order.
pub proof fn the_latest_used_come_first(
    projects: Seq<Project>,
    i: int,
    j: int,
    x: Project,
)
    ensures
        rank::ranked(projects).len() == projects.len(),
        0 <= i <= j < projects.len() ==> rank::ranked(projects)[i].last_used >= rank::ranked(
            projects,
        )[j].last_used,
        rank::ranked(projects).contains(x) == projects.contains(x),
        rank::ranked(projects).filter(|p: Project| p.last_used == x.last_used) == projects.filter(
            |p: Project| p.last_used == x.last_used,
        ),
{
    rank::ranking_is_stable(projects, x.last_used as int);
    rank::ranking_keeps_the_items(projects, x);
    let same = |p: Project| p.last_used == x.last_used;
    assert(rank::has_rank::<Project>(x.last_used as int) =~= same);
    if 0 <= i <= j < projects.len() {
        assert(rank::Ranked::rank(&rank::ranked(projects)[i]) >= rank::Ranked::rank(
            &rank::ranked(projects)[j],
        ));
    }
}

/// The found targets are listed with the largest first. None is lost or made up,
/// and those of one size keep their order.
pub proof fn the_largest_come_first(found: Seq<SizedHit>, i: int, j: int, x: SizedHit)
    ensures
        rank::ranked(found).len() == found.len(),
        0 <= i <= j < found.len() ==> rank::ranked(found)[i].size.bytes >= rank::ranked(
            found,
        )[j].size.bytes,
        rank::ranked(found).contains(x) == found.contains(x),
        rank::ranked(found).filter(|p: SizedHit| p.size.bytes == x.size.bytes) == found.filter(
            |p: SizedHit| p.size.bytes == x.size.bytes,
        ),
{
    rank::ranking_is_stable(found, x.size.bytes as int);
    rank::ranking_keeps_the_items(found, x);
    let same = |p: SizedHit| p.size.bytes == x.size.bytes;
    assert(rank::has_rank::<SizedHit>(x.size.bytes as int) =~= same);
    if 0 <= i <= j < found.len() {
        assert(rank::Ranked::rank(&rank::ranked(found)[i]) >= rank::Ranked::rank(
            &rank::ranked(found)[j],
        ));
    }
}

/// Below an hour an age is told in whole minutes, below a day in whole hours,
/// and from there on in whole days. What lies in the future is no minute old.
pub proof fn ages_are_told_in_whole_units(secs: int, v: nat)
    ensures
        secs < 3600 && v * 60 <= secs < (v + 1) * 60 ==> ls_text::age(secs) == text::numeral(v)
            + seq!['m', ' ', 'a', 'g', 'o'],
        3600 <= secs < 86400 && v * 3600 <= secs < (v + 1) * 3600 ==> ls_text::age(secs)
            == text::numeral(v) + seq!['h', ' ', 'a', 'g', 'o'],
        86400 <= secs && v * 86400 <= secs < (v + 1) * 86400 ==> ls_text::age(secs)
            == text::numeral(v) + seq!['d', ' ', 'a', 'g', 'o'],
        secs < 0 ==> ls_text::age(secs) == text::numeral(0) + seq!['m', ' ', 'a', 'g', 'o'],
{
    reveal_strlit("m ago");
    reveal_strlit("h ago");
    reveal_strlit("d ago");
    assert("m ago"@ =~= seq!['m', ' ', 'a', 'g', 'o']);
    assert("h ago"@ =~= seq!['h', ' ', 'a', 'g', 'o']);
    assert("d ago"@ =~= seq!['d', ' ', 'a', 'g', 'o']);
}

} // verus!
