//! What the words of the scan options mean, which roots a scan has, and what
//! vouches for a target.

use vstd::prelude::*;
use vstd::string::*;
use vstd::utf8::*;

use crate::path;
use crate::purge::{Inspection, Outcome, PurgeReply, PurgeState, Task};
use crate::scan;
use crate::scan::{Candidate, Evidence, Scan};
use crate::spelling;
use crate::text;
use crate::text_laws;
use crate::walk::{Answer, WalkReply};

verus! {

/// A `CACHEDIR.TAG` in which the word `cargo` does not occur is no evidence.
/// Without cargo's probe cache and without a compiled profile, nothing is.
pub proof fn a_tag_without_cargo_is_no_evidence(found: Evidence)
    requires
        !found.rustc_info,
        !found.profile,
        found.tag matches Some(tag) ==> forall|i: int|
            0 <= i <= tag@.len() - 5 ==> !(#[trigger] tag@[i] == 'c' as u8 && tag@[i + 1] == 'a' as u8
                && tag@[i + 2] == 'r' as u8 && tag@[i + 3] == 'g' as u8 && tag@[i + 4]
                == 'o' as u8),
    ensures
        !found.vouches(),
{
    spelling::cargo();
    if let Some(tag) = found.tag {
        let word = encode_utf8("cargo"@);
        if scan::occurs_in(word, tag@) {
            let i = choose|i: int|
                0 <= i <= tag@.len() - word.len() && #[trigger] tag@.subrange(i, i + word.len())
                    == word;
            let part = tag@.subrange(i, i + 5);
            assert(part[0] == tag@[i] && part[1] == tag@[i + 1] && part[2] == tag@[i + 2] && part[3]
                == tag@[i + 3] && part[4] == tag@[i + 4]);
        }
    }
}

/// A `CACHEDIR.TAG` that is a text is evidence wherever `cargo` stands in it.
/// Cargo's probe cache is evidence alone, and so is a compiled profile.
pub proof fn each_marker_is_evidence(found: Evidence, ahead: Seq<u8>, behind: Seq<u8>)
    ensures
        found.rustc_info ==> found.vouches(),
        found.profile ==> found.vouches(),
        (found.tag matches Some(tag) && valid_utf8(tag@) && tag@ == ahead + seq![99u8, 97u8, 114u8, 103u8, 111u8] + behind)
            ==> found.vouches(),
{
    spelling::cargo();
    if let Some(tag) = found.tag {
        let word = encode_utf8("cargo"@);
        if tag@ == ahead + seq![99u8, 97u8, 114u8, 103u8, 111u8] + behind {
            let i = ahead.len() as int;
            assert(tag@.subrange(i, i + word.len()) =~= word);
        }
    }
}

/// A tag that is no text is no evidence, whatever stands in it.
pub proof fn a_tag_that_is_no_text_is_no_evidence(found: Evidence)
    requires
        !found.rustc_info,
        !found.profile,
        found.tag matches Some(tag) ==> !valid_utf8(tag@),
    ensures
        !found.vouches(),
{
}

/// What a reply says of the evidence is what was found, for a recorded target
/// and for one that a scan came across.
pub proof fn replies_tell_what_was_found(at: Inspection, canonical: Option<Vec<u8>>)
    ensures
        PurgeReply::Inspected(Some(at))@ matches Outcome::Inspected(Some(present))
            && present.markers == at.found.vouches(),
        (WalkReply::Probed { found: at.found, canonical })@ matches Answer::Probed { markers, .. }
            && markers == at.found.vouches(),
{
}

/// A recorded directory in which nothing of cargo's was found is not deleted
/// but measured, so that the user can be asked about it.
pub proof fn a_directory_without_cargos_marks_is_asked_about(
    s: PurgeState,
    target: Seq<u8>,
    at: Inspection,
)
    requires
        s.task == Task::Inspect(target),
        !at.found.rustc_info,
        !at.found.profile,
        at.found.tag matches Some(tag) ==> forall|i: int|
            0 <= i <= tag@.len() - 5 ==> !(#[trigger] tag@[i] == 'c' as u8 && tag@[i + 1] == 'a' as u8
                && tag@[i + 2] == 'r' as u8 && tag@[i + 3] == 'g' as u8 && tag@[i + 4]
                == 'o' as u8),
    ensures
        s.next(PurgeReply::Inspected(Some(at))@).task matches Task::Measure(p, _) && p == target,
        s.next(PurgeReply::Inspected(Some(at))@).unsure == s.unsure,
        s.next(PurgeReply::Inspected(Some(at))@).summary == s.summary,
{
    a_tag_without_cargo_is_no_evidence(at.found);
}

/// Argument `i` stands ahead of every `--`.
pub open spec fn is_early(args: Seq<Seq<u8>>, i: int) -> bool {
    forall|j: int| 0 <= j < i ==> #[trigger] args[j] != seq![45u8, 45u8]
}

proof fn lemma_early(args: Seq<Seq<u8>>, i: int)
    ensures
        scan::options_ended(args, i) == !is_early(args, i),
{
    spelling::dashes();
}

/// A scan is on exactly where the option `--include-untracked` stands among
/// the arguments, ahead of any `--`.
pub proof fn a_scan_is_on_where_the_option_is(args: Seq<Seq<u8>>, scan: Scan)
    requires
        scan::is_reading_of(args, Ok(scan)),
    ensures
        (scan is Off) == !exists|i: int|
            0 <= i < args.len() && #[trigger] args[i] == seq![45u8, 45u8, 105u8, 110u8, 99u8, 108u8, 117u8, 100u8, 101u8, 45u8, 117u8, 110u8, 116u8, 114u8, 97u8, 99u8, 107u8, 101u8, 100u8] && is_early(args, i),
{
    spelling::option();
    let n = args.len() as int;
    if !(scan is Off) {
        let i = choose|i: int| 0 <= i < n && #[trigger] scan::is_opt_in(args, i);
        lemma_early(args, i);
        assert(args[i] == seq![45u8, 45u8, 105u8, 110u8, 99u8, 108u8, 117u8, 100u8, 101u8, 45u8, 117u8, 110u8, 116u8, 114u8, 97u8, 99u8, 107u8, 101u8, 100u8]);
    } else if exists|i: int|
        0 <= i < args.len() && #[trigger] args[i] == seq![45u8, 45u8, 105u8, 110u8, 99u8, 108u8, 117u8, 100u8, 101u8, 45u8, 117u8, 110u8, 116u8, 114u8, 97u8, 99u8, 107u8, 101u8, 100u8] && is_early(args, i) {
        let i = choose|i: int|
            0 <= i < args.len() && #[trigger] args[i] == seq![45u8, 45u8, 105u8, 110u8, 99u8, 108u8, 117u8, 100u8, 101u8, 45u8, 117u8, 110u8, 116u8, 114u8, 97u8, 99u8, 107u8, 101u8, 100u8] && is_early(args, i);
        lemma_early(args, i);
        assert(scan::is_opt_in(args, i));
    }
}

/// The directory that is scanned is one of the arguments, as it was given. It
/// begins with a dash only where a `--` stands ahead of it.
pub proof fn the_named_directory_is_an_argument(args: Seq<Seq<u8>>, root: Vec<u8>)
    requires
        scan::is_reading_of(args, Ok(Scan::Explicit(root))),
    ensures
        exists|i: int|
            0 <= i < args.len() && #[trigger] args[i] == root@ && (is_early(args, i) ==> !(
            root@.len() > 0 && root@[0] == '-' as u8)),
{
    spelling::dashes();
    spelling::option();
    let i = choose|i: int|
        0 <= i < args.len() && #[trigger] scan::is_operand(args, i) && args[i] == root@;
    lemma_early(args, i);
    assert(args[i] == root@);
}

/// An argument that begins with a dash, ahead of any `--`, is refused unless it
/// is the option or the `--` itself.
pub proof fn other_options_are_refused(
    args: Seq<Seq<u8>>,
    r: Result<Scan, String>,
    i: int,
)
    requires
        scan::is_reading_of(args, r),
        0 <= i < args.len(),
        is_early(args, i),
        args[i].len() > 0,
        args[i][0] == '-' as u8,
        args[i] != seq![45u8, 45u8],
        args[i] != seq![45u8, 45u8, 105u8, 110u8, 99u8, 108u8, 117u8, 100u8, 101u8, 45u8, 117u8, 110u8, 116u8, 114u8, 97u8, 99u8, 107u8, 101u8, 100u8],
    ensures
        r is Err,
{
    spelling::dashes();
    spelling::option();
    lemma_early(args, i);
    assert(scan::is_refused(args, i));
}

/// The option with a directory is a scan of that directory, whichever comes
/// first; behind a `--` any word is a directory. The option alone, however
/// often, is a scan of the usual places, and nothing at all is no scan.
pub proof fn the_ways_to_ask_for_a_scan(
    dir: Seq<u8>,
    r: Result<Scan, String>,
    args: Seq<Seq<u8>>,
)
    requires
        scan::is_reading_of(args, r),
    ensures
        !(dir.len() > 0 && dir[0] == '-' as u8) && (args == seq![seq![45u8, 45u8, 105u8, 110u8, 99u8, 108u8, 117u8, 100u8, 101u8, 45u8, 117u8, 110u8, 116u8, 114u8, 97u8, 99u8, 107u8, 101u8, 100u8], dir] || args == seq![
            dir,
            seq![45u8, 45u8, 105u8, 110u8, 99u8, 108u8, 117u8, 100u8, 101u8, 45u8, 117u8, 110u8, 116u8, 114u8, 97u8, 99u8, 107u8, 101u8, 100u8],
        ]) ==> (r matches Ok(Scan::Explicit(root)) && root@ == dir),
        args == seq![seq![45u8, 45u8, 105u8, 110u8, 99u8, 108u8, 117u8, 100u8, 101u8, 45u8, 117u8, 110u8, 116u8, 114u8, 97u8, 99u8, 107u8, 101u8, 100u8], seq![45u8, 45u8], dir] ==> (r matches Ok(Scan::Explicit(root))
            && root@ == dir),
        args.len() > 0 && (forall|i: int| 0 <= i < args.len() ==> #[trigger] args[i] == seq![45u8, 45u8, 105u8, 110u8, 99u8, 108u8, 117u8, 100u8, 101u8, 45u8, 117u8, 110u8, 116u8, 114u8, 97u8, 99u8, 107u8, 101u8, 100u8])
            ==> r == Ok::<Scan, String>(Scan::Defaults),
        args.len() == 0 ==> r == Ok::<Scan, String>(Scan::Off),
{
    spelling::dashes();
    spelling::option();
    let option = seq![45u8, 45u8, 105u8, 110u8, 99u8, 108u8, 117u8, 100u8, 101u8, 45u8, 117u8, 110u8, 116u8, 114u8, 97u8, 99u8, 107u8, 101u8, 100u8];
    let dashes = seq![45u8, 45u8];
    assert(option[0] == '-' as u8 && option.len() == 19 && dashes.len() == 2);
    let n = args.len() as int;
    if args == seq![option, dir] && !(dir.len() > 0 && dir[0] == '-' as u8) {
        assert(args[0] == option && args[1] == dir);
        assert(!scan::options_ended(args, 0) && !scan::options_ended(args, 1));
        assert(scan::is_opt_in(args, 0));
        assert(!scan::is_operand(args, 0) && !scan::is_refused(args, 0));
        assert(scan::is_operand(args, 1));
        assert(!scan::operand_before(args, 1));
        assert(!scan::is_refused(args, 1));
        assert(scan::accepted_before(args, n) && scan::opt_in_before(args, n)
            && scan::operand_before(args, n));
        if let Ok(Scan::Explicit(root)) = r {
            let i = choose|i: int|
                0 <= i < n && #[trigger] scan::is_operand(args, i) && args[i] == root@;
            assert(i == 1);
        }
    }
    if args == seq![dir, option] && !(dir.len() > 0 && dir[0] == '-' as u8) {
        assert(args[0] == dir && args[1] == option);
        assert(dir != dashes) by {
            assert(dashes[0] == '-' as u8);
        }
        assert(!scan::options_ended(args, 0) && !scan::options_ended(args, 1));
        assert(scan::is_operand(args, 0));
        assert(!scan::operand_before(args, 0));
        assert(!scan::is_refused(args, 0));
        assert(scan::is_opt_in(args, 1));
        assert(!scan::is_operand(args, 1) && !scan::is_refused(args, 1));
        assert(scan::accepted_before(args, n) && scan::opt_in_before(args, n)
            && scan::operand_before(args, n));
        if let Ok(Scan::Explicit(root)) = r {
            let i = choose|i: int|
                0 <= i < n && #[trigger] scan::is_operand(args, i) && args[i] == root@;
            assert(i == 0);
        }
    }
    if args == seq![option, dashes, dir] {
        assert(args[0] == option && args[1] == dashes && args[2] == dir);
        assert(!scan::options_ended(args, 0) && !scan::options_ended(args, 1));
        assert(scan::options_ended(args, 2));
        assert(scan::is_opt_in(args, 0));
        assert(!scan::is_operand(args, 0) && !scan::is_refused(args, 0));
        assert(!scan::is_operand(args, 1) && !scan::is_refused(args, 1));
        assert(scan::is_operand(args, 2));
        assert(!scan::operand_before(args, 2));
        assert(!scan::is_refused(args, 2));
        assert(scan::accepted_before(args, n) && scan::opt_in_before(args, n)
            && scan::operand_before(args, n));
        if let Ok(Scan::Explicit(root)) = r {
            let i = choose|i: int|
                0 <= i < n && #[trigger] scan::is_operand(args, i) && args[i] == root@;
            assert(i == 2);
        }
    }
    if args.len() > 0 && (forall|i: int| 0 <= i < args.len() ==> #[trigger] args[i] == option) {
        assert forall|i: int| 0 <= i < n implies !scan::is_operand(args, i) && !scan::is_refused(
            args,
            i,
        ) && scan::is_opt_in(args, i) by {
            assert(args[i] == option);
            assert(!scan::options_ended(args, i));
        }
        assert(scan::is_opt_in(args, 0));
        assert(scan::accepted_before(args, n) && scan::opt_in_before(args, n)
            && !scan::operand_before(args, n));
    }
}

/// Two words that are no options cannot both be directories: there is one root
/// at most.
pub proof fn a_second_directory_is_refused(
    args: Seq<Seq<u8>>,
    r: Result<Scan, String>,
    a: int,
    b: int,
)
    requires
        scan::is_reading_of(args, r),
        0 <= a < b < args.len(),
        !(args[a].len() > 0 && args[a][0] == '-' as u8) || !is_early(args, a),
        !(args[b].len() > 0 && args[b][0] == '-' as u8) || !is_early(args, b),
    ensures
        r is Err,
{
    spelling::dashes();
    spelling::option();
    lemma_early(args, a);
    lemma_early(args, b);
    assert(scan::is_operand(args, a));
    assert(scan::is_operand(args, b));
    assert(scan::is_refused(args, b));
}

/// A single word that is no option is refused, with the hint at the option.
pub proof fn a_directory_needs_the_option(dir: Seq<u8>, r: Result<Scan, String>)
    requires
        scan::is_reading_of(seq![dir], r),
        !(dir.len() > 0 && dir[0] == '-' as u8),
    ensures
        r matches Err(message) && message@ == "a scan directory requires --include-untracked"@,
{
    spelling::dashes();
    spelling::option();
    let args = seq![dir];
    assert(args[0] == dir);
    assert(!scan::options_ended(args, 0));
    assert(scan::is_operand(args, 0));
    assert(!scan::operand_before(args, 0));
    assert(!scan::is_refused(args, 0));
    assert(scan::accepted_before(args, 1) && !scan::opt_in_before(args, 1)
        && scan::operand_before(args, 1));
}

/// A message about an argument names that argument.
pub proof fn a_refusal_names_the_argument(args: Seq<Seq<u8>>, message: String)
    requires
        scan::is_reading_of(args, Err(message)),
    ensures
        message@ == "a scan directory requires --include-untracked"@ || exists|i: int|
            0 <= i < args.len() && (message@ == "unknown option: "@ + text::shown(
                #[trigger] args[i],
            ) && args[i][0] == '-' as u8 || message@ == "unexpected argument: "@ + text::shown(
                args[i],
            )),
{
    let n = args.len() as int;
    if exists|i: int|
        0 <= i < n && #[trigger] scan::is_refused(args, i) && scan::accepted_before(args, i)
            && message@ == scan::refusal(args, i) {
        let i = choose|i: int|
            0 <= i < n && #[trigger] scan::is_refused(args, i) && scan::accepted_before(args, i)
                && message@ == scan::refusal(args, i);
        assert(message@ == "unknown option: "@ + text::shown(args[i]) && args[i][0] == '-' as u8
            || message@ == "unexpected argument: "@ + text::shown(args[i]));
    }
}

/// Argument `i` is ahead of any `--`, begins with a dash, and is neither the
/// `--` nor the option.
pub open spec fn is_stray(args: Seq<Seq<u8>>, i: int) -> bool {
    is_early(args, i) && args[i].len() > 0 && args[i][0] == '-' as u8 && args[i] != seq![45u8, 45u8]
        && args[i] != seq![45u8, 45u8, 105u8, 110u8, 99u8, 108u8, 117u8, 100u8, 101u8, 45u8, 117u8, 110u8, 116u8, 114u8, 97u8, 99u8, 107u8, 101u8, 100u8]
}

/// Argument `i` is a directory: it does not begin with a dash, or a `--` is
/// ahead of it.
pub open spec fn is_directory(args: Seq<Seq<u8>>, i: int) -> bool {
    !is_early(args, i) || !(args[i].len() > 0 && args[i][0] == '-' as u8)
}

/// Argument `i` is a stray option, or a directory behind another one.
pub open spec fn offends(args: Seq<Seq<u8>>, i: int) -> bool {
    is_stray(args, i) || is_directory(args, i) && exists|j: int|
        0 <= j < i && #[trigger] is_directory(args, j)
}

proof fn lemma_offends(args: Seq<Seq<u8>>, i: int)
    requires
        0 <= i < args.len(),
    ensures
        scan::is_operand(args, i) == is_directory(args, i),
        scan::is_unknown_option(args, i) == is_stray(args, i),
        scan::is_refused(args, i) == offends(args, i),
{
    spelling::dashes();
    spelling::option();
    assert forall|j: int| 0 <= j <= i implies #[trigger] scan::is_operand(args, j) == is_directory(
        args,
        j,
    ) by {
        lemma_early(args, j);
    }
    lemma_early(args, i);
    if scan::operand_before(args, i) {
        let j = choose|j: int| 0 <= j < i && #[trigger] scan::is_operand(args, j);
        assert(is_directory(args, j));
    }
    if exists|j: int| 0 <= j < i && #[trigger] is_directory(args, j) {
        let j = choose|j: int| 0 <= j < i && #[trigger] is_directory(args, j);
        assert(scan::is_operand(args, j));
    }
}

/// The first argument that offends is the one that the refusal names, as an
/// unknown option or as an unexpected argument.
pub proof fn the_first_offence_is_named(
    args: Seq<Seq<u8>>,
    r: Result<Scan, String>,
    i: int,
)
    requires
        scan::is_reading_of(args, r),
        0 <= i < args.len(),
        offends(args, i),
        forall|j: int| 0 <= j < i ==> !#[trigger] offends(args, j),
    ensures
        r matches Err(message) && message@ == if is_stray(args, i) {
            "unknown option: "@ + text::shown(args[i])
        } else {
            "unexpected argument: "@ + text::shown(args[i])
        },
{
    let n = args.len() as int;
    lemma_offends(args, i);
    assert(scan::is_refused(args, i));
    assert forall|j: int| 0 <= j < i implies !#[trigger] scan::is_refused(args, j) by {
        lemma_offends(args, j);
    }
    if let Err(message) = r {
        let k = choose|k: int|
            0 <= k < n && #[trigger] scan::is_refused(args, k) && scan::accepted_before(args, k)
                && message@ == scan::refusal(args, k);
        assert(k == i);
    }
}

/// Arguments none of which offends are accepted: no scan without the option and
/// without a directory, the usual places with the option alone, that directory
/// with both. A directory without the option is refused.
pub proof fn what_does_not_offend_is_accepted(
    args: Seq<Seq<u8>>,
    r: Result<Scan, String>,
    k: int,
)
    requires
        scan::is_reading_of(args, r),
        forall|j: int| 0 <= j < args.len() ==> !#[trigger] offends(args, j),
    ensures
        ({
            let on = exists|i: int|
                0 <= i < args.len() && #[trigger] args[i] == seq![45u8, 45u8, 105u8, 110u8, 99u8, 108u8, 117u8, 100u8, 101u8, 45u8, 117u8, 110u8, 116u8, 114u8, 97u8, 99u8, 107u8, 101u8, 100u8] && is_early(args, i);
            let placed = exists|i: int| 0 <= i < args.len() && #[trigger] is_directory(args, i);
            &&& !on && !placed ==> r == Ok::<Scan, String>(Scan::Off)
            &&& on && !placed ==> r == Ok::<Scan, String>(Scan::Defaults)
            &&& !on && placed ==> (r matches Err(message) && message@
                == "a scan directory requires --include-untracked"@)
            &&& on && 0 <= k < args.len() && is_directory(args, k) ==> (r matches Ok(
                Scan::Explicit(root),
            ) && root@ == args[k])
        }),
{
    spelling::option();
    let n = args.len() as int;
    assert forall|j: int| 0 <= j < n implies !#[trigger] scan::is_refused(args, j) by {
        lemma_offends(args, j);
    }
    assert forall|j: int|
        #![trigger scan::is_operand(args, j)]
        #![trigger is_directory(args, j)]
        0 <= j < n implies scan::is_operand(args, j) == is_directory(args, j) by {
        lemma_offends(args, j);
    }
    assert(scan::accepted_before(args, n));
    assert forall|j: int| 0 <= j < n implies #[trigger] scan::is_opt_in(args, j) == (args[j]
        == seq![45u8, 45u8, 105u8, 110u8, 99u8, 108u8, 117u8, 100u8, 101u8, 45u8, 117u8, 110u8, 116u8, 114u8, 97u8, 99u8, 107u8, 101u8, 100u8] && is_early(args, j)) by {
        lemma_early(args, j);
    }
    let on = exists|i: int|
        0 <= i < args.len() && #[trigger] args[i] == seq![45u8, 45u8, 105u8, 110u8, 99u8, 108u8, 117u8, 100u8, 101u8, 45u8, 117u8, 110u8, 116u8, 114u8, 97u8, 99u8, 107u8, 101u8, 100u8] && is_early(args, i);
    if on {
        let i = choose|i: int|
            0 <= i < args.len() && #[trigger] args[i] == seq![45u8, 45u8, 105u8, 110u8, 99u8, 108u8, 117u8, 100u8, 101u8, 45u8, 117u8, 110u8, 116u8, 114u8, 97u8, 99u8, 107u8, 101u8, 100u8] && is_early(args, i);
        assert(scan::is_opt_in(args, i));
    }
    assert(scan::opt_in_before(args, n) == on) by {
        if scan::opt_in_before(args, n) {
            let i = choose|i: int| 0 <= i < n && #[trigger] scan::is_opt_in(args, i);
            assert(args[i] == seq![45u8, 45u8, 105u8, 110u8, 99u8, 108u8, 117u8, 100u8, 101u8, 45u8, 117u8, 110u8, 116u8, 114u8, 97u8, 99u8, 107u8, 101u8, 100u8]);
        }
    }
    let placed = exists|i: int| 0 <= i < args.len() && #[trigger] is_directory(args, i);
    assert(scan::operand_before(args, n) == placed) by {
        if scan::operand_before(args, n) {
            let i = choose|i: int| 0 <= i < n && #[trigger] scan::is_operand(args, i);
            assert(is_directory(args, i));
        }
        if placed {
            let i = choose|i: int| 0 <= i < args.len() && #[trigger] is_directory(args, i);
            assert(scan::is_operand(args, i));
        }
    }
    if 0 <= k < n && is_directory(args, k) {
        assert(scan::is_operand(args, k));
        if let Ok(Scan::Explicit(root)) = r {
            let i = choose|i: int|
                0 <= i < n && #[trigger] scan::is_operand(args, i) && args[i] == root@;
            assert(is_directory(args, i));
            if i < k {
                assert(offends(args, k));
            }
            if k < i {
                assert(offends(args, i));
            }
        }
    }
}

/// One more candidate is one more root exactly where it is a directory, can be
/// read, and lies in no candidate of that kind ahead of it. The roots ahead of
/// it stay as they are.
pub proof fn a_new_place_is_a_new_root(candidates: Seq<Candidate>, more: Candidate)
    ensures
        ({
            let n = candidates.len() as int;
            let fresh = more.is_dir && more.readable && more.canonical is Some && forall|j: int|
                0 <= j < n && (#[trigger] candidates[j]).is_dir && candidates[j].readable
                    && candidates[j].canonical is Some ==> !path::lies_in(
                    more.canonical->0@,
                    candidates[j].canonical->0@,
                );
            let roots = scan::kept(candidates, n);
            let all = scan::kept(candidates.push(more), n + 1);
            &&& fresh ==> all == roots.push(more.canonical->0@)
            &&& !fresh ==> all == roots
        }),
{
    let n = candidates.len() as int;
    let whole = candidates.push(more);
    lemma_kept_ahead(candidates, more, n);
    assert(whole[n] == more);
    assert forall|j: int| 0 <= j < n implies whole[j] == #[trigger] candidates[j] by {}
    assert forall|j: int| 0 <= j < n implies #[trigger] scan::is_usable(whole, j) == (
    candidates[j].is_dir && candidates[j].readable && candidates[j].canonical is Some) by {
        assert(whole[j] == candidates[j]);
    }
    assert(scan::is_usable(whole, n) == (more.is_dir && more.readable && more.canonical is Some));
    let fresh = more.is_dir && more.readable && more.canonical is Some && forall|j: int|
        0 <= j < n && (#[trigger] candidates[j]).is_dir && candidates[j].readable
            && candidates[j].canonical is Some ==> !path::lies_in(
            more.canonical->0@,
            candidates[j].canonical->0@,
        );
    if scan::is_kept(whole, n) {
        assert forall|j: int|
            0 <= j < n && (#[trigger] candidates[j]).is_dir && candidates[j].readable
                && candidates[j].canonical is Some implies !path::lies_in(
            more.canonical->0@,
            candidates[j].canonical->0@,
        ) by {
            assert(scan::is_usable(whole, j));
        }
    }
    if fresh {
        assert forall|j: int| 0 <= j < n && #[trigger] scan::is_usable(whole, j) implies
            !path::lies_in(scan::place(whole, n), scan::place(whole, j)) by {
            assert(candidates[j].is_dir);
        }
    }
    assert(scan::is_kept(whole, n) == fresh);
}

proof fn lemma_kept_ahead(candidates: Seq<Candidate>, more: Candidate, n: int)
    requires
        n <= candidates.len(),
    ensures
        scan::kept(candidates.push(more), n) == scan::kept(candidates, n),
    decreases n,
{
    if n > 0 {
        let whole = candidates.push(more);
        lemma_kept_ahead(candidates, more, n - 1);
        assert forall|j: int| 0 <= j < n implies #[trigger] scan::is_usable(whole, j)
            == scan::is_usable(candidates, j) && scan::place(whole, j) == scan::place(
            candidates,
            j,
        ) by {
            assert(whole[j] == candidates[j]);
        }
        assert(scan::is_usable(whole, n - 1) == scan::is_usable(candidates, n - 1));
        if scan::is_kept(whole, n - 1) {
            assert forall|j: int|
                0 <= j < n - 1 && #[trigger] scan::is_usable(candidates, j) implies !path::lies_in(
                scan::place(candidates, n - 1),
                scan::place(candidates, j),
            ) by {
                assert(scan::is_usable(whole, j));
            }
        }
        assert(scan::is_kept(whole, n - 1) == scan::is_kept(candidates, n - 1));
    }
}

/// Every root is the canonical path of a candidate that is a directory and can
/// be read.
pub proof fn roots_are_readable_directories(candidates: Seq<Candidate>, k: int)
    requires
        0 <= k < scan::kept(candidates, candidates.len() as int).len(),
    ensures
        exists|i: int|
            0 <= i < candidates.len() && (#[trigger] candidates[i]).is_dir && candidates[i].readable
                && candidates[i].canonical is Some && candidates[i].canonical->Some_0@
                == scan::kept(candidates, candidates.len() as int)[k],
{
    lemma_root_source(candidates, candidates.len() as int, k);
}

proof fn lemma_root_source(candidates: Seq<Candidate>, n: int, k: int)
    requires
        0 <= n <= candidates.len(),
        0 <= k < scan::kept(candidates, n).len(),
    ensures
        exists|i: int|
            0 <= i < n && (#[trigger] candidates[i]).is_dir && candidates[i].readable
                && candidates[i].canonical is Some && candidates[i].canonical->Some_0@
                == scan::kept(candidates, n)[k],
    decreases n,
{
    if n > 0 {
        let before = scan::kept(candidates, n - 1);
        if k < before.len() {
            lemma_root_source(candidates, n - 1, k);
            assert(scan::kept(candidates, n)[k] == before[k]);
        } else {
            assert(candidates[n - 1].canonical->Some_0@ == scan::kept(candidates, n)[k]);
        }
    }
}

/// Every candidate that is a directory and can be read lies in a root.
pub proof fn a_readable_directory_is_covered(candidates: Seq<Candidate>, i: int)
    requires
        0 <= i < candidates.len(),
        candidates[i].is_dir,
        candidates[i].readable,
        candidates[i].canonical is Some,
    ensures
        exists|k: int|
            0 <= k < scan::kept(candidates, candidates.len() as int).len() && path::lies_in(
                candidates[i].canonical->Some_0@,
                #[trigger] scan::kept(candidates, candidates.len() as int)[k],
            ),
{
    assert(scan::is_usable(candidates, i));
    scan::usable_roots_cover_every_candidate(candidates, i);
}

/// A scan without a named directory looks at the home directory, where there
/// is one, at `/tmp` and at the temp directory of the process, in this order.
pub proof fn the_usual_places_are_home_and_temp(home: &str, temp_dir: Seq<u8>)
    ensures
        home@.len() > 0 ==> scan::usual_places(Some(home), temp_dir) == seq![
            encode_utf8(home@),
            seq![47u8, 116u8, 109u8, 112u8],
            temp_dir,
        ],
        home@.len() == 0 ==> scan::usual_places(Some(home), temp_dir) == seq![
            seq![47u8, 116u8, 109u8, 112u8],
            temp_dir,
        ],
        scan::usual_places(None, temp_dir) == seq![seq![47u8, 116u8, 109u8, 112u8], temp_dir],
{
    spelling::tmp();
    assert(scan::usual_places(Some(home), temp_dir) =~= if home@.len() > 0 {
        seq![encode_utf8(home@), seq![47u8, 116u8, 109u8, 112u8], temp_dir]
    } else {
        seq![seq![47u8, 116u8, 109u8, 112u8], temp_dir]
    });
    assert(scan::usual_places(None, temp_dir) =~= seq![seq![47u8, 116u8, 109u8, 112u8], temp_dir]);
}

/// Without the option no directory is scanned, with a directory that one alone,
/// and otherwise what is usable of the usual places.
pub proof fn the_roots_follow_the_request(root: Vec<u8>, usual: Seq<Candidate>)
    ensures
        Scan::Off.covered(usual).len() == 0,
        Scan::Explicit(root).covered(usual) == seq![root@],
        Scan::Defaults.covered(usual) == scan::kept(usual, usual.len() as int),
{
}

/// Two things are on one filesystem where their devices are the same. What
/// cannot be examined counts as foreign; without a device of the root nothing
/// does.
pub proof fn devices_tell_filesystems_apart(root: u64, entry: u64, any: Option<u64>)
    ensures
        scan::on_same_filesystem(Some(root), Some(entry)) == (root == entry),
        !scan::on_same_filesystem(Some(root), None),
        scan::on_same_filesystem(None, any),
{
}

/// Roots are shown in their order with a comma and a blank between two; without
/// a root that is said.
pub proof fn roots_are_shown_in_order(roots: Seq<Seq<u8>>, root: Seq<u8>)
    ensures
        scan::roots_shown(Seq::empty()) == "nothing (no readable scan root)"@,
        scan::roots_shown(seq![root]) == text::shown(root),
        roots.len() > 0 ==> scan::roots_shown(roots.push(root)) == scan::roots_shown(roots)
            + seq![',', ' '] + text::shown(root),
{
    reveal_strlit(", ");
    reveal_strlit("");
    assert(", "@ =~= seq![',', ' ']);
    let one = seq![root];
    let shown_one = Seq::new(one.len(), |i: int| text::shown(one[i]));
    assert(shown_one =~= seq![text::shown(root)]);
    text_laws::joining_puts_separators_between(shown_one, text::shown(root), ", "@);
    let shown = Seq::new(roots.len(), |i: int| text::shown(roots[i]));
    let more = roots.push(root);
    let shown_more = Seq::new(more.len(), |i: int| text::shown(more[i]));
    assert(shown_more =~= shown.push(text::shown(root)));
    text_laws::joining_puts_separators_between(shown, text::shown(root), ", "@);
}

} // verus!
