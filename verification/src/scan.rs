//! Finding cargo targets on disk: the `--include-untracked` flag shared by
//! `purge` and `ls`, the roots that a scan covers, and what vouches for a
//! `target/` directory.

use vstd::prelude::*;
use vstd::string::*;
use vstd::utf8::*;

use crate::path;
use crate::path::starts_with;
use crate::text;
use crate::text::{begins_with, copy_bytes, is_text, is_utf8, same_bytes, show};

verus! {

/// What `--include-untracked` asked for.
#[derive(Debug, PartialEq)]
pub enum Scan {
    Off,
    /// A directory the user named. A bad path is a hard error: they meant
    /// that one.
    Explicit(Vec<u8>),
    /// No directory given: search the usual places.
    Defaults,
}

/// The first byte of an option.
pub const DASH: u8 = 0x2d;

/// An earlier argument is `--`, so what follows is no option.
pub open spec fn options_ended(args: Seq<Seq<u8>>, i: int) -> bool {
    exists|j: int| 0 <= j < i && #[trigger] args[j] == encode_utf8("--"@)
}

/// Argument `i` opts in to scanning.
pub open spec fn is_opt_in(args: Seq<Seq<u8>>, i: int) -> bool {
    !options_ended(args, i) && args[i] == encode_utf8("--include-untracked"@)
}

/// Argument `i` looks like an option that nobody knows.
pub open spec fn is_unknown_option(args: Seq<Seq<u8>>, i: int) -> bool {
    &&& !options_ended(args, i)
    &&& args[i].len() > 0 && args[i][0] == DASH
    &&& args[i] != encode_utf8("--"@)
    &&& args[i] != encode_utf8("--include-untracked"@)
}

/// Argument `i` names a directory.
pub open spec fn is_operand(args: Seq<Seq<u8>>, i: int) -> bool {
    options_ended(args, i) || (args[i] != encode_utf8("--"@) && !is_opt_in(args, i)
        && !is_unknown_option(args, i))
}

/// Some argument ahead of `i` names a directory.
pub open spec fn operand_before(args: Seq<Seq<u8>>, i: int) -> bool {
    exists|j: int| 0 <= j < i && #[trigger] is_operand(args, j)
}

/// Some argument ahead of `i` opts in to scanning.
pub open spec fn opt_in_before(args: Seq<Seq<u8>>, i: int) -> bool {
    exists|j: int| 0 <= j < i && #[trigger] is_opt_in(args, j)
}

/// Argument `i` cannot be accepted: an unknown option or a second directory.
pub open spec fn is_refused(args: Seq<Seq<u8>>, i: int) -> bool {
    is_unknown_option(args, i) || (is_operand(args, i) && operand_before(args, i))
}

/// No argument ahead of `i` is refused.
pub open spec fn accepted_before(args: Seq<Seq<u8>>, i: int) -> bool {
    forall|j: int| 0 <= j < i ==> !#[trigger] is_refused(args, j)
}

/// What is said of a refused argument.
pub open spec fn refusal(args: Seq<Seq<u8>>, i: int) -> Seq<char> {
    if is_unknown_option(args, i) {
        "unknown option: "@ + text::shown(args[i])
    } else {
        "unexpected argument: "@ + text::shown(args[i])
    }
}

/// How a list of arguments is read. The first refused argument decides; a
/// directory counts only together with the opt-in.
pub open spec fn is_reading_of(args: Seq<Seq<u8>>, r: Result<Scan, String>) -> bool {
    let n = args.len() as int;
    match r {
        Ok(Scan::Off) => accepted_before(args, n) && !opt_in_before(args, n) && !operand_before(
            args,
            n,
        ),
        Ok(Scan::Defaults) => accepted_before(args, n) && opt_in_before(args, n)
            && !operand_before(args, n),
        Ok(Scan::Explicit(root)) => accepted_before(args, n) && opt_in_before(args, n) && exists|
            i: int,
        |
            0 <= i < n && #[trigger] is_operand(args, i) && args[i] == root@,
        Err(message) => {
            ||| exists|i: int|
                0 <= i < n && #[trigger] is_refused(args, i) && accepted_before(args, i)
                    && message@ == refusal(args, i)
            ||| accepted_before(args, n) && !opt_in_before(args, n) && operand_before(args, n)
                && message@ == "a scan directory requires --include-untracked"@
        },
    }
}

/// Two readings that say the same.
pub open spec fn same_reading(one: Result<Scan, String>, other: Result<Scan, String>) -> bool {
    match (one, other) {
        (Ok(Scan::Off), Ok(Scan::Off)) => true,
        (Ok(Scan::Defaults), Ok(Scan::Defaults)) => true,
        (Ok(Scan::Explicit(a)), Ok(Scan::Explicit(b))) => a@ == b@,
        (Err(a), Err(b)) => a@ == b@,
        _ => false,
    }
}

/// Arguments have one reading only.
pub proof fn arguments_have_one_reading(
    args: Seq<Seq<u8>>,
    one: Result<Scan, String>,
    other: Result<Scan, String>,
)
    requires
        is_reading_of(args, one),
        is_reading_of(args, other),
    ensures
        same_reading(one, other),
{
    let n = args.len() as int;
    match (one, other) {
        (Ok(Scan::Explicit(a)), Ok(Scan::Explicit(b))) => {
            let i = choose|i: int| 0 <= i < n && #[trigger] is_operand(args, i) && args[i] == a@;
            let j = choose|j: int| 0 <= j < n && #[trigger] is_operand(args, j) && args[j] == b@;
            if i < j {
                assert(is_refused(args, j));
            }
            if j < i {
                assert(is_refused(args, i));
            }
        },
        (Err(a), Err(b)) => {
            if accepted_before(args, n) {
                assert(a@ == b@);
            } else {
                let i = choose|i: int|
                    0 <= i < n && #[trigger] is_refused(args, i) && accepted_before(args, i)
                        && a@ == refusal(args, i);
                let j = choose|j: int|
                    0 <= j < n && #[trigger] is_refused(args, j) && accepted_before(args, j)
                        && b@ == refusal(args, j);
                assert(i == j);
            }
        },
        _ => {},
    }
}

/// Parses `[--include-untracked [dir]]`, shared so that `ls` and `purge`
/// accept, and reject, exactly the same words.
pub fn parse_args(args: &[Vec<u8>]) -> (r: Result<Scan, String>)
    ensures
        is_reading_of(text::contents(args@), r),
{
    let ghost all = text::contents(args@);
    let mut include_untracked = false;
    let mut root: Option<Vec<u8>> = None;
    let mut options = true;
    let mut i: usize = 0;
    while i < args.len()
        invariant
            i <= args@.len(),
            all == text::contents(args@),
            options == !options_ended(all, i as int),
            include_untracked == opt_in_before(all, i as int),
            root is Some == operand_before(all, i as int),
            root matches Some(dir) ==> exists|j: int|
                0 <= j < i && #[trigger] is_operand(all, j) && all[j] == dir@,
            accepted_before(all, i as int),
        decreases args@.len() - i,
    {
        let arg = &args[i];
        assert(arg@ == all[i as int]);
        let ghost here = i as int;
        if options && is_text(arg.as_slice(), "--") {
            options = false;
            assert(!is_operand(all, here) && !is_opt_in(all, here)) by {
                lemma_terminator_is_no_opt_in();
            }
        } else if options && is_text(arg.as_slice(), "--include-untracked") {
            include_untracked = true;
            assert(is_opt_in(all, here));
        } else if options && begins_with(arg.as_slice(), DASH) {
            let mut message = "unknown option: ".to_owned();
            message.append(show(arg.as_slice()).as_str());
            assert(is_refused(all, here));
            return Err(message);
        } else if root.is_some() {
            let mut message = "unexpected argument: ".to_owned();
            message.append(show(arg.as_slice()).as_str());
            assert(is_refused(all, here));
            return Err(message);
        } else {
            root = Some(copy_bytes(arg.as_slice()));
            assert(is_operand(all, here) && all[here] == root->0@);
        }
        proof {
            assert(options_ended(all, here + 1) == (options_ended(all, here) || all[here]
                == encode_utf8("--"@)));
            assert(opt_in_before(all, here + 1) == (opt_in_before(all, here) || is_opt_in(
                all,
                here,
            )));
            assert(operand_before(all, here + 1) == (operand_before(all, here) || is_operand(
                all,
                here,
            )));
        }
        i = i + 1;
    }
    match root {
        Some(dir) => if include_untracked {
            Ok(Scan::Explicit(dir))
        } else {
            Err("a scan directory requires --include-untracked".to_owned())
        },
        None => if include_untracked {
            Ok(Scan::Defaults)
        } else {
            Ok(Scan::Off)
        },
    }
}

proof fn lemma_terminator_is_no_opt_in()
    ensures
        encode_utf8("--"@) != encode_utf8("--include-untracked"@),
{
    reveal_strlit("--");
    reveal_strlit("--include-untracked");
    is_ascii_chars_encode_utf8("--"@);
    is_ascii_chars_encode_utf8("--include-untracked"@);
}

/// A directory that a scan may start at, as the disk knows it.
pub struct Candidate {
    /// The canonical path, where the directory can be reached.
    pub canonical: Option<Vec<u8>>,
    pub is_dir: bool,
    /// The directory can be listed.
    pub readable: bool,
}

/// A candidate that can be walked: a readable directory.
pub open spec fn is_usable(candidates: Seq<Candidate>, i: int) -> bool {
    candidates[i].canonical is Some && candidates[i].is_dir && candidates[i].readable
}

/// The canonical path of a usable candidate.
pub open spec fn place(candidates: Seq<Candidate>, i: int) -> Seq<u8> {
    candidates[i].canonical->0@
}

/// A usable candidate that no earlier one contains.
pub open spec fn is_kept(candidates: Seq<Candidate>, i: int) -> bool {
    is_usable(candidates, i) && forall|j: int|
        0 <= j < i && #[trigger] is_usable(candidates, j) ==> !path::lies_in(
            place(candidates, i),
            place(candidates, j),
        )
}

/// The kept ones among the first `n` candidates, in their order.
pub open spec fn kept(candidates: Seq<Candidate>, n: int) -> Seq<Seq<u8>>
    decreases n,
{
    if n <= 0 {
        Seq::empty()
    } else if is_kept(candidates, n - 1) {
        kept(candidates, n - 1).push(place(candidates, n - 1))
    } else {
        kept(candidates, n - 1)
    }
}

/// Every usable candidate lies in a root that is kept.
pub proof fn usable_roots_cover_every_candidate(candidates: Seq<Candidate>, i: int)
    requires
        0 <= i < candidates.len(),
        is_usable(candidates, i),
    ensures
        exists|k: int|
            0 <= k < kept(candidates, candidates.len() as int).len() && path::lies_in(
                place(candidates, i),
                #[trigger] kept(candidates, candidates.len() as int)[k],
            ),
{
    lemma_covered(candidates, candidates.len() as int, i);
}

/// No kept root lies in one that is kept ahead of it.
pub proof fn usable_roots_are_not_nested(candidates: Seq<Candidate>, a: int, b: int)
    requires
        0 <= a < b < kept(candidates, candidates.len() as int).len(),
    ensures
        !path::lies_in(
            kept(candidates, candidates.len() as int)[b],
            kept(candidates, candidates.len() as int)[a],
        ),
{
    let n = candidates.len() as int;
    lemma_kept_index(candidates, n, a);
    lemma_kept_index(candidates, n, b);
    lemma_kept_order(candidates, n, a, b);
}

/// The candidate that stands at place `k` of the kept ones.
spec fn source(candidates: Seq<Candidate>, n: int, k: int) -> int
    decreases n,
{
    if n <= 0 {
        0
    } else if is_kept(candidates, n - 1) && k == kept(candidates, n - 1).len() {
        n - 1
    } else {
        source(candidates, n - 1, k)
    }
}

proof fn lemma_kept_index(candidates: Seq<Candidate>, n: int, k: int)
    requires
        0 <= n <= candidates.len(),
        0 <= k < kept(candidates, n).len(),
    ensures
        0 <= source(candidates, n, k) < n,
        is_kept(candidates, source(candidates, n, k)),
        place(candidates, source(candidates, n, k)) == kept(candidates, n)[k],
    decreases n,
{
    if n > 0 && k < kept(candidates, n - 1).len() {
        lemma_kept_index(candidates, n - 1, k);
    }
}

proof fn lemma_kept_order(candidates: Seq<Candidate>, n: int, a: int, b: int)
    requires
        0 <= n <= candidates.len(),
        0 <= a < b < kept(candidates, n).len(),
    ensures
        source(candidates, n, a) < source(candidates, n, b),
    decreases n,
{
    lemma_kept_index(candidates, n - 1, a);
    if b < kept(candidates, n - 1).len() {
        lemma_kept_order(candidates, n - 1, a, b);
    }
}

proof fn lemma_covered(candidates: Seq<Candidate>, n: int, i: int)
    requires
        0 <= i < n <= candidates.len(),
        is_usable(candidates, i),
    ensures
        exists|k: int|
            0 <= k < kept(candidates, n).len() && path::lies_in(
                place(candidates, i),
                #[trigger] kept(candidates, n)[k],
            ),
    decreases n, i,
{
    if is_kept(candidates, i) {
        lemma_kept_is_present(candidates, n, i);
        let k = choose|k: int|
            0 <= k < kept(candidates, n).len() && #[trigger] kept(candidates, n)[k] == place(
                candidates,
                i,
            );
        let c = path::components(place(candidates, i));
        assert(c.subrange(0, c.len() as int) =~= c);
        assert(path::lies_in(place(candidates, i), kept(candidates, n)[k]));
    } else {
        let j = choose|j: int|
            0 <= j < i && #[trigger] is_usable(candidates, j) && path::lies_in(
                place(candidates, i),
                place(candidates, j),
            );
        lemma_covered(candidates, n, j);
        let k = choose|k: int|
            0 <= k < kept(candidates, n).len() && path::lies_in(
                place(candidates, j),
                #[trigger] kept(candidates, n)[k],
            );
        path::lemma_lies_in_is_transitive(
            place(candidates, i),
            place(candidates, j),
            kept(candidates, n)[k],
        );
        assert(path::lies_in(place(candidates, i), kept(candidates, n)[k]));
    }
}

proof fn lemma_kept_is_present(candidates: Seq<Candidate>, n: int, i: int)
    requires
        0 <= i < n <= candidates.len(),
        is_kept(candidates, i),
    ensures
        exists|k: int|
            0 <= k < kept(candidates, n).len() && #[trigger] kept(candidates, n)[k] == place(
                candidates,
                i,
            ),
    decreases n,
{
    if i == n - 1 {
        assert(kept(candidates, n)[kept(candidates, n - 1).len() as int] == place(candidates, i));
    } else {
        lemma_kept_is_present(candidates, n - 1, i);
        let k = choose|k: int|
            0 <= k < kept(candidates, n - 1).len() && #[trigger] kept(candidates, n - 1)[k]
                == place(candidates, i);
        assert(kept(candidates, n)[k] == place(candidates, i));
    }
}

/// Drops what is not a readable directory, and any root already contained in
/// an earlier one, so that an overlapping pair is walked once.
pub fn usable_roots(candidates: &Vec<Candidate>) -> (r: Vec<Vec<u8>>)
    ensures
        text::contents(r@) == kept(candidates@, candidates@.len() as int),
{
    let mut roots: Vec<Vec<u8>> = Vec::new();
    assert(text::contents(roots@) =~= kept(candidates@, 0));
    let mut i: usize = 0;
    while i < candidates.len()
        invariant
            i <= candidates@.len(),
            text::contents(roots@) == kept(candidates@, i as int),
        decreases candidates@.len() - i,
    {
        let ghost here = i as int;
        if let Some(canonical) = &candidates[i].canonical {
            if candidates[i].is_dir && candidates[i].readable {
                let mut inside = false;
                let mut k: usize = 0;
                while k < roots.len()
                    invariant
                        k <= roots@.len(),
                        inside == exists|m: int|
                            0 <= m < k && path::lies_in(
                                canonical@,
                                #[trigger] text::contents(roots@)[m],
                            ),
                    decreases roots@.len() - k,
                {
                    if starts_with(canonical.as_slice(), roots[k].as_slice()) {
                        assert(path::lies_in(canonical@, text::contents(roots@)[k as int]));
                        inside = true;
                    }
                    k = k + 1;
                }
                proof {
                    if inside {
                        let m = choose|m: int|
                            0 <= m < k && path::lies_in(
                                canonical@,
                                #[trigger] text::contents(roots@)[m],
                            );
                        lemma_kept_index(candidates@, here, m);
                        assert(is_usable(candidates@, source(candidates@, here, m)));
                        assert(!is_kept(candidates@, here));
                    } else {
                        assert forall|j: int|
                            0 <= j < here && #[trigger] is_usable(
                                candidates@,
                                j,
                            ) implies !path::lies_in(
                            place(candidates@, here),
                            place(candidates@, j),
                        ) by {
                            if path::lies_in(place(candidates@, here), place(candidates@, j)) {
                                lemma_covered(candidates@, here, j);
                                let m = choose|m: int|
                                    0 <= m < kept(candidates@, here).len() && path::lies_in(
                                        place(candidates@, j),
                                        #[trigger] kept(candidates@, here)[m],
                                    );
                                path::lemma_lies_in_is_transitive(
                                    place(candidates@, here),
                                    place(candidates@, j),
                                    kept(candidates@, here)[m],
                                );
                                assert(path::lies_in(
                                    canonical@,
                                    text::contents(roots@)[m],
                                ));
                            }
                        }
                        assert(is_kept(candidates@, here));
                    }
                }
                if !inside {
                    let ghost before = roots@;
                    roots.push(copy_bytes(canonical.as_slice()));
                    assert(text::contents(roots@) =~= text::contents(before).push(canonical@));
                }
            }
        }
        i = i + 1;
    }
    roots
}

/// Where cargo targets pile up when nobody names a directory: home, and the
/// temp directories, where agent tooling keeps git worktrees.
pub open spec fn usual_places(home: Option<&str>, temp_dir: Seq<u8>) -> Seq<Seq<u8>> {
    (if home matches Some(dir) && dir@.len() > 0 {
        seq![encode_utf8(home->0@)]
    } else {
        Seq::empty()
    }) + seq![encode_utf8("/tmp"@), temp_dir]
}

/// Lists the directories that a scan without a named directory looks at,
/// given the value of `HOME` and the temp directory of the process.
pub fn default_candidates(home: Option<&str>, temp_dir: &[u8]) -> (r: Vec<Vec<u8>>)
    ensures
        text::contents(r@) == usual_places(home, temp_dir@),
{
    let mut r: Vec<Vec<u8>> = Vec::new();
    if let Some(dir) = home {
        if !dir.is_empty() {
            r.push(dir.as_bytes_vec());
        }
    }
    r.push("/tmp".as_bytes_vec());
    r.push(copy_bytes(temp_dir));
    assert(text::contents(r@) =~= usual_places(home, temp_dir@));
    r
}

impl Scan {
    pub fn is_on(&self) -> (r: bool)
        ensures
            r == !(self is Off),
    {
        match self {
            Scan::Off => false,
            _ => true,
        }
    }

    /// The directories that are walked, where the usual places turned out to
    /// be `usual` on this disk.
    pub open spec fn covered(self, usual: Seq<Candidate>) -> Seq<Seq<u8>> {
        match self {
            Scan::Off => Seq::empty(),
            Scan::Explicit(root) => seq![root@],
            Scan::Defaults => kept(usual, usual.len() as int),
        }
    }

    /// Picks the directories to walk. `usual` says what became of the usual
    /// places; it counts only where no directory was named.
    pub fn roots(&self, usual: &Vec<Candidate>) -> (r: Vec<Vec<u8>>)
        ensures
            text::contents(r@) == self.covered(usual@),
    {
        let r = match self {
            Scan::Off => Vec::new(),
            Scan::Explicit(root) => {
                let mut r: Vec<Vec<u8>> = Vec::new();
                r.push(copy_bytes(root.as_slice()));
                r
            },
            Scan::Defaults => usable_roots(usual),
        };
        assert(text::contents(r@) =~= self.covered(usual@));
        r
    }
}

/// The roots as they are shown, with commas between them.
pub open spec fn roots_shown(roots: Seq<Seq<u8>>) -> Seq<char> {
    if roots.len() == 0 {
        "nothing (no readable scan root)"@
    } else {
        text::joined(Seq::new(roots.len(), |i: int| text::shown(roots[i])), ", "@)
    }
}

/// Names the directories being walked, so that a scan that reports nothing
/// says where it looked.
pub fn describe_roots(roots: &[Vec<u8>]) -> (r: String)
    ensures
        r@ == roots_shown(text::contents(roots@)),
{
    if roots.len() == 0 {
        return "nothing (no readable scan root)".to_owned();
    }
    let ghost parts = Seq::new(
        roots@.len(),
        |i: int| text::shown(text::contents(roots@)[i]),
    );
    let mut r = "".to_owned();
    let mut i: usize = 0;
    assert(parts.take(0) =~= Seq::empty());
    while i < roots.len()
        invariant
            i <= roots@.len(),
            parts.len() == roots@.len(),
            forall|j: int| 0 <= j < parts.len() ==> #[trigger] parts[j] == text::shown(roots@[j]@),
            r@ == text::joined(parts.take(i as int), ", "@),
        decreases roots@.len() - i,
    {
        let ghost upto = parts.take(i + 1);
        assert(upto.drop_last() =~= parts.take(i as int));
        assert(upto.last() == parts[i as int]);
        if i == 0 {
            r.append("");
        } else {
            r.append(", ");
        }
        r.append(show(roots[i].as_slice()).as_str());
        i = i + 1;
    }
    assert(parts.take(i as int) =~= Seq::new(
        text::contents(roots@).len(),
        |i: int| text::shown(text::contents(roots@)[i]),
    ));
    r
}

/// Whether an entry sits on the same filesystem as the scan root. An entry
/// that cannot be examined counts as foreign: a failing request is usually the
/// unresponsive network mount the test exists to stay out of. Where the root
/// itself could not be examined there is nothing to compare with, and nothing
/// is pruned.
pub open spec fn on_same_filesystem(root_dev: Option<u64>, entry_dev: Option<u64>) -> bool {
    root_dev is None || root_dev == entry_dev
}

pub fn same_filesystem(root_dev: Option<u64>, entry_dev: Option<u64>) -> (r: bool)
    ensures
        r == on_same_filesystem(root_dev, entry_dev),
{
    match (root_dev, entry_dev) {
        (Some(root), Some(entry)) => root == entry,
        (None, _) => true,
        (Some(_), None) => false,
    }
}

/// What was found inside a directory that may be a cargo target.
pub struct Evidence {
    /// The bytes of `CACHEDIR.TAG`, where it can be read.
    pub tag: Option<Vec<u8>>,
    /// `.rustc_info.json` is a file.
    pub rustc_info: bool,
    /// There is a compiled profile.
    pub profile: bool,
}

/// `needle` occurs in `hay`.
pub open spec fn occurs_in(needle: Seq<u8>, hay: Seq<u8>) -> bool {
    exists|i: int|
        0 <= i <= hay.len() - needle.len() && #[trigger] hay.subrange(i, i + needle.len())
            == needle
}

impl Evidence {
    /// Cargo wrote this directory: its cache-directory tag, its rustc probe
    /// cache, or a compiled profile is there.
    pub open spec fn vouches(self) -> bool {
        ||| self.tag matches Some(tag) && valid_utf8(tag@) && occurs_in(
            encode_utf8("cargo"@),
            tag@,
        )
        ||| self.rustc_info
        ||| self.profile
    }
}

fn contains(hay: &[u8], needle: &[u8]) -> (r: bool)
    ensures
        r == occurs_in(needle@, hay@),
{
    let n = hay.len();
    if n < needle.len() {
        return false;
    }
    let last = n - needle.len();
    let mut i: usize = 0;
    loop
        invariant
            i <= last,
            last + needle@.len() == hay@.len() == n,
            forall|k: int|
                0 <= k < i ==> #[trigger] hay@.subrange(k, k + needle@.len()) != needle@,
        decreases last - i,
    {
        let part = vstd::slice::slice_subrange(hay, i, i + needle.len());
        if same_bytes(part, needle) {
            assert(hay@.subrange(i as int, i + needle@.len()) == needle@);
            return true;
        }
        if i == last {
            return false;
        }
        i = i + 1;
    }
}

/// Proof that cargo wrote a directory.
pub fn is_cargo_target(found: &Evidence) -> (r: bool)
    ensures
        r == found.vouches(),
{
    if let Some(tag) = &found.tag {
        if is_utf8(tag.as_slice()) && contains(tag.as_slice(), "cargo".as_bytes()) {
            return true;
        }
    }
    found.rustc_info || found.profile
}

} // verus!
