//! Unix paths as byte strings.
//!
//! Two paths are the same where their components are: repeated separators, a
//! trailing separator and `.` inside a path make no difference.

use vstd::prelude::*;
use vstd::utf8::*;

use crate::text::{begins_with, copy_bytes, is_text, same_bytes};
use crate::text;

verus! {

/// The separator of path components.
pub const SEPARATOR: u8 = 0x2f;

/// What stands between the separators of a path, empty pieces included.
pub open spec fn pieces(p: Seq<u8>) -> Seq<Seq<u8>>
    decreases p.len(),
{
    if p.len() == 0 {
        seq![Seq::empty()]
    } else {
        let before = pieces(p.drop_last());
        if p.last() == SEPARATOR {
            before.push(Seq::empty())
        } else {
            before.drop_last().push(before.last().push(p.last()))
        }
    }
}

/// The name of the current directory.
pub open spec fn is_dot(piece: Seq<u8>) -> bool {
    piece == encode_utf8("."@)
}

/// The name of the parent directory.
pub open spec fn is_dot_dot(piece: Seq<u8>) -> bool {
    piece == encode_utf8(".."@)
}

/// A piece that names a step of the path.
pub open spec fn is_step(piece: Seq<u8>) -> bool {
    piece.len() > 0 && !is_dot(piece)
}

/// What a path begins with, ahead of its steps: the root, a leading `.`, or
/// nothing.
pub open spec fn anchor(p: Seq<u8>) -> Seq<Seq<u8>> {
    if p.len() > 0 && p[0] == SEPARATOR {
        seq![seq![SEPARATOR]]
    } else if is_dot(pieces(p)[0]) {
        seq![pieces(p)[0]]
    } else {
        Seq::empty()
    }
}

/// The components of a path. The root counts as a component of its own.
pub open spec fn components(p: Seq<u8>) -> Seq<Seq<u8>> {
    anchor(p) + pieces(p).filter(|piece: Seq<u8>| is_step(piece))
}

/// Two spellings of one path.
pub open spec fn same_path(a: Seq<u8>, b: Seq<u8>) -> bool {
    components(a) == components(b)
}

/// `p` is `base` or lies below it.
pub open spec fn lies_in(p: Seq<u8>, base: Seq<u8>) -> bool {
    components(base).is_prefix_of(components(p))
}

/// The last component of a path, where it is a name.
pub open spec fn file_name(p: Seq<u8>) -> Option<Seq<u8>> {
    let c = components(p);
    if c.len() == 0 || c.last() == seq![SEPARATOR] || is_dot(c.last()) || is_dot_dot(c.last()) {
        None
    } else {
        Some(c.last())
    }
}

/// `name` taken relative to `dir`.
pub open spec fn join(dir: Seq<u8>, name: Seq<u8>) -> Seq<u8> {
    if name.len() > 0 && name[0] == SEPARATOR {
        name
    } else if dir.len() == 0 || dir.last() == SEPARATOR {
        dir + name
    } else {
        dir.push(SEPARATOR) + name
    }
}

/// What lies in a directory lies in all that the directory lies in.
pub proof fn lemma_lies_in_is_transitive(p: Seq<u8>, mid: Seq<u8>, base: Seq<u8>)
    requires
        lies_in(p, mid),
        lies_in(mid, base),
    ensures
        lies_in(p, base),
{
    let (cp, cm, cb) = (components(p), components(mid), components(base));
    assert(cm =~= cp.subrange(0, cm.len() as int));
    assert(cb =~= cm.subrange(0, cb.len() as int));
    assert(cb =~= cp.subrange(0, cb.len() as int));
}

/// A name that is one step of a path.
pub open spec fn is_plain(name: Seq<u8>) -> bool {
    is_step(name) && forall|i: int| 0 <= i < name.len() ==> #[trigger] name[i] != SEPARATOR
}

proof fn lemma_pieces_without_separator(name: Seq<u8>)
    requires
        forall|i: int| 0 <= i < name.len() ==> #[trigger] name[i] != SEPARATOR,
    ensures
        pieces(name) == seq![name],
    decreases name.len(),
{
    if name.len() > 0 {
        let front = name.drop_last();
        assert(forall|i: int| 0 <= i < front.len() ==> #[trigger] front[i] == name[i]);
        lemma_pieces_without_separator(front);
        assert(name[name.len() - 1] != SEPARATOR);
        assert(front.push(name.last()) =~= name);
        assert(pieces(name) =~= seq![name]);
    } else {
        assert(name =~= Seq::empty());
    }
}

proof fn lemma_pieces_nonempty(p: Seq<u8>)
    ensures
        pieces(p).len() > 0,
    decreases p.len(),
{
    if p.len() > 0 {
        lemma_pieces_nonempty(p.drop_last());
    }
}

proof fn lemma_pieces_around_separator(a: Seq<u8>, b: Seq<u8>)
    ensures
        pieces(a.push(SEPARATOR) + b) == pieces(a) + pieces(b),
    decreases b.len(),
{
    let whole = a.push(SEPARATOR) + b;
    lemma_pieces_nonempty(a);
    if b.len() == 0 {
        assert(whole.drop_last() =~= a);
        assert(pieces(whole) =~= pieces(a) + pieces(b));
    } else {
        lemma_pieces_around_separator(a, b.drop_last());
        lemma_pieces_nonempty(b.drop_last());
        assert(whole.drop_last() =~= a.push(SEPARATOR) + b.drop_last());
        assert(whole.last() == b.last());
        assert(pieces(whole) =~= pieces(a) + pieces(b));
    }
}

/// Taking a name relative to a directory adds one component: the name.
pub proof fn a_joined_name_is_one_more_component(dir: Seq<u8>, name: Seq<u8>)
    requires
        is_plain(name),
    ensures
        components(join(dir, name)) == components(dir).push(name),
{
    let pred = |piece: Seq<u8>| is_step(piece);
    let p = join(dir, name);
    let none: Seq<Seq<u8>> = seq![Seq::empty()];
    lemma_pieces_without_separator(name);
    lemma_pieces_nonempty(dir);
    reveal(Seq::filter);
    assert(seq![name].drop_last() =~= Seq::empty());
    assert(seq![name].filter(pred) =~= seq![name]);
    assert(none.drop_last() =~= Seq::empty());
    assert(none.filter(pred) =~= Seq::empty());
    if dir.len() == 0 {
        assert(p =~= name);
        assert(dir =~= Seq::empty());
        assert(!is_dot(Seq::<u8>::empty())) by {
            reveal_strlit(".");
            is_ascii_chars_encode_utf8("."@);
        }
        assert(components(p) =~= components(dir).push(name));
    } else {
        let front = if dir.last() == SEPARATOR {
            dir.drop_last()
        } else {
            dir
        };
        assert(p =~= front.push(SEPARATOR) + name);
        lemma_pieces_around_separator(front, name);
        lemma_pieces_nonempty(front);
        Seq::filter_distributes_over_add(pieces(front), seq![name], pred);
        if dir.last() == SEPARATOR {
            assert(pieces(dir) =~= pieces(front) + none);
            Seq::filter_distributes_over_add(pieces(front), none, pred);
        }
        assert(p[0] == dir[0]);
        assert(pieces(p)[0] == pieces(front)[0]);
        assert(pieces(dir)[0] == pieces(front)[0]);
        assert(components(p) =~= components(dir).push(name));
    }
}

/// `p` is in a list of paths, under some spelling.
pub open spec fn listed(paths: Seq<Seq<u8>>, p: Seq<u8>) -> bool {
    exists|i: int| 0 <= i < paths.len() && same_path(#[trigger] paths[i], p)
}

/// A list with one more path holds what it held, and that path.
pub proof fn lemma_listed_push(paths: Seq<Seq<u8>>, more: Seq<u8>, p: Seq<u8>)
    ensures
        listed(paths.push(more), p) == (listed(paths, p) || same_path(more, p)),
{
    let all = paths.push(more);
    if listed(paths, p) {
        let i = choose|i: int| 0 <= i < paths.len() && same_path(#[trigger] paths[i], p);
        assert(same_path(all[i], p));
    }
    if same_path(more, p) {
        assert(same_path(all[paths.len() as int], p));
    }
    if listed(all, p) {
        let i = choose|i: int| 0 <= i < all.len() && same_path(#[trigger] all[i], p);
        if i < paths.len() {
            assert(same_path(paths[i], p));
        }
    }
}

fn split(p: &[u8]) -> (r: Vec<Vec<u8>>)
    ensures
        text::contents(r@) == pieces(p@),
        r@.len() > 0,
{
    let mut done: Vec<Vec<u8>> = Vec::new();
    let mut piece: Vec<u8> = Vec::new();
    let mut i: usize = 0;
    assert(p@.take(0) =~= Seq::empty());
    assert(text::contents(done@).push(piece@) =~= pieces(p@.take(0)));
    while i < p.len()
        invariant
            i <= p@.len(),
            text::contents(done@).push(piece@) == pieces(p@.take(i as int)),
        decreases p@.len() - i,
    {
        let ghost before = text::contents(done@).push(piece@);
        assert(p@.take(i + 1).drop_last() =~= p@.take(i as int));
        assert(p@.take(i + 1).last() == p@[i as int]);
        if p[i] == SEPARATOR {
            let ghost old_done = done@;
            let ghost old_piece = piece@;
            done.push(piece);
            piece = Vec::new();
            assert(text::contents(done@) =~= text::contents(old_done).push(old_piece));
            assert(text::contents(done@).push(piece@) =~= before.push(Seq::empty()));
        } else {
            let ghost old_piece = piece@;
            piece.push(p[i]);
            assert(before.drop_last() =~= text::contents(done@));
            assert(before.last() == old_piece);
        }
        i = i + 1;
    }
    assert(p@.take(i as int) =~= p@);
    let ghost old_done = done@;
    let ghost old_piece = piece@;
    done.push(piece);
    assert(text::contents(done@) =~= text::contents(old_done).push(old_piece));
    done
}

/// Splits a path into its components.
pub fn components_of(p: &[u8]) -> (r: Vec<Vec<u8>>)
    ensures
        text::contents(r@) == components(p@),
{
    let all = split(p);
    let mut r: Vec<Vec<u8>> = Vec::new();
    if begins_with(p, SEPARATOR) {
        let mut root: Vec<u8> = Vec::new();
        root.push(SEPARATOR);
        assert(root@ =~= seq![SEPARATOR]);
        r.push(root);
    } else if is_text(all[0].as_slice(), ".") {
        r.push(copy_bytes(all[0].as_slice()));
    }
    assert(text::contents(all@)[0] == all@[0]@);
    assert(text::contents(r@) =~= anchor(p@));
    let ghost pred = |piece: Seq<u8>| is_step(piece);
    let mut i: usize = 0;
    assert(pieces(p@).take(0) =~= Seq::empty());
    reveal(Seq::filter);
    assert(text::contents(r@) =~= anchor(p@) + pieces(p@).take(0).filter(pred));
    while i < all.len()
        invariant
            i <= all@.len(),
            text::contents(all@) == pieces(p@),
            pred == (|piece: Seq<u8>| is_step(piece)),
            text::contents(r@) == anchor(p@) + pieces(p@).take(i as int).filter(pred),
        decreases all@.len() - i,
    {
        reveal(Seq::filter);
        let ghost old_r = r@;
        let ghost upto = pieces(p@).take(i + 1);
        assert(upto.drop_last() =~= pieces(p@).take(i as int));
        assert(upto.last() == all@[i as int]@);
        if all[i].len() > 0 && !is_text(all[i].as_slice(), ".") {
            r.push(copy_bytes(all[i].as_slice()));
            assert(text::contents(r@) =~= text::contents(old_r).push(upto.last()));
            assert(text::contents(r@) =~= anchor(p@) + upto.filter(pred));
        }
        i = i + 1;
    }
    assert(pieces(p@).take(i as int) =~= pieces(p@));
    r
}

fn is_prefix(base: &Vec<Vec<u8>>, all: &Vec<Vec<u8>>) -> (r: bool)
    ensures
        r == text::contents(base@).is_prefix_of(text::contents(all@)),
{
    if base.len() > all.len() {
        return false;
    }
    let mut i: usize = 0;
    while i < base.len()
        invariant
            i <= base@.len() <= all@.len(),
            forall|j: int| 0 <= j < i ==> text::contents(base@)[j] == text::contents(all@)[j],
        decreases base@.len() - i,
    {
        if !same_bytes(base[i].as_slice(), all[i].as_slice()) {
            assert(text::contents(base@)[i as int] != text::contents(all@)[i as int]);
            assert(text::contents(all@).subrange(0, text::contents(base@).len() as int)[i as int] == text::contents(
                all@,
            )[i as int]);
            return false;
        }
        i = i + 1;
    }
    assert(text::contents(base@) =~= text::contents(all@).subrange(0, text::contents(base@).len() as int));
    true
}

/// Compares two paths, component by component.
pub fn is_same_path(a: &[u8], b: &[u8]) -> (r: bool)
    ensures
        r == same_path(a@, b@),
{
    let left = components_of(a);
    let right = components_of(b);
    let r = left.len() == right.len() && is_prefix(&left, &right);
    proof {
        if left@.len() == right@.len() {
            let all = text::contents(right@);
            assert(all.subrange(0, all.len() as int) =~= all);
        } else {
            assert(components(a@).len() != components(b@).len());
        }
    }
    r
}

/// Tests whether a path is `base` or lies below it.
pub fn starts_with(p: &[u8], base: &[u8]) -> (r: bool)
    ensures
        r == lies_in(p@, base@),
{
    is_prefix(&components_of(base), &components_of(p))
}

/// Finds the name that a path ends in.
pub fn name_of(p: &[u8]) -> (r: Option<Vec<u8>>)
    ensures
        r is Some <==> file_name(p@) is Some,
        r is Some ==> Some(r->0@) == file_name(p@),
{
    let all = components_of(p);
    if all.len() == 0 {
        return None;
    }
    let last = &all[all.len() - 1];
    assert(components(p@).last() == last@);
    assert((seq![SEPARATOR])[0] == SEPARATOR);
    assert(last@ == seq![SEPARATOR] <==> last@.len() == 1 && last@[0] == SEPARATOR) by {
        if last@.len() == 1 && last@[0] == SEPARATOR {
            assert(last@ =~= seq![SEPARATOR]);
        }
    }
    if (last.len() == 1 && last[0] == SEPARATOR) || is_text(last.as_slice(), ".") || is_text(
        last.as_slice(),
        "..",
    ) {
        None
    } else {
        Some(copy_bytes(last.as_slice()))
    }
}

/// Takes a name relative to a directory.
pub fn join_path(dir: &[u8], name: &[u8]) -> (r: Vec<u8>)
    ensures
        r@ == join(dir@, name@),
{
    if begins_with(name, SEPARATOR) {
        return copy_bytes(name);
    }
    let mut r = copy_bytes(dir);
    if dir.len() > 0 && dir[dir.len() - 1] != SEPARATOR {
        r.push(SEPARATOR);
    }
    let mut i: usize = 0;
    let ghost start = r@;
    while i < name.len()
        invariant
            i <= name@.len(),
            r@ =~= start + name@.take(i as int),
        decreases name@.len() - i,
    {
        r.push(name[i]);
        i = i + 1;
    }
    assert(name@.take(i as int) =~= name@);
    r
}

/// Looks a path up in a list of paths.
pub fn is_listed(paths: &Vec<Vec<u8>>, p: &[u8]) -> (r: bool)
    ensures
        r == listed(text::contents(paths@), p@),
{
    let mut i: usize = 0;
    while i < paths.len()
        invariant
            i <= paths@.len(),
            forall|j: int| 0 <= j < i ==> !same_path(#[trigger] text::contents(paths@)[j], p@),
        decreases paths@.len() - i,
    {
        if is_same_path(paths[i].as_slice(), p) {
            assert(same_path(text::contents(paths@)[i as int], p@));
            return true;
        }
        i = i + 1;
    }
    false
}

/// A trailing slash, a second slash and a `.` between slashes make no
/// difference.
pub proof fn needless_parts_make_no_difference(a: Seq<u8>, b: Seq<u8>)
    requires
        a.len() > 0,
    ensures
        same_path(a + seq!['/' as u8], a),
        same_path(a + seq!['/' as u8, '/' as u8] + b, a + seq!['/' as u8] + b),
        same_path(a + seq!['/' as u8, '.' as u8, '/' as u8] + b, a + seq!['/' as u8] + b),
{
    let pred = |piece: Seq<u8>| is_step(piece);
    let nothing: Seq<u8> = Seq::empty();
    let none: Seq<Seq<u8>> = seq![nothing];
    let dot = seq!['.' as u8];
    reveal_strlit(".");
    is_ascii_chars_encode_utf8("."@);
    assert(encode_utf8("."@) =~= dot);
    reveal(Seq::filter);
    assert(none.drop_last() =~= Seq::empty());
    assert(none.drop_last().filter(pred) =~= Seq::empty());
    assert(none.last() == nothing && !is_step(nothing));
    assert(none.filter(pred) =~= Seq::empty());
    assert(seq![dot].drop_last() =~= Seq::empty());
    assert(seq![dot].filter(pred) =~= Seq::empty());
    lemma_pieces_nonempty(a);
    lemma_pieces_nonempty(b);

    let once = a.push(SEPARATOR) + b;
    assert(once =~= a + seq!['/' as u8] + b);
    lemma_pieces_around_separator(a, b);
    Seq::filter_distributes_over_add(pieces(a), pieces(b), pred);
    assert(once[0] == a[0]);
    assert(pieces(once)[0] == pieces(a)[0]);

    let ended = a.push(SEPARATOR) + nothing;
    assert(ended =~= a + seq!['/' as u8]);
    lemma_pieces_around_separator(a, nothing);
    Seq::filter_distributes_over_add(pieces(a), none, pred);
    assert(pieces(ended)[0] == pieces(a)[0]);
    assert(ended[0] == a[0]);
    assert(components(ended) =~= components(a));

    let inner = nothing.push(SEPARATOR) + b;
    let twice = a.push(SEPARATOR) + inner;
    assert(twice =~= a + seq!['/' as u8, '/' as u8] + b);
    lemma_pieces_around_separator(nothing, b);
    lemma_pieces_around_separator(a, inner);
    Seq::filter_distributes_over_add(none, pieces(b), pred);
    Seq::filter_distributes_over_add(pieces(a), pieces(inner), pred);
    assert(pieces(twice)[0] == pieces(a)[0]);
    assert(twice[0] == a[0]);
    assert(components(twice) =~= components(once));

    let dotted = dot.push(SEPARATOR) + b;
    let wide = a.push(SEPARATOR) + dotted;
    assert(wide =~= a + seq!['/' as u8, '.' as u8, '/' as u8] + b);
    lemma_pieces_without_separator(dot);
    lemma_pieces_around_separator(dot, b);
    lemma_pieces_around_separator(a, dotted);
    Seq::filter_distributes_over_add(seq![dot], pieces(b), pred);
    Seq::filter_distributes_over_add(pieces(a), pieces(dotted), pred);
    assert(pieces(wide)[0] == pieces(a)[0]);
    assert(wide[0] == a[0]);
    assert(components(wide) =~= components(once));
}

/// A name is neither empty nor a dot, and has no slash in it.
pub proof fn a_name_has_no_slash(name: Seq<u8>)
    ensures
        is_plain(name) == (name.len() > 0 && name != seq!['.' as u8] && forall|i: int|
            0 <= i < name.len() ==> #[trigger] name[i] != '/' as u8),
{
    reveal_strlit(".");
    is_ascii_chars_encode_utf8("."@);
    assert(encode_utf8("."@) =~= seq!['.' as u8]);
}

/// The root is a component of its own, nothing has no components, and a name is
/// its own one component.
pub proof fn the_simplest_paths(name: Seq<u8>)
    requires
        name.len() > 0,
        name != seq!['.' as u8],
        forall|i: int| 0 <= i < name.len() ==> #[trigger] name[i] != '/' as u8,
    ensures
        components(seq!['/' as u8]) == seq![seq!['/' as u8]],
        components(Seq::empty()) == Seq::<Seq<u8>>::empty(),
        components(name) == seq![name],
        components(seq!['/' as u8] + name) == seq![seq!['/' as u8], name],
{
    a_name_has_no_slash(name);
    let nothing: Seq<u8> = Seq::empty();
    let root = seq!['/' as u8];
    let pred = |piece: Seq<u8>| is_step(piece);
    reveal_strlit(".");
    is_ascii_chars_encode_utf8("."@);
    reveal(Seq::filter);
    let none: Seq<Seq<u8>> = seq![nothing];
    assert(none.drop_last() =~= Seq::empty());
    assert(none.drop_last().filter(pred) =~= Seq::empty());
    assert(none.last() == nothing && !is_step(nothing));
    assert(none.filter(pred) =~= Seq::empty());
    assert(components(nothing) =~= Seq::empty());
    assert(nothing.push(SEPARATOR) + nothing =~= root);
    lemma_pieces_around_separator(nothing, nothing);
    Seq::filter_distributes_over_add(none, none, pred);
    assert(components(root) =~= seq![root]);
    a_joined_name_is_one_more_component(nothing, name);
    assert(join(nothing, name) =~= name);
    assert(components(name) =~= seq![name]);
    a_joined_name_is_one_more_component(root, name);
    assert(join(root, name) == root + name);
    assert(components(root + name) =~= seq![root, name]);
}

/// A directory holds what is joined to it, and is not in it. Two names in one
/// directory are two places, neither of which lies in the other, be one the
/// beginning of the other or not.
pub proof fn places_are_told_apart_by_names(dir: Seq<u8>, one: Seq<u8>, other: Seq<u8>)
    requires
        is_plain(one),
        is_plain(other),
    ensures
        lies_in(dir, dir),
        lies_in(join(dir, one), dir),
        !lies_in(dir, join(dir, one)),
        same_path(join(dir, one), join(dir, other)) == (one == other),
        lies_in(join(dir, one), join(dir, other)) == (one == other),
        one != seq!['.' as u8, '.' as u8] ==> file_name(join(dir, one)) == Some(one),
        one == seq!['.' as u8, '.' as u8] ==> file_name(join(dir, one)) is None,
{
    a_joined_name_is_one_more_component(dir, one);
    a_joined_name_is_one_more_component(dir, other);
    let (c, a, b) = (components(dir), components(join(dir, one)), components(join(dir, other)));
    assert(a.subrange(0, c.len() as int) =~= c);
    assert(c.subrange(0, c.len() as int) =~= c);
    assert(a[c.len() as int] == one && b[c.len() as int] == other);
    if lies_in(join(dir, one), join(dir, other)) {
        assert(b =~= a.subrange(0, b.len() as int));
        assert(a.subrange(0, b.len() as int)[c.len() as int] == one);
    }
    if one == other {
        assert(b =~= a.subrange(0, b.len() as int));
    }
    reveal_strlit(".");
    is_ascii_chars_encode_utf8("."@);
    assert(encode_utf8("."@) =~= seq!['.' as u8]);
    reveal_strlit("..");
    is_ascii_chars_encode_utf8(".."@);
    assert(encode_utf8(".."@) =~= seq!['.' as u8, '.' as u8]);
    assert(one != seq![SEPARATOR]) by {
        assert(one[0] != SEPARATOR);
    }
}

/// A path behind a root is taken as it is. Otherwise a name goes behind the
/// directory with one slash between them, and none where there is one.
pub proof fn a_name_goes_behind_one_slash(dir: Seq<u8>, name: Seq<u8>)
    requires
        name.len() > 0,
    ensures
        name[0] == '/' as u8 ==> join(dir, name) == name,
        name[0] != '/' as u8 && dir.len() == 0 ==> join(dir, name) == name,
        name[0] != '/' as u8 && dir.len() > 0 && dir[dir.len() - 1] == '/' as u8 ==> join(dir, name)
            == dir + name,
        name[0] != '/' as u8 && dir.len() > 0 && dir[dir.len() - 1] != '/' as u8 ==> join(dir, name)
            == dir + seq!['/' as u8] + name,
{
    if dir.len() == 0 {
        assert(dir + name =~= name);
    }
    assert(dir.push(SEPARATOR) + name =~= dir + seq!['/' as u8] + name);
}

/// Paths are compared step by step: two names in two directories are one place
/// exactly where the names and the directories are, and a name in a directory
/// lies in a base exactly where the directory does or it is the base itself.
pub proof fn paths_are_compared_step_by_step(
    dir: Seq<u8>,
    name: Seq<u8>,
    other: Seq<u8>,
    twin: Seq<u8>,
)
    requires
        is_plain(name),
        is_plain(twin),
    ensures
        same_path(join(dir, name), join(other, twin)) == (name == twin && same_path(dir, other)),
        lies_in(join(dir, name), other) == (lies_in(dir, other) || same_path(
            join(dir, name),
            other,
        )),
        same_path(dir, other) == (lies_in(dir, other) && lies_in(other, dir)),
{
    a_joined_name_is_one_more_component(dir, name);
    a_joined_name_is_one_more_component(other, twin);
    let (c, d) = (components(dir), components(other));
    let (a, b) = (c.push(name), d.push(twin));
    if a == b {
        assert(a.last() == name && b.last() == twin);
        assert(a.drop_last() =~= c);
        assert(b.drop_last() =~= d);
    }
    if d.is_prefix_of(a) {
        if d.len() <= c.len() {
            assert(d =~= c.subrange(0, d.len() as int));
        } else {
            assert(d =~= a);
        }
    }
    if d.is_prefix_of(c) {
        assert(d =~= a.subrange(0, d.len() as int));
        if c.is_prefix_of(d) {
            assert(c =~= d);
        }
    }
    if a == d {
        assert(d =~= a.subrange(0, d.len() as int));
    }
    if c == d {
        assert(d =~= c.subrange(0, d.len() as int));
    }
}

/// A path from the root is another one than the same path without the root, and
/// the root is not nothing.
pub proof fn the_root_counts(name: Seq<u8>)
    requires
        is_plain(name),
    ensures
        !same_path(seq!['/' as u8] + name, name),
        !same_path(seq!['/' as u8], Seq::empty()),
        lies_in(seq!['/' as u8] + name, seq!['/' as u8]),
        !lies_in(name, seq!['/' as u8]),
{
    a_name_has_no_slash(name);
    the_simplest_paths(name);
    let root = seq!['/' as u8];
    assert(seq![root, name].subrange(0, 1) =~= seq![root]);
    assert(seq![root, name].len() == 2 && seq![name].len() == 1);
    if seq![root].is_prefix_of(seq![name]) {
        assert(seq![name].subrange(0, 1)[0] == name);
        assert(seq![root][0] == root);
        assert(root[0] == '/' as u8);
    }
}

/// A list of paths holds those that are in it, by whatever spelling, and no
/// others.
pub proof fn a_list_holds_its_paths(paths: Seq<Seq<u8>>, more: Seq<u8>, p: Seq<u8>)
    ensures
        !listed(Seq::empty(), p),
        listed(paths.push(more), more),
        listed(paths.push(more), p) == (listed(paths, p) || same_path(more, p)),
{
    lemma_listed_push(paths, more, p);
    lemma_listed_push(paths, more, more);
}

} // verus!
