//! Paths, as text whose components are separated by slashes.
use vstd::prelude::*;
use vstd::slice::slice_subrange;

use crate::text::{
    ascii_lower, first_index, from_chars, lemma_first_index, lemma_first_index_is, same,
    same_ignoring_case, split, split_at, texts, to_chars,
};

verus! {

/// A piece between two slashes that names something: an empty piece and a
/// single dot do not.
pub open spec fn is_name(piece: Seq<char>) -> bool {
    piece.len() > 0 && piece != seq!['.']
}

/// The names in a path, from left to right.
pub open spec fn names(path: Seq<char>) -> Seq<Seq<char>> {
    split(path, '/').filter(|piece: Seq<char>| is_name(piece))
}

/// What distinguishes one path from another: whether it starts at the root,
/// whether it starts with a single dot, and the names in it. Doubled slashes,
/// a slash at the end and dots further on make no difference.
#[verifier::ext_equal]
pub struct PathKey {
    pub rooted: bool,
    pub dotted: bool,
    pub names: Seq<Seq<char>>,
}

pub open spec fn path_key(path: Seq<char>) -> PathKey {
    PathKey {
        rooted: path.len() > 0 && path[0] == '/',
        dotted: split(path, '/')[0] == seq!['.'],
        names: names(path),
    }
}

/// What distinguishes one path from another where a leading dot makes no
/// difference either.
pub open spec fn place(path: Seq<char>) -> PathKey {
    PathKey { dotted: false, ..path_key(path) }
}

/// `part` as seen from `base`: `part` itself if it starts at the root, and
/// otherwise `base` and `part` with a separator between them where `base` is
/// neither empty nor ends in one.
pub open spec fn joined<T>(base: Seq<T>, part: Seq<T>, separator: T) -> Seq<T> {
    if part.len() > 0 && part[0] == separator {
        part
    } else if base.len() > 0 && base.last() != separator {
        base.push(separator) + part
    } else {
        base + part
    }
}

/// Where the given names lead from a directory, one after the other.
pub open spec fn walked(dir: Seq<char>, steps: Seq<Seq<char>>) -> Seq<char>
    decreases steps.len(),
{
    if steps.len() == 0 {
        dir
    } else {
        joined(walked(dir, steps.drop_last()), steps.last(), '/')
    }
}

/// Where a path leads if a directory is taken for the root.
pub open spec fn below(dir: Seq<char>, path: Seq<char>) -> Seq<char> {
    walked(dir, names(path))
}

/// Whether a path is `/etc` or lies below it.
pub open spec fn in_etc(path: Seq<char>) -> bool {
    path_key(path).rooted && names(path).len() > 0 && names(path)[0] == seq!['e', 't', 'c']
}

/// The last name in a path, unless that is the parent directory.
pub open spec fn file_name(path: Seq<char>) -> Option<Seq<char>> {
    if names(path).len() > 0 && names(path).last() != seq!['.', '.'] {
        Some(names(path).last())
    } else {
        None
    }
}

/// The position after the last `c`, or zero if there is none.
pub open spec fn after_last(s: Seq<char>, c: char) -> nat
    decreases s.len(),
{
    if s.len() == 0 || s.last() == c {
        s.len()
    } else {
        after_last(s.drop_last(), c)
    }
}

/// What follows the last dot in the last name of a path. A dot that the name
/// starts with does not count.
pub open spec fn extension(path: Seq<char>) -> Option<Seq<char>> {
    match file_name(path) {
        Some(name) if after_last(name, '.') > 1 => Some(name.skip(after_last(name, '.') as int)),
        _ => None,
    }
}

/// The names in a path.
pub(crate) fn names_of(path: &[char]) -> (r: Vec<String>)
    ensures
        texts(r@) == names(path@),
{
    let pieces = split_at(path, '/');
    let ghost named = |piece: Seq<char>| is_name(piece);
    let ghost all = texts(pieces@);
    let mut r: Vec<String> = Vec::new();
    assert(all.take(0) =~= Seq::<Seq<char>>::empty());
    assert(texts(r@) =~= Seq::<Seq<char>>::empty());
    for i in 0..pieces.len()
        invariant
            all == texts(pieces@),
            named == (|piece: Seq<char>| is_name(piece)),
            texts(r@) == all.take(i as int).filter(named),
    {
        let ghost before = r@;
        let piece = to_chars(pieces[i].as_str());
        proof {
            assert(all.take(i + 1) =~= all.take(i as int).push(all[i as int]));
            all.take(i as int).lemma_filter_push(all[i as int], named);
        }
        if piece.len() > 0 && !(piece.len() == 1 && piece[0] == '.') {
            proof {
                if piece@.len() == 1 {
                    assert(piece@[0] != seq!['.'][0]);
                }
            }
            r.push(pieces[i].clone());
            assert(texts(r@) =~= texts(before).push(pieces[i as int]@));
        } else {
            assert(piece@.len() == 0 || piece@ =~= seq!['.']);
        }
    }
    assert(all.take(all.len() as int) =~= all);
    r
}

/// The start of a path is the first of its pieces.
proof fn lemma_first_piece(path: Seq<char>)
    ensures
        split(path, '/').len() > 0,
        split(path, '/')[0] == path.take(first_index(path, '/') as int),
    decreases path.len(),
{
    lemma_first_index_is(path, '/');
    assert(path.take(path.len() as int) =~= path);
}

/// Whether a path starts with a single dot as its first piece.
fn dotted(path: &[char]) -> (r: bool)
    ensures
        r == path_key(path@).dotted,
{
    let first = crate::text::find(path, '/');
    proof {
        lemma_first_piece(path@);
        assert(seq!['.'].len() == 1);
    }
    if first == 1 && path[0] == '.' {
        assert(path@.take(1) =~= seq!['.']);
        true
    } else {
        proof {
            if path@.take(first as int) == seq!['.'] {
                assert(path@.take(first as int)[0] == '.');
            }
        }
        false
    }
}

/// Whether two paths are the same, component for component.
pub(crate) fn same_path(a: &str, b: &str) -> (r: bool)
    ensures
        r == (path_key(a@) == path_key(b@)),
{
    let x = to_chars(a);
    let y = to_chars(b);
    let r = dotted(x.as_slice()) == dotted(y.as_slice()) && same_place(a, b);
    assert(r ==> path_key(a@) =~= path_key(b@));
    r
}

/// Whether two paths are the same but for a leading dot.
pub(crate) fn same_place(a: &str, b: &str) -> (r: bool)
    ensures
        r == (place(a@) == place(b@)),
{
    let x = to_chars(a);
    let y = to_chars(b);
    let rooted_x = x.len() > 0 && x[0] == '/';
    let rooted_y = y.len() > 0 && y[0] == '/';
    if rooted_x != rooted_y {
        return false;
    }
    let n = names_of(x.as_slice());
    let m = names_of(y.as_slice());
    if n.len() != m.len() {
        assert(names(a@).len() != names(b@).len());
        return false;
    }
    for i in 0..n.len()
        invariant
            n.len() == m.len(),
            texts(n@) == names(a@),
            texts(m@) == names(b@),
            forall|j: int| 0 <= j < i ==> n[j]@ == m[j]@,
    {
        if !same(n[i].as_str(), m[i].as_str()) {
            assert(names(a@)[i as int] != names(b@)[i as int]);
            return false;
        }
    }
    assert(names(a@) =~= names(b@));
    true
}

/// `part` as seen from `base`.
pub(crate) fn join(base: &str, part: &str) -> (r: String)
    ensures
        r@ == joined(base@, part@, '/'),
{
    let b = to_chars(base);
    let p = to_chars(part);
    if p.len() > 0 && p[0] == '/' {
        return from_chars(p.as_slice());
    }
    let mut r = from_chars(b.as_slice());
    if b.len() > 0 && b[b.len() - 1] != '/' {
        r.push('/');
    }
    r.append(part);
    r
}

/// Where a path leads if a directory is taken for the root.
pub fn path_below(dir: &str, path: &str) -> (r: String)
    ensures
        r@ == below(dir@, path@),
{
    let chars = to_chars(path);
    let steps = names_of(chars.as_slice());
    let ghost all = texts(steps@);
    let mut r = dir.to_owned();
    for i in 0..steps.len()
        invariant
            all == texts(steps@),
            r@ == walked(dir@, all.take(i as int)),
    {
        assert(all.take(i + 1).drop_last() =~= all.take(i as int));
        r = join(r.as_str(), steps[i].as_str());
    }
    assert(all.take(all.len() as int) =~= all);
    r
}

/// The pieces of a path have no slash in them.
proof fn lemma_pieces_have_no_slash(path: Seq<char>, i: int)
    requires
        0 <= i < split(path, '/').len(),
    ensures
        !split(path, '/')[i].contains('/'),
    decreases path.len(),
{
    let n = first_index(path, '/') as int;
    lemma_first_index_is(path, '/');
    if n < path.len() {
        let rest = path.skip(n + 1);
        if i > 0 {
            lemma_pieces_have_no_slash(rest, i - 1);
            assert(split(path, '/')[i] == split(rest, '/')[i - 1]);
        } else {
            assert(split(path, '/')[0] == path.take(n));
        }
    }
}

/// Names have no slash in them.
pub(crate) proof fn lemma_names_have_no_slash(path: Seq<char>, i: int)
    requires
        0 <= i < names(path).len(),
    ensures
        names(path)[i].len() > 0,
        !names(path)[i].contains('/'),
{
    let named = |piece: Seq<char>| is_name(piece);
    let pieces = split(path, '/');
    pieces.lemma_filter_pred(named, i);
    pieces.lemma_filter_contains_rev(named, names(path)[i]);
    let j = choose|j: int| 0 <= j < pieces.len() && pieces[j] == names(path)[i];
    lemma_pieces_have_no_slash(path, j);
}

proof fn lemma_walked_starts_with_dir(dir: Seq<char>, steps: Seq<Seq<char>>)
    requires
        forall|i: int| 0 <= i < steps.len() ==> !(#[trigger] steps[i]).contains('/'),
    ensures
        dir.is_prefix_of(walked(dir, steps)),
    decreases steps.len(),
{
    if steps.len() > 0 {
        let before = walked(dir, steps.drop_last());
        lemma_walked_starts_with_dir(dir, steps.drop_last());
        let step = steps.last();
        if step.len() > 0 {
            assert(step.contains(step[0]));
        }
        assert(dir =~= walked(dir, steps).subrange(0, dir.len() as int));
    } else {
        assert(dir =~= dir.subrange(0, dir.len() as int));
    }
}

/// Whatever the path, rooted or not, where it leads from a directory that is
/// taken for the root is spelled from that directory on.
pub proof fn lemma_below_starts_with_dir(dir: Seq<char>, path: Seq<char>)
    ensures
        dir.is_prefix_of(below(dir, path)),
{
    assert forall|i: int| 0 <= i < names(path).len() implies !(#[trigger] names(
        path,
    )[i]).contains('/') by {
        lemma_names_have_no_slash(path, i);
    }
    lemma_walked_starts_with_dir(dir, names(path));
}

/// `part` as seen from `base`, for paths that are rows of bytes.
pub(crate) fn join_bytes(base: &[u8], part: &[u8]) -> (r: Vec<u8>)
    ensures
        r@ == joined(base@, part@, 47u8),
{
    if part.len() > 0 && part[0] == 47 {
        return vstd::slice::slice_to_vec(part);
    }
    let mut r = vstd::slice::slice_to_vec(base);
    if base.len() > 0 && base[base.len() - 1] != 47 {
        r.push(47);
    }
    let ghost before = r@;
    for i in 0..part.len()
        invariant
            r@ == before + part@.take(i as int),
    {
        r.push(part[i]);
    }
    assert(part@.take(part@.len() as int) =~= part@);
    r
}

/// Whether a path is `/etc` or lies below it.
pub(crate) fn below_etc(path: &str) -> (r: bool)
    ensures
        r == in_etc(path@),
{
    let p = to_chars(path);
    if p.len() == 0 || p[0] != '/' {
        return false;
    }
    let n = names_of(p.as_slice());
    if n.len() == 0 {
        assert(names(path@).len() == 0);
        return false;
    }
    let r = same(n[0].as_str(), "etc");
    proof {
        reveal_strlit("etc");
        assert("etc"@ =~= seq!['e', 't', 'c']);
        assert(names(path@)[0] == n[0]@);
    }
    r
}

/// The position after the last `c`, or zero if there is none.
fn find_after_last(s: &[char], c: char) -> (r: usize)
    ensures
        r == after_last(s@, c),
        r <= s.len(),
{
    let mut n: usize = s.len();
    assert(s@.take(n as int) =~= s@);
    while n > 0 && s[n - 1] != c
        invariant
            n <= s.len(),
            after_last(s@, c) == after_last(s@.take(n as int), c),
        decreases n,
    {
        assert(s@.take(n as int).drop_last() =~= s@.take(n - 1));
        n = n - 1;
    }
    n
}

/// What follows the last dot in the last name of a path.
pub(crate) fn extension_of(path: &[char]) -> (r: Option<Vec<char>>)
    ensures
        match r {
            Some(e) => extension(path@) == Some(e@),
            None => extension(path@) is None,
        },
{
    let n = names_of(path);
    if n.len() == 0 {
        assert(names(path@).len() == 0);
        return None;
    }
    assert(names(path@).last() == n@.last()@);
    let last = to_chars(n[n.len() - 1].as_str());
    if last.len() == 2 && last[0] == '.' && last[1] == '.' {
        assert(last@ =~= seq!['.', '.']);
        return None;
    }
    assert(last@ != seq!['.', '.']) by {
        if last@ == seq!['.', '.'] {
            assert(last@.len() == 2);
            assert(last@[0] == '.');
            assert(last@[1] == '.');
        }
    }
    let dot = find_after_last(last.as_slice(), '.');
    if dot > 1 {
        Some(vstd::slice::slice_to_vec(slice_subrange(last.as_slice(), dot, last.len())))
    } else {
        None
    }
}

/// The pieces of two paths with a slash between them are those of the one and
/// those of the other.
proof fn lemma_split_concat(a: Seq<char>, b: Seq<char>)
    ensures
        split(a + seq!['/'] + b, '/') == split(a, '/') + split(b, '/'),
    decreases a.len(),
{
    let whole = a + seq!['/'] + b;
    let n = first_index(a, '/') as int;
    lemma_first_index_is(a, '/');
    assert forall|j: int| 0 <= j < n implies whole[j] != '/' by {
        assert(whole[j] == a[j]);
    }
    assert(whole[n] == '/');
    lemma_first_index(whole, '/', n);
    assert(whole.take(n) =~= a.take(n));
    if n < a.len() {
        let rest = a.skip(n + 1);
        assert(whole.skip(n + 1) =~= rest + seq!['/'] + b);
        lemma_split_concat(rest, b);
        assert(seq![a.take(n)] + (split(rest, '/') + split(b, '/')) =~= seq![a.take(n)] + split(
            rest,
            '/',
        ) + split(b, '/'));
    } else {
        assert(a.take(n) =~= a);
        assert(whole.skip(n + 1) =~= b);
    }
}

/// The names in a path that is seen from another are those of the other and its
/// own.
pub proof fn lemma_names_joined(base: Seq<char>, part: Seq<char>)
    requires
        !path_key(part).rooted,
    ensures
        names(joined(base, part, '/')) == names(base) + names(part),
{
    let named = |piece: Seq<char>| is_name(piece);
    let none = Seq::<char>::empty();
    let whole = joined(base, part, '/');
    assert(split(none, '/') =~= seq![none]);
    assert(seq![none].filter(named) =~= seq![]) by {
        reveal_with_fuel(Seq::filter, 2);
        assert(seq![none].drop_last() =~= Seq::<Seq<char>>::empty());
        assert(!named(seq![none].last()));
    }
    if base.len() == 0 {
        assert(base =~= none);
        assert(whole =~= part);
        assert(names(base) + names(part) =~= names(part));
    } else if base.last() == '/' {
        let start = base.drop_last();
        assert(base =~= start + seq!['/'] + none);
        assert(whole =~= start + seq!['/'] + part);
        lemma_split_concat(start, none);
        lemma_split_concat(start, part);
        Seq::filter_distributes_over_add(split(start, '/'), seq![none], named);
        Seq::filter_distributes_over_add(split(start, '/'), split(part, '/'), named);
        assert(names(base) =~= split(start, '/').filter(named));
    } else {
        assert(whole =~= base + seq!['/'] + part);
        lemma_split_concat(base, part);
        Seq::filter_distributes_over_add(split(base, '/'), split(part, '/'), named);
    }
}

/// A path of two names, with a slash between them, has those names.
pub(crate) proof fn lemma_two_names(a: Seq<char>, b: Seq<char>)
    requires
        is_name(a),
        is_name(b),
        !a.contains('/'),
        !b.contains('/'),
    ensures
        names(a + seq!['/'] + b) == seq![a, b],
{
    let named = |piece: Seq<char>| is_name(piece);
    assert forall|j: int| 0 <= j < a.len() implies a[j] != '/' by {
        assert(a.contains(a[j]));
    }
    assert forall|j: int| 0 <= j < b.len() implies b[j] != '/' by {
        assert(b.contains(b[j]));
    }
    lemma_first_index(a, '/', a.len() as int);
    lemma_first_index(b, '/', b.len() as int);
    lemma_split_concat(a, b);
    assert(split(a + seq!['/'] + b, '/') =~= seq![a, b]);
    reveal_with_fuel(Seq::filter, 3);
    assert(seq![a, b].drop_last() =~= seq![a]);
    assert(seq![a].drop_last() =~= Seq::<Seq<char>>::empty());
    assert(seq![a, b].filter(named) =~= seq![a, b]);
}

/// Whether texts differ at most in the case of ASCII letters, one by one.
spec fn all_same_ignoring_case(a: Seq<Seq<char>>, b: Seq<Seq<char>>) -> bool {
    a.len() == b.len() && forall|i: int|
        0 <= i < a.len() ==> same_ignoring_case(#[trigger] a[i], b[i])
}

/// Case makes no difference to where a slash or a dot stands.
proof fn lemma_case_keeps_marks(a: char, b: char)
    requires
        ascii_lower(a) == ascii_lower(b),
    ensures
        a == '/' <==> b == '/',
        a == '.' <==> b == '.',
{
}

proof fn lemma_case_first_slash(a: Seq<char>, b: Seq<char>)
    requires
        same_ignoring_case(a, b),
    ensures
        first_index(a, '/') == first_index(b, '/'),
    decreases a.len(),
{
    if a.len() > 0 {
        lemma_case_keeps_marks(a[0], b[0]);
        assert forall|i: int| 0 <= i < a.skip(1).len() implies ascii_lower(#[trigger] a.skip(1)[i])
            == ascii_lower(b.skip(1)[i]) by {
            assert(a.skip(1)[i] == a[i + 1]);
        }
        lemma_case_first_slash(a.skip(1), b.skip(1));
    }
}

proof fn lemma_case_subrange(a: Seq<char>, b: Seq<char>, from: int, to: int)
    requires
        same_ignoring_case(a, b),
        0 <= from <= to <= a.len(),
    ensures
        same_ignoring_case(a.subrange(from, to), b.subrange(from, to)),
{
    let x = a.subrange(from, to);
    assert forall|i: int| 0 <= i < x.len() implies ascii_lower(#[trigger] x[i]) == ascii_lower(
        b.subrange(from, to)[i],
    ) by {
        assert(x[i] == a[from + i]);
    }
}

proof fn lemma_case_split(a: Seq<char>, b: Seq<char>)
    requires
        same_ignoring_case(a, b),
    ensures
        all_same_ignoring_case(split(a, '/'), split(b, '/')),
    decreases a.len(),
{
    let n = first_index(a, '/') as int;
    lemma_case_first_slash(a, b);
    lemma_first_index_is(a, '/');
    if n < a.len() {
        lemma_case_subrange(a, b, 0, n);
        lemma_case_subrange(a, b, n + 1, a.len() as int);
        assert(a.take(n) =~= a.subrange(0, n) && b.take(n) =~= b.subrange(0, n));
        assert(a.skip(n + 1) =~= a.subrange(n + 1, a.len() as int));
        assert(b.skip(n + 1) =~= b.subrange(n + 1, a.len() as int));
        let x = split(a.skip(n + 1), '/');
        let y = split(b.skip(n + 1), '/');
        lemma_case_split(a.skip(n + 1), b.skip(n + 1));
        assert forall|i: int| 0 <= i < split(a, '/').len() implies same_ignoring_case(
            #[trigger] split(a, '/')[i],
            split(b, '/')[i],
        ) by {
            if i > 0 {
                assert(split(a, '/')[i] == x[i - 1]);
                assert(split(b, '/')[i] == y[i - 1]);
            }
        }
    }
}

proof fn lemma_case_names(a: Seq<Seq<char>>, b: Seq<Seq<char>>)
    requires
        all_same_ignoring_case(a, b),
    ensures
        all_same_ignoring_case(
            a.filter(|piece: Seq<char>| is_name(piece)),
            b.filter(|piece: Seq<char>| is_name(piece)),
        ),
    decreases a.len(),
{
    let named = |piece: Seq<char>| is_name(piece);
    reveal(Seq::filter);
    if a.len() > 0 {
        let (x, y) = (a.last(), b.last());
        lemma_case_names(a.drop_last(), b.drop_last());
        assert(same_ignoring_case(a[a.len() - 1], b[a.len() - 1]));
        if x.len() > 0 {
            lemma_case_keeps_marks(x[0], y[0]);
        }
        if x.len() == 1 {
            assert(x == seq!['.'] <==> x[0] == '.') by {
                if x[0] == '.' {
                    assert(x =~= seq!['.']);
                }
            }
            assert(y == seq!['.'] <==> y[0] == '.') by {
                if y[0] == '.' {
                    assert(y =~= seq!['.']);
                }
            }
        } else {
            assert(seq!['.'].len() == 1);
        }
        assert(is_name(x) == is_name(y));
    }
}

proof fn lemma_case_last_dot(a: Seq<char>, b: Seq<char>)
    requires
        same_ignoring_case(a, b),
    ensures
        after_last(a, '.') == after_last(b, '.'),
        after_last(a, '.') <= a.len(),
    decreases a.len(),
{
    if a.len() > 0 {
        assert(ascii_lower(a[a.len() - 1]) == ascii_lower(b[a.len() - 1]));
        lemma_case_keeps_marks(a.last(), b.last());
        lemma_case_subrange(a, b, 0, a.len() - 1);
        assert(a.drop_last() =~= a.subrange(0, a.len() - 1));
        assert(b.drop_last() =~= b.subrange(0, a.len() - 1));
        lemma_case_last_dot(a.drop_last(), b.drop_last());
    }
}

/// Paths that differ at most in the case of ASCII letters have extensions that
/// differ no more than that, or none.
pub proof fn lemma_case_extension(a: Seq<char>, b: Seq<char>)
    requires
        same_ignoring_case(a, b),
    ensures
        match (extension(a), extension(b)) {
            (Some(x), Some(y)) => same_ignoring_case(x, y),
            (None, None) => true,
            _ => false,
        },
{
    lemma_case_split(a, b);
    lemma_case_names(split(a, '/'), split(b, '/'));
    if names(a).len() > 0 {
        let (x, y) = (names(a).last(), names(b).last());
        assert(same_ignoring_case(names(a)[names(a).len() - 1], names(b)[names(a).len() - 1]));
        if x.len() == 2 {
            lemma_case_keeps_marks(x[0], y[0]);
            lemma_case_keeps_marks(x[1], y[1]);
            if x[0] == '.' && x[1] == '.' {
                assert(x =~= seq!['.', '.']);
                assert(y =~= seq!['.', '.']);
            } else {
                assert(seq!['.', '.'][0] == '.' && seq!['.', '.'][1] == '.');
            }
        } else {
            assert(seq!['.', '.'].len() == 2);
        }
        lemma_case_last_dot(x, y);
        let dot = after_last(x, '.') as int;
        lemma_case_subrange(x, y, dot, x.len() as int);
        assert(x.skip(dot) =~= x.subrange(dot, x.len() as int));
        assert(y.skip(dot) =~= y.subrange(dot, x.len() as int));
    }
}

} // verus!
