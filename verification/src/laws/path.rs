//! What holds of paths.
use vstd::prelude::*;

use crate::laws::text::{lemma_one_piece, lemma_pieces_add_up};
use crate::path::{
    after_last, below, extension, in_etc, is_name, joined, names, path_key, place, walked,
};
use crate::rpm::{byte_chars, is_rpm_path};
use crate::table::{distinct, lemma_position, lemma_position_found, lookup, stored};
use crate::text::{first_index, lemma_first_index_is, same_ignoring_case, split};

verus! {

/// A path is made of names: the names in two paths with a slash between them are
/// those of the one and those of the other.
pub proof fn lemma_names_add_up(a: Seq<char>, b: Seq<char>)
    ensures
        names(a + seq!['/'] + b) == names(a) + names(b),
{
    let named = |piece: Seq<char>| is_name(piece);
    lemma_pieces_add_up(a, '/', b);
    Seq::filter_distributes_over_add(split(a, '/'), split(b, '/'), named);
}

/// A piece without a slash is a name, unless it is empty or a single dot, which
/// name nothing.
pub proof fn lemma_one_name(piece: Seq<char>)
    requires
        !piece.contains('/'),
    ensures
        piece.len() > 0 && piece != seq!['.'] ==> names(piece) == seq![piece],
        piece.len() == 0 || piece == seq!['.'] ==> names(piece) == Seq::<Seq<char>>::empty(),
{
    let named = |piece: Seq<char>| is_name(piece);
    lemma_one_piece(piece, '/');
    reveal_with_fuel(Seq::filter, 2);
    assert(seq![piece].drop_last() =~= Seq::<Seq<char>>::empty());
    assert(seq![piece].last() == piece);
    if piece.len() > 0 && piece != seq!['.'] {
        assert(named(piece));
        assert(seq![piece].filter(named) =~= seq![piece]);
    } else {
        assert(!named(piece));
        assert(seq![piece].filter(named) =~= Seq::<Seq<char>>::empty());
    }
}

/// A path starts at the root exactly if its first character is a slash.
pub proof fn lemma_rooted(path: Seq<char>)
    ensures
        path_key(seq!['/'] + path).rooted,
        path.len() == 0 || path[0] != '/' ==> !path_key(path).rooted,
{
}

/// Two paths are the same only if they both start at the root or both do not,
/// and have the same names.
pub proof fn lemma_same_path_same_names(a: Seq<char>, b: Seq<char>)
    requires
        path_key(a) == path_key(b),
    ensures
        names(a) == names(b),
        (a.len() > 0 && a[0] == '/') == (b.len() > 0 && b[0] == '/'),
{
}

/// A dot and a slash before a path make no difference to the place it is at.
pub proof fn lemma_dot_makes_no_place(path: Seq<char>)
    requires
        path.len() > 0,
        path[0] != '/',
    ensures
        place(seq!['.', '/'] + path) == place(path),
{
    let dot = seq!['.'];
    assert(!dot.contains('/')) by {
        assert(dot[0] == '.');
    }
    assert(seq!['.', '/'] + path =~= dot + seq!['/'] + path);
    lemma_names_add_up(dot, path);
    lemma_one_name(dot);
    assert(Seq::<Seq<char>>::empty() + names(path) =~= names(path));
}

/// A slash at the end, a doubled one and a dot between slashes make no difference
/// to a path.
pub proof fn lemma_spellings(a: Seq<char>, b: Seq<char>)
    requires
        a.len() > 0,
    ensures
        path_key(a + seq!['/']).names == names(a),
        path_key(a + seq!['/', '/'] + b).names == names(a + seq!['/'] + b),
        path_key(a + seq!['/', '.', '/'] + b).names == names(a + seq!['/'] + b),
{
    let none = Seq::<char>::empty();
    let dot = seq!['.'];
    assert(!dot.contains('/')) by {
        assert(dot[0] == '.');
    }
    lemma_one_name(none);
    lemma_one_name(dot);
    lemma_names_add_up(a, b);
    lemma_names_add_up(a, none);
    assert(a + seq!['/'] =~= a + seq!['/'] + none);
    assert(names(a) + Seq::<Seq<char>>::empty() =~= names(a));
    lemma_names_add_up(none, b);
    lemma_names_add_up(a, none + seq!['/'] + b);
    assert(a + seq!['/', '/'] + b =~= a + seq!['/'] + (none + seq!['/'] + b));
    lemma_names_add_up(dot, b);
    lemma_names_add_up(a, dot + seq!['/'] + b);
    assert(a + seq!['/', '.', '/'] + b =~= a + seq!['/'] + (dot + seq!['/'] + b));
    assert(Seq::<Seq<char>>::empty() + names(b) =~= names(b));
}

/// Seen from a directory, a path that starts at the root is itself, and any
/// other follows the directory after one slash.
pub proof fn lemma_joined(base: Seq<char>, part: Seq<char>)
    ensures
        joined(base, seq!['/'] + part, '/') == seq!['/'] + part,
        (part.len() == 0 || part[0] != '/') && base.len() > 0 && base.last() != '/' ==> joined(
            base,
            part,
            '/',
        ) == base + seq!['/'] + part,
        part.len() == 0 || part[0] != '/' ==> joined(base + seq!['/'], part, '/') == base + seq![
            '/',
        ] + part,
        joined(Seq::<char>::empty(), part, '/') == part,
{
    assert(base.push('/') + part =~= base + seq!['/'] + part);
    assert(Seq::<char>::empty() + part =~= part);
    assert((base + seq!['/']).last() == '/');
}

/// What is in `/etc` is what has that as its first name, from the root on.
pub proof fn lemma_in_etc(piece: Seq<char>, rest: Seq<char>)
    requires
        !piece.contains('/'),
        is_name(piece),
    ensures
        in_etc(seq!['/'] + piece) == (piece == seq!['e', 't', 'c']),
        in_etc(seq!['/'] + piece + seq!['/'] + rest) == (piece == seq!['e', 't', 'c']),
        !in_etc(piece),
        !in_etc(piece + seq!['/'] + rest),
{
    let none = Seq::<char>::empty();
    lemma_one_name(none);
    lemma_one_name(piece);
    lemma_names_add_up(none, piece);
    assert(none + seq!['/'] + piece =~= seq!['/'] + piece);
    assert(Seq::<Seq<char>>::empty() + seq![piece] =~= seq![piece]);
    lemma_names_add_up(seq!['/'] + piece, rest);
    assert(names(seq!['/'] + piece)[0] == piece);
    assert(names(seq!['/'] + piece + seq!['/'] + rest)[0] == piece);
    assert(piece[0] != '/') by {
        assert(piece.contains(piece[0]));
    }
    assert((piece + seq!['/'] + rest)[0] == piece[0]);
    assert((seq!['/'] + piece + seq!['/'] + rest)[0] == '/');
}

proof fn lemma_after_last(a: Seq<char>, c: char, b: Seq<char>)
    requires
        !b.contains(c),
    ensures
        after_last(a + seq![c] + b, c) == a.len() + 1,
        after_last(b, c) == 0,
    decreases b.len(),
{
    let whole = a + seq![c] + b;
    if b.len() > 0 {
        assert(b.contains(b.last()));
        assert(whole.last() == b.last());
        assert(whole.drop_last() =~= a + seq![c] + b.drop_last());
        assert(!b.drop_last().contains(c)) by {
            if b.drop_last().contains(c) {
                let i = choose|i: int| 0 <= i < b.len() - 1 && b.drop_last()[i] == c;
                assert(b[i] == c);
            }
        }
        lemma_after_last(a, c, b.drop_last());
    } else {
        assert(whole.last() == c);
    }
}

/// The extension of a file is what follows the last dot in its name, wherever
/// the file is, unless the name starts with that dot or has none.
pub proof fn lemma_extension(dir: Seq<char>, stem: Seq<char>, end: Seq<char>)
    requires
        !stem.contains('/'),
        !end.contains('/'),
        !end.contains('.'),
    ensures
        stem.len() > 0 && (end.len() > 0 || stem != seq!['.']) ==> extension(
            dir + seq!['/'] + (stem + seq!['.'] + end),
        ) == Some(end) && extension(stem + seq!['.'] + end) == Some(end),
        end.len() > 0 ==> extension(dir + seq!['/'] + end) is None && extension(end) is None
            && extension(dir + seq!['/'] + (seq!['.'] + end)) is None,
{
    let name = stem + seq!['.'] + end;
    assert(!name.contains('/')) by {
        if name.contains('/') {
            let i = choose|i: int| 0 <= i < name.len() && name[i] == '/';
            if i < stem.len() {
                assert(stem[i] == '/');
            } else if i > stem.len() {
                assert(end[i - stem.len() - 1] == '/');
            }
        }
    }
    lemma_after_last(stem, '.', end);
    lemma_one_name(name);
    lemma_names_add_up(dir, name);
    if stem.len() > 0 && (end.len() > 0 || stem != seq!['.']) {
        assert(name.len() > 1 && seq!['.'].len() == 1);
        assert(name != seq!['.', '.']) by {
            if name == seq!['.', '.'] {
                assert(name.len() == 2);
                if end.len() > 0 {
                    assert(name[1] == '.' && name[1] == end[end.len() - 1] || stem.len() == 0);
                    assert(end.contains(end[end.len() - 1]));
                } else {
                    assert(stem =~= seq!['.']);
                }
            }
        }
        assert(names(name).last() == name);
        assert(names(dir + seq!['/'] + name).last() == name);
        assert(name.skip(stem.len() as int + 1) =~= end);
    }
    if end.len() > 0 {
        assert(end.contains(end[0]));
        assert(end != seq!['.']);
        lemma_one_name(end);
        lemma_names_add_up(dir, end);
        assert(names(end).last() == end);
        assert(names(dir + seq!['/'] + end).last() == end);
        let none = Seq::<char>::empty();
        let hidden = seq!['.'] + end;
        assert(hidden =~= none + seq!['.'] + end);
        assert(!hidden.contains('/')) by {
            if hidden.contains('/') {
                let i = choose|i: int| 0 <= i < hidden.len() && hidden[i] == '/';
                assert(end[i - 1] == '/');
            }
        }
        assert(hidden.len() > 1);
        lemma_after_last(none, '.', end);
        lemma_one_name(hidden);
        lemma_names_add_up(dir, hidden);
        assert(names(dir + seq!['/'] + hidden).last() == hidden);
    }
}

/// A file is an RPM package if what follows the last dot in its name is `rpm`, in
/// whatever case, and only then.
pub proof fn lemma_rpm_path(dir: Seq<char>, stem: Seq<char>, end: Seq<char>)
    requires
        !stem.contains('/'),
        !end.contains('/'),
        !end.contains('.'),
        stem.len() > 0,
        end.len() > 0,
    ensures
        is_rpm_path(dir + seq!['/'] + (stem + seq!['.'] + end)) == same_ignoring_case(
            end,
            seq!['r', 'p', 'm'],
        ),
        is_rpm_path(stem + seq!['.'] + end) == same_ignoring_case(end, seq!['r', 'p', 'm']),
        !is_rpm_path(dir + seq!['/'] + end),
        !is_rpm_path(dir + seq!['/'] + (seq!['.'] + end)),
{
    lemma_extension(dir, stem, end);
    reveal_strlit("rpm");
    assert("rpm"@ =~= seq!['r', 'p', 'm']);
}

/// Bytes are read as characters one by one.
pub proof fn lemma_bytes_are_characters(bytes: Seq<u8>, more: Seq<u8>, byte: u8)
    ensures
        byte_chars(bytes + more) == byte_chars(bytes) + byte_chars(more),
        byte_chars(seq![byte]) == seq![byte as char],
{
    assert(byte_chars(bytes + more) =~= byte_chars(bytes) + byte_chars(more));
    assert(byte_chars(seq![byte]) =~= seq![byte as char]);
}

/// A table finds the value of an entry under any spelling of its path, and nothing
/// for a path that it has no entry for.
pub proof fn lemma_table_finds<V>(entries: Seq<(Seq<char>, V)>, i: int, path: Seq<char>)
    requires
        distinct(entries),
        0 <= i < entries.len(),
    ensures
        path_key(path) == path_key(entries[i].0) ==> lookup(entries, path) == Some(entries[i].1),
        (forall|j: int|
            0 <= j < entries.len() ==> path_key((#[trigger] entries[j]).0) != path_key(path))
            ==> lookup(entries, path) is None,
{
    if path_key(path) == path_key(entries[i].0) {
        assert forall|j: int| 0 <= j < i implies path_key((#[trigger] entries[j]).0) != path_key(
            path,
        ) by {
            assert(path_key(entries[j].0) != path_key(entries[i].0));
        }
        lemma_position(entries, path, i);
    }
    if forall|j: int|
        0 <= j < entries.len() ==> path_key((#[trigger] entries[j]).0) != path_key(path) {
        lemma_position(entries, path, entries.len() as int);
    }
}

/// Storing a value leaves the entries for other paths where they are, and adds an
/// entry, at the end, exactly if there was none for the path.
pub proof fn lemma_table_keeps_order<V>(
    entries: Seq<(Seq<char>, V)>,
    path: Seq<char>,
    value: V,
    i: int,
)
    requires
        0 <= i < entries.len(),
    ensures
        path_key(entries[i].0) != path_key(path) ==> stored(entries, path, value)[i] == entries[i],
        stored(entries, path, value)[i].0 == entries[i].0,
        lookup(entries, path) is None ==> stored(entries, path, value) == entries.push(
            (path, value),
        ),
        lookup(entries, path) is Some ==> stored(entries, path, value).len() == entries.len(),
{
    lemma_position_found(entries, path);
}

/// Whether a path starts with a dot as its first piece.
pub proof fn lemma_dotted(path: Seq<char>)
    ensures
        path_key(seq!['.']).dotted,
        path_key(seq!['.', '/'] + path).dotted,
        path.len() == 0 || path[0] != '.' ==> !path_key(path).dotted,
        path.len() > 1 && path[0] == '.' && path[1] != '/' ==> !path_key(path).dotted,
{
    let dot = seq!['.'];
    assert(!dot.contains('/')) by {
        assert(dot[0] == '.');
    }
    lemma_one_piece(dot, '/');
    assert(seq!['.', '/'] + path =~= dot + seq!['/'] + path);
    lemma_pieces_add_up(dot, '/', path);
    let n = first_index(path, '/') as int;
    lemma_first_index_is(path, '/');
    let first = split(path, '/')[0];
    assert(first == path.take(n)) by {
        assert(path.take(path.len() as int) =~= path);
    }
    if first == dot {
        assert(first.len() == 1);
        assert(path[0] == first[0]);
        assert(path.len() > 1 ==> path[1] == '/');
    }
}

/// What is in `/etc` starts at the root and has that as its first name, however it
/// is spelled.
pub proof fn lemma_in_etc_by_names(path: Seq<char>)
    ensures
        in_etc(path) <==> path.len() > 0 && path[0] == '/' && names(path).len() > 0 && names(path)[0]
            == seq!['e', 't', 'c'],
{
}

/// A slash or a dot at the end makes no difference to the extension of a file, and
/// a path that leads to a parent has none.
pub proof fn lemma_extension_at_end(path: Seq<char>)
    ensures
        extension(path + seq!['/']) == extension(path),
        extension(path + seq!['/', '.']) == extension(path),
        extension(path + seq!['/', '.', '.']) is None,
{
    let none = Seq::<char>::empty();
    let dot = seq!['.'];
    let up = seq!['.', '.'];
    assert(!dot.contains('/')) by {
        assert(dot[0] == '.');
    }
    assert(!up.contains('/')) by {
        assert(up[0] == '.' && up[1] == '.');
    }
    assert(up.len() == 2 && dot.len() == 1);
    lemma_one_name(none);
    lemma_one_name(dot);
    lemma_one_name(up);
    lemma_names_add_up(path, none);
    lemma_names_add_up(path, dot);
    lemma_names_add_up(path, up);
    assert(path + seq!['/'] =~= path + seq!['/'] + none);
    assert(path + seq!['/', '.'] =~= path + seq!['/'] + dot);
    assert(path + seq!['/', '.', '.'] =~= path + seq!['/'] + up);
    assert(names(path) + Seq::<Seq<char>>::empty() =~= names(path));
    assert((names(path) + seq![up]).last() == up);
}

/// Names lead from a directory one after the other.
pub proof fn lemma_walk(dir: Seq<char>, steps: Seq<Seq<char>>, step: Seq<char>, path: Seq<char>)
    ensures
        walked(dir, Seq::<Seq<char>>::empty()) == dir,
        walked(dir, steps.push(step)) == joined(walked(dir, steps), step, '/'),
        names(path) == steps ==> below(dir, path) == walked(dir, steps),
{
    assert(steps.push(step).drop_last() =~= steps);
}

/// A path that starts at the root is in no place of one that does not.
pub proof fn lemma_root_makes_a_place(a: Seq<char>, b: Seq<char>)
    requires
        b.len() == 0 || b[0] != '/',
    ensures
        place(seq!['/'] + a) != place(b),
        place(a) == place(b) ==> names(a) == names(b),
{
    assert((seq!['/'] + a)[0] == '/');
}

} // verus!
