//! What holds of unpacking an RPM package.
use vstd::prelude::*;

use crate::laws::text::{lemma_lines, lemma_one_piece, lemma_pieces_add_up};
use crate::path::{lemma_names_have_no_slash, names, path_key, place, walked};
use crate::rpm::unpacking::{
    destinations, entries_in, entry_in, gets_default_mode, has_place, lemma_other_files_unchanged,
    listed_entries, modes_after, owners_after, relocated, waiting, EntryView, Seen,
};
use crate::table::{lemma_stored_lookup, lookup, stored};
use crate::text::{is_one_line, lines, split, u32_value};

verus! {

/// Whether a text has no space in it, and so can be a field of a line.
pub open spec fn is_field(s: Seq<char>) -> bool {
    !s.contains(' ')
}

proof fn lemma_four_fields(
    number: Seq<char>,
    owner: Seq<char>,
    group: Seq<char>,
    file: Seq<char>,
    rest: Seq<char>,
)
    requires
        is_field(number),
        is_field(owner),
        is_field(group),
        is_field(file),
        rest.len() > 0 ==> rest[0] == ' ',
    ensures
        ({
            let line = number + seq![' '] + owner + seq![' '] + group + seq![' '] + file + rest;
            let fields = split(line, ' ');
            &&& fields.len() >= 4
            &&& fields[0] == number
            &&& fields[1] == owner
            &&& fields[2] == group
            &&& fields[3] == file
        }),
{
    let sp = seq![' '];
    let line = number + sp + owner + sp + group + sp + file + rest;
    let last = file + rest;
    assert(line =~= number + sp + (owner + sp + (group + sp + last)));
    lemma_one_piece(number, ' ');
    lemma_one_piece(owner, ' ');
    lemma_one_piece(group, ' ');
    lemma_one_piece(file, ' ');
    lemma_pieces_add_up(number, ' ', owner + sp + (group + sp + last));
    lemma_pieces_add_up(owner, ' ', group + sp + last);
    lemma_pieces_add_up(group, ' ', last);
    if rest.len() > 0 {
        assert(last =~= file + sp + rest.skip(1));
        lemma_pieces_add_up(file, ' ', rest.skip(1));
    } else {
        assert(last =~= file);
    }
    assert(split(last, ' ')[0] == file);
}

/// Every line with a number and three more fields is the entry of a file,
/// whatever kind of file the number says it is: the fields after the number are
/// owner, group and file, and the permissions are what the number has below the
/// kind. Further fields make no difference.
pub proof fn lemma_line_is_entry(
    number: Seq<char>,
    owner: Seq<char>,
    group: Seq<char>,
    file: Seq<char>,
    rest: Seq<char>,
    kind: u32,
    mode: u32,
)
    requires
        is_field(number),
        is_field(owner),
        is_field(group),
        is_field(file),
        rest.len() > 0 ==> rest[0] == ' ',
        mode < 0o10000,
        u32_value(number) is Some,
        u32_value(number).unwrap() == kind * 0o10000 + mode,
    ensures
        entry_in(number + seq![' '] + owner + seq![' '] + group + seq![' '] + file + rest) == Ok::<
            Option<EntryView>,
            Seq<char>,
        >(Some(EntryView { mode, owner, group, file })),
{
    lemma_four_fields(number, owner, group, file, rest);
    assert((kind * 0o10000 + mode) % 0o10000 == mode);
}

/// A line with four fields of which the first is no number is refused for it.
pub proof fn lemma_line_is_refused(
    number: Seq<char>,
    owner: Seq<char>,
    group: Seq<char>,
    file: Seq<char>,
    rest: Seq<char>,
)
    requires
        is_field(number),
        is_field(owner),
        is_field(group),
        is_field(file),
        rest.len() > 0 ==> rest[0] == ' ',
        u32_value(number) is None,
    ensures
        entry_in(number + seq![' '] + owner + seq![' '] + group + seq![' '] + file + rest) == Err::<
            Option<EntryView>,
            Seq<char>,
        >(number),
{
    lemma_four_fields(number, owner, group, file, rest);
}

/// A line with fewer fields is no entry, and is not refused either.
pub proof fn lemma_short_line(a: Seq<char>, b: Seq<char>, c: Seq<char>)
    requires
        is_field(a),
        is_field(b),
        is_field(c),
    ensures
        entry_in(a) == Ok::<Option<EntryView>, Seq<char>>(None),
        entry_in(a + seq![' '] + b) == Ok::<Option<EntryView>, Seq<char>>(None),
        entry_in(a + seq![' '] + b + seq![' '] + c) == Ok::<Option<EntryView>, Seq<char>>(None),
{
    lemma_one_piece(a, ' ');
    lemma_one_piece(b, ' ');
    lemma_one_piece(c, ' ');
    lemma_pieces_add_up(a, ' ', b);
    lemma_pieces_add_up(b, ' ', c);
    lemma_pieces_add_up(a, ' ', b + seq![' '] + c);
    assert(a + seq![' '] + b + seq![' '] + c =~= a + seq![' '] + (b + seq![' '] + c));
}

/// What a list says is what its lines say, one after the other, up to the first
/// that is refused.
pub proof fn lemma_list_adds_up(all: Seq<Seq<char>>, more: Seq<Seq<char>>, line: Seq<char>)
    ensures
        entries_in(all).1 is None ==> entries_in(all + more) == (
            entries_in(all).0 + entries_in(more).0,
            entries_in(more).1,
        ),
        entries_in(all).1 is Some ==> entries_in(all + more) == entries_in(all),
        entries_in(seq![line]) == (match entry_in(line) {
            Ok(Some(e)) => (seq![e], None::<Seq<char>>),
            Ok(None) => (Seq::<EntryView>::empty(), None::<Seq<char>>),
            Err(number) => (Seq::<EntryView>::empty(), Some(number)),
        }),
    decreases more.len(),
{
    let none = Seq::<EntryView>::empty();
    assert(seq![line].drop_last() =~= Seq::<Seq<char>>::empty());
    assert(entries_in(Seq::<Seq<char>>::empty()) == (none, None::<Seq<char>>));
    if let Ok(Some(e)) = entry_in(line) {
        assert(none.push(e) =~= seq![e]);
    }
    if more.len() == 0 {
        assert(all + more =~= all);
        assert(entries_in(all).0 + entries_in(more).0 =~= entries_in(all).0);
    } else {
        lemma_list_adds_up(all, more.drop_last(), line);
        assert((all + more).drop_last() =~= all + more.drop_last());
        assert((all + more).last() == more.last());
        if entries_in(all).1 is None {
            assert(entries_in(all + more).0 =~= entries_in(all).0 + entries_in(more).0);
        }
    }
}

/// A list all of whose lines are entries has as many entries as lines, each
/// from its line.
pub proof fn lemma_every_line_counts(all: Seq<Seq<char>>)
    requires
        forall|i: int|
            0 <= i < all.len() ==> (#[trigger] entry_in(all[i]) matches Ok(e) && e is Some),
    ensures
        entries_in(all).1 is None,
        entries_in(all).0.len() == all.len(),
        forall|i: int|
            0 <= i < all.len() ==> entry_in(#[trigger] all[i]) == Ok::<
                Option<EntryView>,
                Seq<char>,
            >(Some(entries_in(all).0[i])),
    decreases all.len(),
{
    if all.len() > 0 {
        let before = all.drop_last();
        assert forall|i: int| 0 <= i < before.len() implies (#[trigger] entry_in(
            before[i],
        ) matches Ok(e) && e is Some) by {
            assert(entry_in(all[i]) matches Ok(e) && e is Some);
        }
        lemma_every_line_counts(before);
        assert(entry_in(all[all.len() - 1]) matches Ok(e) && e is Some);
        assert forall|i: int| 0 <= i < all.len() implies entry_in(#[trigger] all[i]) == Ok::<
            Option<EntryView>,
            Seq<char>,
        >(Some(entries_in(all).0[i])) by {
            if i < before.len() {
                assert(before[i] == all[i]);
            }
        }
    }
}

/// What waits for a file after it was looked at: an owner that is not root's
/// takes the place of what waited before, a group that is not root's is added
/// to it after a colon, and otherwise what waited goes on waiting.
pub proof fn lemma_owner_after_look(
    owners: Seq<(Seq<char>, Seq<char>)>,
    file: Seq<char>,
    owner: Seq<char>,
    group: Seq<char>,
)
    ensures
        lookup(owners_after(owners, file, None, None), file) == lookup(owners, file),
        lookup(owners_after(owners, file, Some(owner), None), file) == Some(owner),
        lookup(owners_after(owners, file, Some(owner), Some(group)), file) == Some(
            owner + seq![':'] + group,
        ),
        lookup(owners, file) is None ==> lookup(
            owners_after(owners, file, None, Some(group)),
            file,
        ) == Some(seq![':'] + group),
        lookup(owners, file) matches Some(before) ==> lookup(
            owners_after(owners, file, None, Some(group)),
            file,
        ) == Some(before + seq![':'] + group),
{
    lemma_stored_lookup(owners, file, owner, file);
    let owned = stored(owners, file, owner);
    lemma_stored_lookup(owned, file, owner + seq![':'] + group, file);
    let text = lookup(owners, file).unwrap_or(seq![]) + seq![':'] + group;
    lemma_stored_lookup(owners, file, text, file);
    if lookup(owners, file) is None {
        assert(text =~= seq![':'] + group);
    }
}

/// A mode waits for a file exactly if an owner waits for it and the mode has one
/// of the three special bits above the nine permissions; otherwise what waited
/// goes on waiting.
pub proof fn lemma_mode_after_look(
    owners: Seq<(Seq<char>, Seq<char>)>,
    modes: Seq<(Seq<char>, u32)>,
    file: Seq<char>,
    kind: u32,
    special: u32,
    low: u32,
    mode: u32,
)
    requires
        low < 0o1000,
        special < 8,
        mode == kind * 0o10000 + special * 0o1000 + low,
    ensures
        special > 0 && lookup(owners, file) is Some ==> lookup(
            modes_after(modes, owners, file, mode),
            file,
        ) == Some(mode),
        special == 0 || lookup(owners, file) is None ==> modes_after(modes, owners, file, mode)
            == modes,
{
    lemma_stored_lookup(modes, file, mode, file);
    assert((kind * 0o10000 + special * 0o1000 + low) / 0o1000 % 8 == special);
}

/// Over a whole list of files, what waits for a file that is in it once: nothing
/// if owner and group are root's, the owner if it is not, a colon and the group
/// if that is not, and the mode if something waits and it has special bits.
pub proof fn lemma_what_waits(list: Seq<Seen>, i: int, kind: u32, special: u32, low: u32)
    requires
        0 <= i < list.len(),
        forall|j: int|
            0 <= j < list.len() && j != i ==> path_key((#[trigger] list[j]).file) != path_key(
                list[i].file,
            ),
        low < 0o1000,
        special < 8,
        list[i].mode == kind * 0o10000 + special * 0o1000 + low,
    ensures
        lookup(waiting(list).0, list[i].file) == (match (list[i].owner, list[i].group) {
            (None, None) => None,
            (Some(o), None) => Some(o),
            (None, Some(g)) => Some(seq![':'] + g),
            (Some(o), Some(g)) => Some(o + seq![':'] + g),
        }),
        lookup(waiting(list).1, list[i].file) == (if special > 0 && (list[i].owner is Some
            || list[i].group is Some) {
            Some(list[i].mode)
        } else {
            None
        }),
    decreases list.len(),
{
    let (owners, modes) = waiting(list.drop_last());
    let seen = list.last();
    if i == list.len() - 1 {
        lemma_nothing_waits(list.drop_last(), seen.file);
        let o = seen.owner.unwrap_or(seq![]);
        let g = seen.group.unwrap_or(seq![]);
        lemma_owner_after_look(owners, seen.file, o, g);
        let owned = owners_after(owners, seen.file, seen.owner, seen.group);
        lemma_mode_after_look(owned, modes, seen.file, kind, special, low, seen.mode);
    } else {
        lemma_what_waits(list.drop_last(), i, kind, special, low);
        lemma_other_files_unchanged(
            owners,
            modes,
            seen.file,
            seen.owner,
            seen.group,
            seen.mode,
            list[i].file,
        );
    }
}

/// Over a whole list of files, nothing waits for a file that is not in it.
pub proof fn lemma_nothing_waits(list: Seq<Seen>, file: Seq<char>)
    requires
        forall|i: int| 0 <= i < list.len() ==> path_key((#[trigger] list[i]).file) != path_key(file),
    ensures
        lookup(waiting(list).0, file) is None,
        lookup(waiting(list).1, file) is None,
    decreases list.len(),
{
    if list.len() > 0 {
        let (owners, modes) = waiting(list.drop_last());
        let seen = list.last();
        lemma_nothing_waits(list.drop_last(), file);
        lemma_other_files_unchanged(
            owners,
            modes,
            seen.file,
            seen.owner,
            seen.group,
            seen.mode,
            file,
        );
    }
}

/// The directories on the way to a path lie one in the other, each a name
/// further, from the directory that the package is unpacked in, and there are as
/// many as names.
pub proof fn lemma_way_goes_name_by_name(work_dir: Seq<char>, path: Seq<char>, i: int)
    requires
        work_dir.len() > 0,
        work_dir.last() != '/',
        0 <= i < names(path).len(),
    ensures
        destinations(work_dir, path).len() == names(path).len(),
        destinations(work_dir, path)[i] == (if i == 0 {
            work_dir
        } else {
            destinations(work_dir, path)[i - 1]
        }) + seq!['/'] + names(path)[i],
        destinations(work_dir, path)[i].last() != '/',
    decreases i,
{
    let all = names(path);
    let name = all[i];
    lemma_names_have_no_slash(path, i);
    assert(name.contains(name[0]));
    assert(name.contains(name.last()));
    let steps = all.take(i + 1);
    assert(steps.drop_last() =~= all.take(i));
    assert(steps.last() == name);
    let before = walked(work_dir, all.take(i));
    if i > 0 {
        lemma_way_goes_name_by_name(work_dir, path, i - 1);
        assert(all.take(i - 1 + 1) =~= all.take(i));
    } else {
        assert(before == work_dir);
    }
    assert(before.push('/') + name =~= before + seq!['/'] + name);
}

/// What an archive lists, in the same words or after a dot and a slash, is
/// listed.
pub proof fn lemma_listed(listed: Seq<Seq<char>>, i: int, path: Seq<char>)
    requires
        0 <= i < listed.len(),
        listed[i] == path || (listed[i] == seq!['.', '/'] + path && path.len() > 0 && path[0]
            != '/'),
    ensures
        has_place(listed, path),
{
    if listed[i] != path {
        crate::laws::path::lemma_dot_makes_no_place(path);
    }
    assert(place(listed[i]) == place(path));
}

/// What has other names than everything that an archive lists is not listed.
pub proof fn lemma_not_listed(listed: Seq<Seq<char>>, path: Seq<char>)
    requires
        forall|i: int| 0 <= i < listed.len() ==> names(#[trigger] listed[i]) != names(path),
    ensures
        !has_place(listed, path),
{
    assert forall|i: int| 0 <= i < listed.len() implies place(#[trigger] listed[i]) != place(
        path,
    ) by {
        assert(names(listed[i]) != names(path));
    }
}

/// A list is read line by line: an entry at its start comes first, before those
/// of the rest, a line with too few fields makes no difference, and one that is
/// refused ends it.
pub proof fn lemma_list_line_by_line(line: Seq<char>, rest: Seq<char>)
    requires
        is_one_line(line),
        line.len() == 0 || line.last() != '\r',
    ensures
        listed_entries(Seq::<char>::empty()) == (Seq::<EntryView>::empty(), None::<Seq<char>>),
        match entry_in(line) {
            Ok(Some(e)) => listed_entries(line + seq!['\n'] + rest) == (
                seq![e] + listed_entries(rest).0,
                listed_entries(rest).1,
            ),
            Ok(None) => listed_entries(line + seq!['\n'] + rest) == listed_entries(rest),
            Err(number) => listed_entries(line + seq!['\n'] + rest) == (
                Seq::<EntryView>::empty(),
                Some(number),
            ),
        },
{
    lemma_lines(line, rest);
    lemma_list_adds_up(seq![line], lines(rest), line);
    let none = Seq::<EntryView>::empty();
    assert(none + listed_entries(rest).0 =~= listed_entries(rest).0);
}

/// Default permissions go to every directory that is not listed, and to nothing
/// else: not to what is listed, not to a link and not to a plain file.
pub proof fn lemma_who_gets_default_mode(
    listed: Seq<Seq<char>>,
    path: Seq<char>,
    is_directory: bool,
    is_symlink: bool,
)
    ensures
        (forall|i: int| 0 <= i < listed.len() ==> names(#[trigger] listed[i]) != names(path))
            ==> gets_default_mode(listed, Some(path), true, false),
        gets_default_mode(listed, None, true, false),
        !gets_default_mode(listed, Some(path), false, is_symlink),
        !gets_default_mode(listed, Some(path), is_directory, true),
        listed.contains(path) ==> !gets_default_mode(listed, Some(path), is_directory, is_symlink),
{
    if forall|i: int| 0 <= i < listed.len() ==> names(#[trigger] listed[i]) != names(path) {
        lemma_not_listed(listed, path);
    }
    if listed.contains(path) {
        let i = choose|i: int| 0 <= i < listed.len() && listed[i] == path;
        lemma_listed(listed, i, path);
    }
}

/// Every configuration file of a relocated package is the one it was, seen from
/// the prefix: one that starts at the root stays, any other follows the prefix
/// after a slash. Without a prefix they all stay.
pub proof fn lemma_conffiles_are_relocated(
    prefix: Seq<char>,
    conffiles: Seq<Seq<char>>,
    i: int,
)
    requires
        0 <= i < conffiles.len(),
        prefix.len() > 0,
        prefix.last() != '/',
    ensures
        relocated(None, conffiles) == conffiles,
        relocated(Some(prefix), conffiles).len() == conffiles.len(),
        conffiles[i].len() > 0 && conffiles[i][0] == '/' ==> relocated(Some(prefix), conffiles)[i]
            == conffiles[i],
        conffiles[i].len() == 0 || conffiles[i][0] != '/' ==> relocated(Some(prefix), conffiles)[i]
            == prefix + seq!['/'] + conffiles[i],
{
    assert(prefix.push('/') + conffiles[i] =~= prefix + seq!['/'] + conffiles[i]);
}

} // verus!
