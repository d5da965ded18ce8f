//! What holds of everything that is made fit for a Debian package.
use vstd::prelude::*;

use crate::deb::patches::{first_readable, next_match, Match};
use crate::deb::writer::{changelog_text, quoted_inside};
use crate::deb::{
    conversion_note, cut_line, debian_description, debian_release, debian_version,
    description_line, description_lines, is_version_char, parentheses_in_order, version_in,
    without_leading_blanks,
};
use crate::package::InfoView;
use crate::path::{
    is_name, joined, lemma_names_joined, lemma_two_names, names, path_key,
};
use crate::table::{lemma_stored_lookup, lookup, stored};
use crate::text::{
    first_index, is_digit, is_one_line, is_white, lemma_first_index, lemma_first_index_is,
    lemma_lines_after, lemma_single_line, lines, replaced,
    trimmed_end, u32_value, without_cr, without_plus,
};

verus! {

/// A Debian version starts with a digit and has only characters in it that a
/// version may have.
pub proof fn lemma_debian_version_valid(version: Seq<char>)
    ensures
        debian_version(version).len() > 0,
        is_digit(debian_version(version)[0]),
        forall|i: int|
            0 <= i < debian_version(version).len() ==> is_version_char(
                #[trigger] debian_version(version)[i],
            ),
{
    let valid = |c: char| is_version_char(c);
    let kept = version.filter(valid);
    assert forall|i: int| 0 <= i < kept.len() implies is_version_char(#[trigger] kept[i]) by {
        version.lemma_filter_pred(valid, i);
    }
    if version.len() > 0 && is_digit(version[0]) {
        let rest = version.skip(1);
        assert(version =~= seq![version[0]] + rest);
        Seq::filter_distributes_over_add(seq![version[0]], rest, valid);
        let first = seq![version[0]];
        assert(first =~= Seq::<char>::empty().push(version[0]));
        Seq::<char>::empty().lemma_filter_push(version[0], valid);
        assert(Seq::<char>::empty().filter(valid) =~= Seq::<char>::empty());
        assert(first.filter(valid) =~= first);
        assert(kept =~= first + rest.filter(valid));
        assert(kept[0] == version[0]);
    } else {
        let all = seq!['0'] + kept;
        assert forall|i: int| 0 <= i < all.len() implies is_version_char(#[trigger] all[i]) by {
            if i > 0 {
                assert(all[i] == kept[i - 1]);
            }
        }
    }
}

/// Filtering what passes keeps it all.
proof fn lemma_filter_all(s: Seq<char>, pred: spec_fn(char) -> bool)
    requires
        forall|i: int| 0 <= i < s.len() ==> pred(#[trigger] s[i]),
    ensures
        s.filter(pred) == s,
    decreases s.len(),
{
    reveal(Seq::filter);
    if s.len() > 0 {
        lemma_filter_all(s.drop_last(), pred);
        assert(s.drop_last().push(s.last()) =~= s);
    } else {
        assert(s.filter(pred) =~= s);
    }
}

/// A Debian version stays as it is.
pub proof fn lemma_debian_version_idempotent(version: Seq<char>)
    ensures
        debian_version(debian_version(version)) == debian_version(version),
{
    lemma_debian_version_valid(version);
    lemma_filter_all(debian_version(version), |c: char| is_version_char(c));
}

/// A Debian release has a digit in it.
pub proof fn lemma_debian_release_has_digit(release: Seq<char>)
    ensures
        exists|i: int|
            0 <= i < debian_release(release).len() && is_digit(#[trigger] debian_release(release)[i]),
{
    let result = debian_release(release);
    if u32_value(release) is None {
        reveal_strlit("-1");
        assert(result[release.len() as int + 1] == '1');
        assert(is_digit(result[release.len() as int + 1]));
    } else {
        let digits = without_plus(release);
        assert(is_digit(digits[0]));
        if release[0] == '+' {
            assert(release[1] == digits[0]);
            assert(is_digit(result[1]));
        } else {
            assert(is_digit(result[0]));
        }
    }
}

/// A line has no line feed in it.
proof fn lemma_lines_are_lines(s: Seq<char>)
    ensures
        forall|i: int| 0 <= i < lines(s).len() ==> is_one_line(#[trigger] lines(s)[i]),
    decreases s.len(),
{
    let n = first_index(s, '\n') as int;
    lemma_first_index_is(s, '\n');
    if s.len() > 0 && n < s.len() {
        let head = without_cr(s.take(n));
        let rest = s.skip(n + 1);
        lemma_lines_are_lines(rest);
        assert forall|i: int| 0 <= i < lines(s).len() implies is_one_line(
            #[trigger] lines(s)[i],
        ) by {
            if i > 0 {
                assert(lines(s)[i] == lines(rest)[i - 1]);
            } else {
                assert(lines(s)[0] == head);
            }
        }
    }
}

/// Replacing by a single line makes no further lines.
proof fn lemma_replaced_one_line(s: Seq<char>, c: char, with: Seq<char>)
    requires
        is_one_line(s),
        is_one_line(with),
    ensures
        is_one_line(replaced(s, c, with)),
    decreases s.len(),
{
    if s.len() > 0 {
        lemma_replaced_one_line(s.drop_last(), c, with);
    }
}

/// Trimming makes no further lines, and leaves no white space at the end.
proof fn lemma_trimmed_one_line(s: Seq<char>)
    requires
        is_one_line(s),
    ensures
        is_one_line(trimmed_end(s)),
        trimmed_end(s).len() > 0 ==> !is_white(trimmed_end(s).last()),
    decreases s.len(),
{
    if s.len() > 0 && is_white(s.last()) {
        lemma_trimmed_one_line(s.drop_last());
    }
}

/// What stands on a line of a Debian description is a single line that does
/// not end in white space and is not empty.
proof fn lemma_description_line(line: Seq<char>)
    requires
        is_one_line(line),
    ensures
        is_one_line(description_line(line)),
        description_line(line).len() > 0,
        !is_white(description_line(line).last()),
{
    reveal_strlit("        ");
    lemma_replaced_one_line(line, '\t', "        "@);
    lemma_trimmed_one_line(replaced(line, '\t', "        "@));
}

/// The lines of a description, each after a space.
pub open spec fn spaced_lines(all: Seq<Seq<char>>) -> Seq<Seq<char>> {
    all.map_values(|line: Seq<char>| seq![' '] + description_line(line))
}

proof fn lemma_description_lines(all: Seq<Seq<char>>, rest: Seq<char>)
    requires
        forall|i: int| 0 <= i < all.len() ==> is_one_line(#[trigger] all[i]),
    ensures
        lines(description_lines(all) + rest) == spaced_lines(all) + lines(rest),
    decreases all.len(),
{
    if all.len() == 0 {
        assert(description_lines(all) + rest =~= rest);
        assert(spaced_lines(all) + lines(rest) =~= lines(rest));
    } else {
        let before = all.drop_last();
        let line = all.last();
        let spaced = seq![' '] + description_line(line);
        lemma_description_line(line);
        assert(spaced.last() == description_line(line).last());
        lemma_lines_after(spaced, rest);
        lemma_description_lines(before, spaced + seq!['\n'] + rest);
        assert(description_lines(all) + rest =~= description_lines(before) + (spaced + seq!['\n']
            + rest));
        assert(spaced_lines(before) + (seq![spaced] + lines(rest)) =~= spaced_lines(all) + lines(
            rest,
        ));
    }
}

/// Leaving out leading blank lines leaves the end of the lines, which does not
/// start with a blank line.
proof fn lemma_without_leading_blanks(all: Seq<Seq<char>>) -> (n: int)
    ensures
        0 <= n <= all.len(),
        without_leading_blanks(all) == all.skip(n),
        n < all.len() ==> cut_line(all[n]).len() > 0,
        forall|i: int| 0 <= i < n ==> cut_line(#[trigger] all[i]).len() == 0,
    decreases all.len(),
{
    if all.len() > 0 && cut_line(all[0]).len() == 0 {
        let m = lemma_without_leading_blanks(all.skip(1));
        assert(all.skip(1).skip(m) =~= all.skip(m + 1));
        assert forall|i: int| 0 <= i < m + 1 implies cut_line(#[trigger] all[i]).len() == 0 by {
            if i > 0 {
                assert(all.skip(1)[i - 1] == all[i]);
            }
        }
        m + 1
    } else {
        assert(all.skip(0) =~= all);
        0
    }
}

/// A Debian description does not start with a blank line.
pub proof fn lemma_no_leading_blank(description: Seq<char>)
    ensures
        without_leading_blanks(lines(description)).len() > 0 ==> cut_line(
            without_leading_blanks(lines(description))[0],
        ).len() > 0,
{
    let n = lemma_without_leading_blanks(lines(description));
}

/// The lines of a Debian description are those of the description it is made
/// of, from the first that is not blank on, each after a space and with a dot
/// where it was empty, a line with a dot alone, unless there are no such lines,
/// and the note on where the package comes from. The note is a single line if
/// what goes into it is.
pub proof fn lemma_debian_description_lines(
    description: Seq<char>,
    format: Seq<char>,
    alien_version: Seq<char>,
)
    requires
        is_one_line(format),
        is_one_line(alien_version),
    ensures
        lines(debian_description(description, format, alien_version)) == spaced_lines(
            without_leading_blanks(lines(description)),
        ) + (if without_leading_blanks(lines(description)).len() > 0 {
            seq![seq![' ', '.']]
        } else {
            seq![]
        }) + seq![conversion_note(format, alien_version)],
{
    let all = without_leading_blanks(lines(description));
    let note = conversion_note(format, alien_version);
    reveal_strlit(" (Converted from a ");
    reveal_strlit(" package by alien version ");
    reveal_strlit(".)");
    reveal_strlit(" .\n");
    assert(is_one_line(note));
    lemma_single_line(note);
    lemma_kept_lines_are_lines(description);
    if all.len() > 0 {
        let dot = seq![' ', '.'];
        assert(" .\n"@ =~= dot + seq!['\n']);
        lemma_lines_after(dot, note);
        lemma_description_lines(all, " .\n"@ + note);
        assert(description_lines(all).len() > 0);
        assert(description_lines(all) + " .\n"@ + note =~= description_lines(all) + (" .\n"@
            + note));
        assert(" .\n"@ + note =~= dot + seq!['\n'] + note);
        assert(spaced_lines(all) + (seq![dot] + seq![note]) =~= spaced_lines(all) + seq![dot]
            + seq![note]);
    } else {
        lemma_description_lines(all, note);
        assert(spaced_lines(all) + seq![note] =~= spaced_lines(all) + seq![] + seq![note]);
    }
}

proof fn lemma_kept_lines_are_lines(s: Seq<char>)
    ensures
        forall|i: int|
            0 <= i < without_leading_blanks(lines(s)).len() ==> is_one_line(
                #[trigger] without_leading_blanks(lines(s))[i],
            ),
{
    lemma_lines_are_lines(s);
    let n = lemma_without_leading_blanks(lines(s));
    let kept = without_leading_blanks(lines(s));
    assert forall|i: int| 0 <= i < kept.len() implies is_one_line(#[trigger] kept[i]) by {
        assert(kept[i] == lines(s)[n + i]);
    }
}

/// Every line of a Debian description starts with a space and has something
/// after it.
pub proof fn lemma_debian_description_indented(
    description: Seq<char>,
    format: Seq<char>,
    alien_version: Seq<char>,
    i: int,
)
    requires
        is_one_line(format),
        is_one_line(alien_version),
        0 <= i < lines(debian_description(description, format, alien_version)).len(),
    ensures
        lines(debian_description(description, format, alien_version))[i].len() > 1,
        lines(debian_description(description, format, alien_version))[i][0] == ' ',
{
    lemma_debian_description_lines(description, format, alien_version);
    lemma_kept_lines_are_lines(description);
    reveal_strlit(" (Converted from a ");
    let all = without_leading_blanks(lines(description));
    if i < all.len() {
        lemma_description_line(all[i]);
    } else {
        assert(conversion_note(format, alien_version)[0] == ' ');
    }
}

/// How far a shell has read into a word that is made of quoted pieces.
#[derive(PartialEq, Eq, Structural)]
pub enum Quoting {
    Outside,
    InSingle,
    InDouble,
}

/// What a shell makes of the start of a word that is made of pieces in single
/// and double quotes: where it stands, and the text so far. Anything outside
/// quotes, and anything that is special in double quotes, is no such word.
pub open spec fn shell_read(s: Seq<char>) -> Option<(Quoting, Seq<char>)>
    decreases s.len(),
{
    if s.len() == 0 {
        Some((Quoting::Outside, seq![]))
    } else {
        let c = s.last();
        match shell_read(s.drop_last()) {
            None => None,
            Some((Quoting::Outside, text)) => if c == '\'' {
                Some((Quoting::InSingle, text))
            } else if c == '"' {
                Some((Quoting::InDouble, text))
            } else {
                None
            },
            Some((Quoting::InSingle, text)) => if c == '\'' {
                Some((Quoting::Outside, text))
            } else {
                Some((Quoting::InSingle, text.push(c)))
            },
            Some((Quoting::InDouble, text)) => if c == '"' {
                Some((Quoting::Outside, text))
            } else if c == '$' || c == '`' || c == '\\' || c == '!' {
                None
            } else {
                Some((Quoting::InDouble, text.push(c)))
            },
        }
    }
}

proof fn lemma_shell_step(s: Seq<char>, c: char)
    ensures
        s.push(c).drop_last() == s,
        s.push(c).last() == c,
{
    assert(s.push(c).drop_last() =~= s);
}

proof fn lemma_quoted_open(file: Seq<char>)
    ensures
        shell_read(seq!['\''] + quoted_inside(file)) == Some((Quoting::InSingle, file)),
    decreases file.len(),
{
    if file.len() == 0 {
        let s = seq!['\''] + quoted_inside(file);
        assert(s =~= Seq::<char>::empty().push('\''));
        lemma_shell_step(Seq::<char>::empty(), '\'');
        assert(shell_read(Seq::<char>::empty()) == Some((Quoting::Outside, Seq::<char>::empty())));
        assert(file =~= Seq::<char>::empty());
    } else {
        let before = file.drop_last();
        let c = file.last();
        lemma_quoted_open(before);
        let s = seq!['\''] + quoted_inside(before);
        assert(before.push(c) =~= file);
        if c == '\'' {
            reveal_strlit("'\"'\"'");
            let s1 = s.push('\'');
            let s2 = s1.push('"');
            let s3 = s2.push('\'');
            let s4 = s3.push('"');
            let s5 = s4.push('\'');
            assert(seq!['\''] + quoted_inside(file) =~= s5);
            lemma_shell_step(s, '\'');
            lemma_shell_step(s1, '"');
            lemma_shell_step(s2, '\'');
            lemma_shell_step(s3, '"');
            lemma_shell_step(s4, '\'');
            assert(shell_read(s1) == Some((Quoting::Outside, before)));
            assert(shell_read(s2) == Some((Quoting::InDouble, before)));
            assert(shell_read(s3) == Some((Quoting::InDouble, file)));
            assert(shell_read(s4) == Some((Quoting::Outside, file)));
        } else {
            assert(seq!['\''] + quoted_inside(file) =~= s.push(c));
            lemma_shell_step(s, c);
        }
    }
}

/// A file name that was put between single quotes is what a shell reads there,
/// whatever is in it.
pub proof fn lemma_quoted_file_name(file: Seq<char>)
    ensures
        shell_read(seq!['\''] + quoted_inside(file) + seq!['\'']) == Some((Quoting::Outside, file)),
{
    lemma_quoted_open(file);
    let s = seq!['\''] + quoted_inside(file);
    assert(s + seq!['\''] =~= s.push('\''));
    lemma_shell_step(s, '\'');
}

/// A search for a patch is over once the release turned something up, and after
/// three rounds in any case. The name alone does only if any patch is accepted.
pub proof fn lemma_search_ends(rounds: nat, found: nat, any_patch: bool)
    ensures
        found > 0 ==> next_match(1, found, any_patch) is None,
        rounds >= 3 ==> next_match(rounds, found, any_patch) is None,
        !any_patch ==> next_match(rounds, found, any_patch) != Some(Match::Name),
{
}

/// Where nothing matches the release, what matches the version is looked for,
/// and then, if any patch is accepted, what matches the name, however much
/// turned up before.
pub proof fn lemma_search_falls_back(found: nat, any_patch: bool)
    ensures
        next_match(0, 0, any_patch) == Some(Match::Release),
        next_match(1, 0, any_patch) == Some(Match::Version),
        next_match(2, found, any_patch) == (if any_patch {
            Some(Match::Name)
        } else {
            None
        }),
{
}

/// What a later round turned up is used only if nothing before it could be
/// read.
pub proof fn lemma_earlier_round_first(
    earlier: Seq<Option<Seq<u8>>>,
    later: Seq<Option<Seq<u8>>>,
)
    ensures
        first_readable(earlier + later) == (if first_readable(earlier) is Some {
            first_readable(earlier)
        } else {
            first_readable(later)
        }),
    decreases earlier.len(),
{
    if earlier.len() == 0 {
        assert(earlier + later =~= later);
    } else {
        assert((earlier + later).skip(1) =~= earlier.skip(1) + later);
        lemma_earlier_round_first(earlier.skip(1), later);
    }
}

/// The first line of a text, with the line feed that it ends in.
pub open spec fn opening_line(s: Seq<char>) -> Seq<char> {
    let end = first_index(s, '\n') as int;
    s.take(if end < s.len() {
        end + 1
    } else {
        end
    })
}

/// Whether a text has neither a line feed nor a closing parenthesis in it.
pub open spec fn is_enclosable(s: Seq<char>) -> bool {
    forall|i: int| 0 <= i < s.len() ==> #[trigger] s[i] != '\n' && s[i] != ')'
}

/// The version and release that a changelog was written with are read back out
/// of its first line, without the white space in them.
pub proof fn lemma_changelog_version_read_back(
    info: InfoView,
    realname: Seq<char>,
    email: Seq<char>,
    date: Seq<char>,
    alien_version: Seq<char>,
)
    requires
        is_one_line(info.name),
        !info.name.contains('('),
        !info.name.contains(')'),
        is_enclosable(info.version),
        is_enclosable(info.release),
    ensures
        parentheses_in_order(
            opening_line(changelog_text(info, realname, email, date, alien_version)),
        ),
        version_in(opening_line(changelog_text(info, realname, email, date, alien_version)))
            == Some((info.version + seq!['-'] + info.release).filter(|c: char| !is_white(c))),
{
    let text = changelog_text(info, realname, email, date, alien_version);
    let version = info.version + seq!['-'] + info.release;
    let urgency = ") experimental; urgency=low"@;
    let start = info.name + seq![' ', '('] + version + urgency;
    reveal_strlit(" (");
    reveal_strlit("-");
    reveal_strlit(") experimental; urgency=low");
    reveal_strlit(") experimental; urgency=low\n\n  * Converted from ");
    let after = ") experimental; urgency=low\n\n  * Converted from "@;
    let tail = info.original_format + " format to .deb by alien version "@ + alien_version
        + "\n\n  "@ + info.changelog_text + "\n\n  -- "@ + realname + " <"@ + email + ">  "@ + date
        + "\n\n"@;
    assert(text =~= info.name + " ("@ + info.version + "-"@ + info.release + after + tail);
    assert(" ("@ =~= seq![' ', '(']);
    assert("-"@ =~= seq!['-']);
    assert(after.take(urgency.len() as int) =~= urgency);
    assert(after[urgency.len() as int] == '\n');
    assert(text.take(start.len() as int) =~= start);
    assert(text[start.len() as int] == '\n');
    assert(is_enclosable(version));
    assert(is_one_line(start)) by {
        assert(is_one_line(urgency));
        assert forall|i: int| 0 <= i < start.len() implies #[trigger] start[i] != '\n' by {
            let n = info.name.len() as int;
            if i < n {
                assert(start[i] == info.name[i]);
            } else if i >= n + 2 && i < n + 2 + version.len() {
                assert(start[i] == version[i - n - 2]);
            } else if i >= n + 2 {
                assert(start[i] == urgency[i - n - 2 - version.len()]);
            }
        }
    }
    lemma_first_index(text, '\n', start.len() as int);
    let line = opening_line(text);
    assert(line =~= start + seq!['\n']);
    let open = info.name.len() as int + 1;
    let close = open + 1 + version.len();
    assert forall|j: int| 0 <= j < open implies line[j] != '(' && line[j] != ')' by {
        if j < info.name.len() {
            assert(line[j] == info.name[j]);
        }
    }
    assert forall|j: int| open < j < close implies line[j] != ')' by {
        assert(line[j] == version[j - open - 1]);
    }
    assert(line[open] == '(' && line[close] == ')');
    lemma_first_index(line, '(', open);
    lemma_first_index(line, ')', close);
    assert(line.subrange(open + 1, close) =~= version);
}

/// The directories of a package, unpacked in the given one, that may have to be
/// moved, and where to.
pub open spec fn fhs_directories(unpacked_dir: Seq<char>) -> Seq<(Seq<char>, Seq<char>)> {
    seq![
        (joined(unpacked_dir, "usr/man"@, '/'), joined(unpacked_dir, "usr/share/man"@, '/')),
        (joined(unpacked_dir, "usr/info"@, '/'), joined(unpacked_dir, "usr/share/info"@, '/')),
        (joined(unpacked_dir, "usr/doc"@, '/'), joined(unpacked_dir, "usr/share/doc"@, '/')),
    ]
}

/// What is taken down of moves, one after the other, given which of them were
/// made.
pub open spec fn recorded(
    moves: Seq<(Seq<char>, Seq<char>)>,
    made: Seq<bool>,
) -> Seq<(Seq<char>, Seq<char>)>
    decreases moves.len(),
{
    if moves.len() == 0 {
        seq![]
    } else {
        let before = recorded(moves.drop_last(), made);
        if made[moves.len() - 1] {
            stored(before, moves.last().0, moves.last().1)
        } else {
            before
        }
    }
}

proof fn lemma_unrecorded(
    moves: Seq<(Seq<char>, Seq<char>)>,
    made: Seq<bool>,
    path: Seq<char>,
)
    requires
        forall|i: int|
            0 <= i < moves.len() && made[i] ==> path_key((#[trigger] moves[i]).0) != path_key(path),
    ensures
        lookup(recorded(moves, made), path) is None,
    decreases moves.len(),
{
    if moves.len() > 0 {
        lemma_unrecorded(moves.drop_last(), made, path);
        lemma_stored_lookup(
            recorded(moves.drop_last(), made),
            moves.last().0,
            moves.last().1,
            path,
        );
    }
}

proof fn lemma_recorded(moves: Seq<(Seq<char>, Seq<char>)>, made: Seq<bool>, i: int)
    requires
        0 <= i < moves.len(),
        forall|j: int|
            0 <= j < moves.len() && j != i ==> path_key((#[trigger] moves[j]).0) != path_key(
                moves[i].0,
            ),
    ensures
        lookup(recorded(moves, made), moves[i].0) == (if made[i] {
            Some(moves[i].1)
        } else {
            None
        }),
    decreases moves.len(),
{
    let before = moves.drop_last();
    lemma_stored_lookup(recorded(before, made), moves.last().0, moves.last().1, moves[i].0);
    if i == moves.len() - 1 {
        lemma_unrecorded(before, made, moves[i].0);
    } else {
        lemma_recorded(before, made, i);
    }
}

/// The names in a directory that may have to be moved.
proof fn lemma_fhs_names(unpacked_dir: Seq<char>, path: Seq<char>, name: Seq<char>)
    requires
        path == seq!['u', 's', 'r', '/'] + name,
        is_name(name),
        !name.contains('/'),
    ensures
        names(joined(unpacked_dir, path, '/')) == names(unpacked_dir) + seq![
            seq!['u', 's', 'r'],
            name,
        ],
{
    let usr = seq!['u', 's', 'r'];
    assert(path =~= usr + seq!['/'] + name);
    assert(usr.len() == 3 && seq!['.'].len() == 1);
    lemma_two_names(usr, name);
    assert(path[0] == 'u');
    lemma_names_joined(unpacked_dir, path);
}

/// The map of moves has an entry for each of the directories that was moved,
/// from where it was to where it is, and no other entry.
pub proof fn lemma_moves_recorded(unpacked_dir: Seq<char>, made: Seq<bool>)
    ensures
        forall|i: int|
            0 <= i < 3 ==> lookup(
                recorded(fhs_directories(unpacked_dir), made),
                (#[trigger] fhs_directories(unpacked_dir)[i]).0,
            ) == (if made[i] {
                Some(fhs_directories(unpacked_dir)[i].1)
            } else {
                None
            }),
        forall|path: Seq<char>|
            (forall|i: int|
                0 <= i < 3 ==> path_key((#[trigger] fhs_directories(unpacked_dir)[i]).0)
                    != path_key(path)) ==> (#[trigger] lookup(
                recorded(fhs_directories(unpacked_dir), made),
                path,
            )) is None,
{
    let moves = fhs_directories(unpacked_dir);
    reveal_strlit("usr/man");
    reveal_strlit("usr/info");
    reveal_strlit("usr/doc");
    let (man, info, doc) = (seq!['m', 'a', 'n'], seq!['i', 'n', 'f', 'o'], seq!['d', 'o', 'c']);
    assert(seq!['.'].len() == 1);
    assert("usr/man"@ =~= seq!['u', 's', 'r', '/'] + man);
    assert("usr/info"@ =~= seq!['u', 's', 'r', '/'] + info);
    assert("usr/doc"@ =~= seq!['u', 's', 'r', '/'] + doc);
    lemma_fhs_names(unpacked_dir, "usr/man"@, man);
    lemma_fhs_names(unpacked_dir, "usr/info"@, info);
    lemma_fhs_names(unpacked_dir, "usr/doc"@, doc);
    assert(man[0] == 'm' && info[0] == 'i' && doc[0] == 'd');
    assert(names(moves[0].0).last() == man);
    assert(names(moves[1].0).last() == info);
    assert(names(moves[2].0).last() == doc);
    assert forall|i: int| 0 <= i < 3 implies lookup(
        recorded(moves, made),
        (#[trigger] moves[i]).0,
    ) == (if made[i] {
        Some(moves[i].1)
    } else {
        None
    }) by {
        lemma_recorded(moves, made, i);
    }
    assert forall|path: Seq<char>|
        (forall|i: int| 0 <= i < 3 ==> path_key((#[trigger] moves[i]).0) != path_key(
            path,
        )) implies (#[trigger] lookup(recorded(moves, made), path)) is None by {
        lemma_unrecorded(moves, made, path);
    }
}

} // verus!
