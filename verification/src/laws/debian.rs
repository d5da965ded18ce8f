//! What holds of what is made fit for a Debian package.
use vstd::prelude::*;
use vstd::utf8::{decode_utf8, valid_utf8};

use crate::deb::patches::{first_readable, pattern, patterns, Match};
use crate::deb::policy::fhs_directories;
use crate::deb::{
    build_outcome, byte_lines, cut_line, deb_name, debian_description, debian_release,
    debian_sanitized, debian_version, description_line, is_move, is_version_char,
    keeps_original, parentheses_in_order, patch_wanted, report_in, reported, version_in,
    without_leading_blanks, DirectoryMove,
};
use crate::laws::scripts::{begins_with, ends_in};
use crate::laws::text::{
    all_white, ends_visible, lemma_first_match, lemma_replaced, lemma_trimmed_end,
};
use crate::package::InfoView;
use crate::path::joined;
use crate::text::{
    first_match, is_white, lemma_first_index, replaced, stands_in, trimmed, trimmed_end, u32_value,
};

verus! {

/// Whether a character may stand in a Debian version.
pub open spec fn may_stand_in_version(c: char) -> bool {
    seq!['-', '.', '+', '~', ':'].contains(c) || '0' <= c <= '9' || 'a' <= c <= 'z' || 'A' <= c
        <= 'Z'
}

proof fn lemma_version_char(c: char)
    ensures
        is_version_char(c) == may_stand_in_version(c),
{
    let s = seq!['-', '.', '+', '~', ':'];
    assert(s[0] == '-' && s[1] == '.' && s[2] == '+' && s[3] == '~' && s[4] == ':');
}

/// A version is taken over character by character: one that may stand in a Debian
/// version stays, any other is left out, and a zero comes first unless a digit
/// does.
pub proof fn lemma_version_goes_by_characters(version: Seq<char>, c: char)
    ensures
        version.len() > 0 && may_stand_in_version(c) ==> debian_version(version.push(c))
            == debian_version(version).push(c),
        version.len() > 0 && !may_stand_in_version(c) ==> debian_version(version.push(c))
            == debian_version(version),
        '0' <= c <= '9' ==> debian_version(seq![c]) == seq![c],
        may_stand_in_version(c) && !('0' <= c <= '9') ==> debian_version(seq![c]) == seq!['0', c],
        !may_stand_in_version(c) ==> debian_version(seq![c]) == seq!['0'],
        debian_version(Seq::<char>::empty()) == seq!['0'],
{
    let valid = |c: char| is_version_char(c);
    let none = Seq::<char>::empty();
    lemma_version_char(c);
    version.lemma_filter_push(c, valid);
    none.lemma_filter_push(c, valid);
    assert(none.filter(valid) =~= none);
    assert(none.push(c) =~= seq![c]);
    assert(seq!['0'] + none =~= seq!['0']);
    if is_version_char(c) {
        assert(seq![c].filter(valid) =~= seq![c]);
        assert(seq!['0'] + seq![c] =~= seq!['0', c]);
    } else {
        assert(seq![c].filter(valid) =~= none);
    }
    if version.len() > 0 {
        assert(version.push(c)[0] == version[0]);
        assert(debian_version(version.push(c)) =~= (if is_version_char(c) {
            debian_version(version).push(c)
        } else {
            debian_version(version)
        }));
    }
}

/// A release that is a number stays, and any other gets a one after a hyphen.
pub proof fn lemma_release(release: Seq<char>)
    ensures
        u32_value(release) is Some ==> debian_release(release) == release,
        u32_value(release) is None ==> debian_release(release) == release + seq!['-', '1'],
{
    reveal_strlit("-1");
    assert("-1"@ =~= seq!['-', '1']);
}

/// A line of a description that ends in no white space and has no tabs is taken
/// over as it is, without any white space after it; a blank one becomes a dot;
/// and a tab counts for eight spaces.
pub proof fn lemma_description_line(
    body: Seq<char>,
    blank: Seq<char>,
    a: Seq<char>,
    b: Seq<char>,
)
    requires
        !body.contains('\t'),
        !blank.contains('\t'),
        all_white(blank),
        ends_visible(body),
    ensures
        body.len() > 0 ==> description_line(body + blank) == body,
        body.len() == 0 ==> description_line(body + blank) == seq!['.'],
        description_line(a + seq!['\t'] + b) == description_line(
            a + seq![' ', ' ', ' ', ' ', ' ', ' ', ' ', ' '] + b,
        ),
{
    let spaces = "        "@;
    reveal_strlit("        ");
    assert(spaces =~= seq![' ', ' ', ' ', ' ', ' ', ' ', ' ', ' ']);
    assert(!spaces.contains('\t'));
    let line = body + blank;
    assert(!line.contains('\t')) by {
        if line.contains('\t') {
            let i = choose|i: int| 0 <= i < line.len() && line[i] == '\t';
            if i < body.len() {
                assert(body[i] == '\t');
            } else {
                assert(blank[i - body.len()] == '\t');
            }
        }
    }
    crate::text::lemma_replaced_nothing(line, '\t', spaces);
    lemma_trimmed_end(body, blank);
    lemma_replaced(a, seq!['\t'], '\t', ' ', spaces);
    lemma_replaced(a + seq!['\t'], b, '\t', ' ', spaces);
    lemma_replaced(a, spaces, '\t', ' ', spaces);
    lemma_replaced(a + spaces, b, '\t', ' ', spaces);
    crate::text::lemma_replaced_nothing(spaces, '\t', spaces);
}

/// Blank lines before a description are left out, and no line after the first
/// that is not blank is.
pub proof fn lemma_blank_lines_before(line: Seq<char>, rest: Seq<Seq<char>>)
    ensures
        all_white(line) ==> without_leading_blanks(seq![line] + rest) == without_leading_blanks(
            rest,
        ),
        !all_white(line) ==> without_leading_blanks(seq![line] + rest) == seq![line] + rest,
{
    let all = seq![line] + rest;
    assert(all[0] == line);
    assert(all.skip(1) =~= rest);
    lemma_blank_line(line);
}

proof fn lemma_blank_line(line: Seq<char>)
    ensures
        all_white(line) == (cut_line(line).len() == 0),
{
    let spaces = "        "@;
    let spaced = replaced(line, '\t', spaces);
    lemma_blank_replaced(line);
    if all_white(spaced) {
        assert(Seq::<char>::empty() + spaced =~= spaced);
        lemma_trimmed_end(Seq::<char>::empty(), spaced);
    } else {
        let i = choose|i: int| 0 <= i < spaced.len() && !is_white(#[trigger] spaced[i]);
        lemma_visible_stays(spaced, i);
    }
}

proof fn lemma_blank_replaced(line: Seq<char>)
    ensures
        all_white(line) == all_white(replaced(line, '\t', "        "@)),
    decreases line.len(),
{
    let spaces = "        "@;
    reveal_strlit("        ");
    if line.len() > 0 {
        let before = line.drop_last();
        let end = if line.last() == '\t' {
            spaces
        } else {
            seq![line.last()]
        };
        let spaced = replaced(before, '\t', spaces);
        let whole = spaced + end;
        lemma_blank_replaced(before);
        assert(all_white(spaces));
        if all_white(line) {
            assert(is_white(line[line.len() - 1]));
            assert forall|i: int| 0 <= i < before.len() implies is_white(#[trigger] before[i]) by {
                assert(before[i] == line[i]);
            }
            assert forall|i: int| 0 <= i < whole.len() implies is_white(#[trigger] whole[i]) by {
                if i < spaced.len() {
                    assert(whole[i] == spaced[i]);
                } else {
                    assert(whole[i] == end[i - spaced.len()]);
                }
            }
        }
        if all_white(whole) {
            assert forall|i: int| 0 <= i < spaced.len() implies is_white(#[trigger] spaced[i]) by {
                assert(whole[i] == spaced[i]);
            }
            if line.last() != '\t' {
                assert(whole[spaced.len() as int] == line.last());
            }
            assert forall|i: int| 0 <= i < line.len() implies is_white(#[trigger] line[i]) by {
                if i < before.len() {
                    assert(before[i] == line[i]);
                }
            }
        }
    }
}

proof fn lemma_visible_stays(s: Seq<char>, i: int)
    requires
        0 <= i < s.len(),
        !is_white(s[i]),
    ensures
        trimmed_end(s).len() > i,
    decreases s.len(),
{
    if is_white(s.last()) {
        assert(i < s.len() - 1);
        lemma_visible_stays(s.drop_last(), i);
    }
}

/// A text has something left after trimming exactly if it is not blank.
pub proof fn lemma_something_left(s: Seq<char>)
    ensures
        (trimmed(s).len() > 0) == !all_white(s),
{
    let n = crate::laws::text::lemma_blank_start(s);
    let rest = s.skip(n);
    if all_white(s) {
        let none = Seq::<char>::empty();
        assert(s =~= s + none + none);
        crate::laws::text::lemma_trimmed(s, none, none);
    } else {
        if rest.len() == 0 {
            assert(s.take(n) =~= s);
        }
        lemma_visible_stays(rest, 0);
    }
}

/// Only version, release and description are made fit for Debian, each from what
/// it was.
pub proof fn lemma_only_three_fields_change(
    info: InfoView,
    other: InfoView,
    alien_version: Seq<char>,
)
    ensures
        ({
            let r = debian_sanitized(info, alien_version);
            let o = debian_sanitized(other, alien_version);
            &&& r == InfoView {
                version: r.version,
                release: r.release,
                description: r.description,
                ..info
            }
            &&& r.version == debian_version(info.version)
            &&& r.release == debian_release(info.release)
            &&& r.description == debian_description(
                info.description,
                info.original_format,
                alien_version,
            )
            &&& info.version == other.version ==> r.version == o.version
            &&& info.release == other.release ==> r.release == o.release
            &&& info.description == other.description && info.original_format
                == other.original_format ==> r.description == o.description
        }),
{
}

/// The version in a line is what stands between the first parentheses, without
/// white space, and there is none without both.
pub proof fn lemma_version_between_parentheses(
    before: Seq<char>,
    version: Seq<char>,
    after: Seq<char>,
)
    requires
        !before.contains('('),
        !before.contains(')'),
        !version.contains(')'),
    ensures
        version_in(before + seq!['('] + version + seq![')'] + after) == Some(
            version.filter(|c: char| !is_white(c)),
        ),
        version_in(before + seq!['('] + version) is None,
        version_in(before) is None,
        version_in(before + seq![')']) is None,
{
    let line = before + seq!['('] + version + seq![')'] + after;
    let open = before.len() as int;
    let close = open + 1 + version.len();
    assert forall|j: int| 0 <= j < open implies before[j] != '(' && before[j] != ')' by {
        assert(before.contains(before[j]));
    }
    assert forall|j: int| 0 <= j < version.len() implies version[j] != ')' by {
        assert(version.contains(version[j]));
    }
    assert(line[open] == '(' && line[close] == ')');
    assert forall|j: int| 0 <= j < close implies line[j] != ')' by {
        if j < open {
            assert(line[j] == before[j]);
        } else if j > open {
            assert(line[j] == version[j - open - 1]);
        }
    }
    lemma_first_index(line, '(', open);
    lemma_first_index(line, ')', close);
    assert(line.subrange(open + 1, close) =~= version);
    let short = before + seq!['('] + version;
    assert forall|j: int| 0 <= j < short.len() implies short[j] != ')' by {
        if j < open {
            assert(short[j] == before[j]);
        } else if j > open {
            assert(short[j] == version[j - open - 1]);
        }
    }
    lemma_first_index(short, ')', short.len() as int);
    lemma_first_index(before, '(', open);
    let closed = before + seq![')'];
    assert forall|j: int| 0 <= j < closed.len() implies closed[j] != '(' by {
        if j < open {
            assert(closed[j] == before[j]);
        }
    }
    lemma_first_index(closed, '(', closed.len() as int);
}

/// A line of bytes ends at a line feed, or at a carriage return before one, and
/// the lines of what follows come after it. What does not end is a line too,
/// unless it is empty.
pub proof fn lemma_byte_lines(line: Seq<u8>, rest: Seq<u8>)
    requires
        !line.contains(10u8),
    ensures
        byte_lines(Seq::<u8>::empty()) == Seq::<Seq<u8>>::empty(),
        line.len() > 0 ==> byte_lines(line) == seq![line],
        line.len() > 0 && line.last() == 13u8 ==> byte_lines(line + seq![10u8] + rest) == seq![
            line.drop_last(),
        ] + byte_lines(rest),
        line.len() == 0 || line.last() != 13u8 ==> byte_lines(line + seq![10u8] + rest) == seq![
            line,
        ] + byte_lines(rest),
{
    let whole = line + seq![10u8] + rest;
    let n = line.len() as int;
    assert(whole[n] == 10u8);
    assert forall|j: int| 0 <= j < n implies whole[j] != 10u8 && line[j] != 10u8 by {
        assert(whole[j] == line[j]);
        assert(line.contains(line[j]));
    }
    lemma_first_index(whole, 10u8, n);
    lemma_first_index(line, 10u8, n);
    assert(whole.take(n) =~= line);
    assert(whole.skip(n + 1) =~= rest);
    if n > 0 {
        assert(whole.take(n - 1) =~= line.drop_last());
        assert(whole[n - 1] == line.last());
    }
}

/// A report is taken over line by line: each that is text, and has no complaint
/// about the section in it, without the white space around it, and no other.
pub proof fn lemma_report_goes_by_lines(all: Seq<Seq<u8>>, line: Seq<u8>)
    ensures
        reported(Seq::<Seq<u8>>::empty()) == Seq::<Seq<char>>::empty(),
        valid_utf8(line) && !stands_in("unknown-section alien"@, decode_utf8(line)) ==> reported(
            all.push(line),
        ) == reported(all).push(trimmed(decode_utf8(line))),
        !valid_utf8(line) || stands_in("unknown-section alien"@, decode_utf8(line)) ==> reported(
            all.push(line),
        ) == reported(all),
{
    assert(all.push(line).drop_last() =~= all);
    let text = decode_utf8(line);
    let words = "unknown-section alien"@;
    lemma_first_match(text, words);
    if let Some(i) = first_match(text, words) {
        assert(text.subrange(i as int, i as int + words.len()) == words);
        assert(stands_in(words, text));
    }
}

/// The pattern for patches gets longer the closer they have to match: the name,
/// the version after it, and the release after a hyphen, always in the directory
/// and with the same end.
pub proof fn lemma_patterns(dir: Seq<char>, dirs: Seq<Seq<char>>, info: InfoView, how: Match)
    ensures
        ({
            let start = dir + seq!['/'] + info.name + seq!['_'];
            let end = "*.diff.gz"@;
            &&& pattern(dir, info, Match::Name) == start + end
            &&& pattern(dir, info, Match::Version) == start + info.version + end
            &&& pattern(dir, info, Match::Release) == start + info.version + seq!['-']
                + info.release + end
        }),
        patterns(dirs.push(dir), info, how) == patterns(dirs, info, how).push(
            pattern(dir, info, how),
        ),
        patterns(Seq::<Seq<char>>::empty(), info, how) == Seq::<Seq<char>>::empty(),
{
    reveal_strlit("/");
    reveal_strlit("_");
    reveal_strlit("-");
    reveal_strlit("*.diff.gz");
    reveal_strlit("_*.diff.gz");
    let start = dir + seq!['/'] + info.name + seq!['_'];
    let end = "*.diff.gz"@;
    assert("/"@ =~= seq!['/'] && "_"@ =~= seq!['_'] && "-"@ =~= seq!['-']);
    assert("_*.diff.gz"@ =~= seq!['_'] + end);
    assert(pattern(dir, info, Match::Name) =~= start + end);
    assert(pattern(dir, info, Match::Version) =~= start + info.version + end);
    assert(pattern(dir, info, Match::Release) =~= start + info.version + seq!['-'] + info.release
        + end);
    assert(patterns(dirs.push(dir), info, how) =~= patterns(dirs, info, how).push(
        pattern(dir, info, how),
    ));
    assert(patterns(Seq::<Seq<char>>::empty(), info, how) =~= Seq::<Seq<char>>::empty());
}

/// The patch that is used is the first that could be read, and there is one if
/// any could.
pub proof fn lemma_first_readable(found: Seq<Option<Seq<u8>>>, i: int)
    requires
        0 <= i < found.len(),
    ensures
        found[i] is Some ==> first_readable(found) is Some,
        found[i] is Some && (forall|j: int| 0 <= j < i ==> (#[trigger] found[j]) is None)
            ==> first_readable(found) == found[i],
        (forall|j: int| 0 <= j < found.len() ==> (#[trigger] found[j]) is None) ==> first_readable(
            found,
        ) is None,
    decreases found.len(),
{
    if found[0] is None && found.len() > 1 {
        let rest = found.skip(1);
        let k = if i > 0 {
            i - 1
        } else {
            0
        };
        assert forall|j: int| 0 <= j < rest.len() implies rest[j] == found[j + 1] by {}
        lemma_first_readable(rest, k);
        assert((forall|j: int| 0 <= j < i ==> (#[trigger] found[j]) is None) ==> (forall|j: int|
            0 <= j < k ==> (#[trigger] rest[j]) is None));
        assert((forall|j: int| 0 <= j < found.len() ==> (#[trigger] found[j]) is None) ==> (forall|
            j: int,
        | 0 <= j < rest.len() ==> (#[trigger] rest[j]) is None));
    } else if found[0] is None {
        assert(found.skip(1) =~= Seq::<Option<Seq<u8>>>::empty());
        assert(first_readable(found.skip(1)) is None);
    }
}

/// Every directory that may have to be moved lies in `usr` of the unpacked
/// package, goes to a directory of the same name in its `usr/share`, and is one
/// of three.
pub proof fn lemma_moves_lead_to_share(unpacked_dir: Seq<char>)
    ensures
        fhs_directories(unpacked_dir).len() == 3,
        ({
            let usr = seq!['u', 's', 'r', '/'];
            let share = seq!['u', 's', 'r', '/', 's', 'h', 'a', 'r', 'e', '/'];
            let kinds = seq![
                seq!['m', 'a', 'n'],
                seq!['i', 'n', 'f', 'o'],
                seq!['d', 'o', 'c'],
            ];
            forall|i: int|
                0 <= i < 3 ==> #[trigger] fhs_directories(unpacked_dir)[i] == (
                    joined(unpacked_dir, usr + kinds[i], '/'),
                    joined(unpacked_dir, share + kinds[i], '/'),
                )
        }),
{
    reveal_strlit("usr/man");
    reveal_strlit("usr/info");
    reveal_strlit("usr/doc");
    reveal_strlit("usr/share/man");
    reveal_strlit("usr/share/info");
    reveal_strlit("usr/share/doc");
    let usr = seq!['u', 's', 'r', '/'];
    let share = seq!['u', 's', 'r', '/', 's', 'h', 'a', 'r', 'e', '/'];
    assert("usr/man"@ =~= usr + seq!['m', 'a', 'n']);
    assert("usr/info"@ =~= usr + seq!['i', 'n', 'f', 'o']);
    assert("usr/doc"@ =~= usr + seq!['d', 'o', 'c']);
    assert("usr/share/man"@ =~= share + seq!['m', 'a', 'n']);
    assert("usr/share/info"@ =~= share + seq!['i', 'n', 'f', 'o']);
    assert("usr/share/doc"@ =~= share + seq!['d', 'o', 'c']);
}

/// A package is built exactly if the system accepts its architecture, or it is for
/// all of them, and the rules succeed; otherwise the complaint names the file and
/// the architecture, or ends with all that the rules had to say.
pub proof fn lemma_outcome_of_build(
    info: InfoView,
    accepted: bool,
    file: Seq<char>,
    success: bool,
    stderr: Seq<char>,
)
    ensures
        ({
            let r = build_outcome(info, accepted, file, success, stderr);
            &&& r is Ok <==> (info.arch == "all"@ || accepted) && success
            &&& r matches Ok(path) ==> path == info.name + seq!['_'] + info.version + seq!['-']
                + info.release + seq!['_'] + info.arch + seq!['.', 'd', 'e', 'b']
            &&& info.arch != "all"@ && !accepted ==> (r matches Err(e) && begins_with(e, file)
                && stands_in(info.arch, e))
            &&& (info.arch == "all"@ || accepted) && !success ==> (r matches Err(e) && ends_in(
                e,
                stderr,
            ) && begins_with(e, "Package build failed"@))
        }),
{
    reveal_strlit("_");
    reveal_strlit("-");
    reveal_strlit(".deb");
    assert("_"@ =~= seq!['_'] && "-"@ =~= seq!['-'] && ".deb"@ =~= seq!['.', 'd', 'e', 'b']);
    assert(deb_name(info) =~= info.name + seq!['_'] + info.version + seq!['-'] + info.release + seq![
        '_',
    ] + info.arch + seq!['.', 'd', 'e', 'b']);
    let wrong = file + " is for architecture "@ + info.arch
        + "; the package cannot be built on this system"@;
    assert(wrong.take(file.len() as int) =~= file);
    let n = (file + " is for architecture "@).len() as int;
    assert(wrong.subrange(n, n + info.arch.len()) =~= info.arch);
    let failed = "Package build failed. Here's the log:\n"@ + stderr;
    assert(failed.skip(failed.len() - stderr.len()) =~= stderr);
    let none = "Package build failed; could not run generated debian/rules file."@;
    let start = "Package build failed"@;
    reveal_strlit("Package build failed");
    reveal_strlit("Package build failed; could not run generated debian/rules file.");
    reveal_strlit("Package build failed. Here's the log:\n");
    assert(none.take(start.len() as int) =~= start);
    assert(failed.take(start.len() as int) =~= start);
    assert(none.skip(none.len() as int) =~= seq![]);
    if stderr.len() == 0 {
        assert(stderr =~= seq![]);
    }
}

/// A copy of the unpacked tree is kept unless the user asked for one of the two
/// that make it needless, and a patch is used unless the user asked for none: the
/// one that the user named, if any.
pub proof fn lemma_what_the_user_asked_for(single: bool, generate: bool, named: Option<Seq<u8>>)
    ensures
        keeps_original(false, false),
        !keeps_original(true, generate),
        !keeps_original(single, true),
        patch_wanted(true, named) is None,
        patch_wanted(false, named) == Some(named),
{
}

proof fn lemma_reports_add_up(all: Seq<Seq<u8>>, more: Seq<Seq<u8>>)
    ensures
        reported(all + more) == reported(all) + reported(more),
    decreases more.len(),
{
    if more.len() == 0 {
        assert(all + more =~= all);
        assert(reported(all) + reported(more) =~= reported(all));
    } else {
        lemma_reports_add_up(all, more.drop_last());
        assert((all + more).drop_last() =~= all + more.drop_last());
        assert(reported(all + more) =~= reported(all) + reported(more));
    }
}

/// A report is read line by line: a line at its start that is of interest comes
/// first, and one that is not makes no difference to the rest.
pub proof fn lemma_report_line_by_line(line: Seq<u8>, rest: Seq<u8>)
    requires
        !line.contains(10u8),
        line.len() == 0 || line.last() != 13u8,
    ensures
        report_in(Seq::<u8>::empty()) == Seq::<Seq<char>>::empty(),
        report_in(line + seq![10u8] + rest) == (if valid_utf8(line) && !stands_in(
            "unknown-section alien"@,
            decode_utf8(line),
        ) {
            seq![trimmed(decode_utf8(line))]
        } else {
            seq![]
        }) + report_in(rest),
{
    let none = Seq::<Seq<u8>>::empty();
    lemma_byte_lines(line, rest);
    lemma_reports_add_up(seq![line], byte_lines(rest));
    lemma_report_goes_by_lines(none, line);
    assert(none.push(line) =~= seq![line]);
    assert(Seq::<Seq<char>>::empty().push(trimmed(decode_utf8(line))) =~= seq![
        trimmed(decode_utf8(line)),
    ]);
}

/// A description ends with the note on where the package comes from, whatever is
/// in it.
pub proof fn lemma_description_ends_with_note(
    description: Seq<char>,
    format: Seq<char>,
    alien_version: Seq<char>,
)
    ensures
        ends_in(
            debian_description(description, format, alien_version),
            " (Converted from a "@ + format + " package by alien version "@ + alien_version + ".)"@,
        ),
{
    let text = debian_description(description, format, alien_version);
    let note = " (Converted from a "@ + format + " package by alien version "@ + alien_version
        + ".)"@;
    assert(text.skip(text.len() - note.len()) =~= note);
}

/// Parentheses are in order where an opening one comes before every closing one,
/// and where there is not one of each, and are not where a closing one comes
/// before every opening one.
pub proof fn lemma_order_of_parentheses(a: Seq<char>, b: Seq<char>, c: Seq<char>)
    requires
        !a.contains('('),
        !a.contains(')'),
        !b.contains('('),
        !b.contains(')'),
    ensures
        parentheses_in_order(a + seq!['('] + b + seq![')'] + c),
        parentheses_in_order(a),
        parentheses_in_order(a + seq!['('] + b),
        parentheses_in_order(a + seq![')'] + b),
        !parentheses_in_order(a + seq![')'] + b + seq!['('] + c),
{
    let n = a.len() as int;
    let m = b.len() as int;
    assert forall|j: int| 0 <= j < n implies a[j] != '(' && a[j] != ')' by {
        assert(a.contains(a[j]));
    }
    assert forall|j: int| 0 <= j < m implies b[j] != '(' && b[j] != ')' by {
        assert(b.contains(b[j]));
    }
    let open = a + seq!['('] + b;
    let both = open + seq![')'] + c;
    let closed = a + seq![')'] + b;
    let turned = closed + seq!['('] + c;
    assert forall|j: int| 0 <= j < n implies open[j] == a[j] && both[j] == a[j] && closed[j] == a[j]
        && turned[j] == a[j] by {}
    assert forall|j: int| n < j <= n + m implies open[j] == b[j - n - 1] && both[j] == b[j - n - 1]
        && closed[j] == b[j - n - 1] && turned[j] == b[j - n - 1] by {}
    assert(open[n] == '(' && both[n] == '(' && closed[n] == ')' && turned[n] == ')');
    assert(both[n + m + 1] == ')' && turned[n + m + 1] == '(');
    lemma_first_index(a, '(', n);
    lemma_first_index(both, '(', n);
    lemma_first_index(both, ')', n + m + 1);
    lemma_first_index(open, ')', n + m + 1);
    lemma_first_index(closed, '(', n + m + 1);
    lemma_first_index(turned, ')', n);
    lemma_first_index(turned, '(', n + m + 1);
}

/// A move takes a directory of the package to another, and the directory that it
/// is in by then is the package's `usr/share`.
pub proof fn lemma_parent_of_move(
    m: DirectoryMove,
    unpacked_dir: Seq<char>,
    old: Seq<char>,
    new: Seq<char>,
)
    requires
        is_move(m, unpacked_dir, old, new),
    ensures
        m.old@ == joined(unpacked_dir, old, '/'),
        m.new@ == joined(unpacked_dir, new, '/'),
        m.parent@ == joined(unpacked_dir, seq!['u', 's', 'r', '/', 's', 'h', 'a', 'r', 'e'], '/'),
{
    reveal_strlit("usr/share");
    assert("usr/share"@ =~= seq!['u', 's', 'r', '/', 's', 'h', 'a', 'r', 'e']);
}

} // verus!
