//! What holds of the files that make an unpacked package a Debian source package.
use vstd::prelude::*;

use crate::deb::writer::{
    changelog_text, compat_text, conffile_lines, conffiles_text, control_text, copyright_text,
    debian_files, fixup, fixups, keeps_out, more_depends, quoted_inside, rules_text, script_file,
    script_files, with_fixups, DebWriter, FileView,
};
use crate::laws::debian::lemma_something_left;
use crate::laws::scripts::{begins_with, ends_in, has_mark};
use crate::laws::text::{
    all_white, lemma_decimal, lemma_first_word, lemma_replaced, lemma_trimmed_start,
    lemma_u32_read_back,
};
use crate::package::InfoView;
use crate::path::in_etc;
use crate::table::lookup;
use crate::text::{decimal, is_one_line, is_white, lemma_first_index, u32_value};

verus! {

/// How many files have a name.
pub open spec fn count_named(files: Seq<FileView>, name: Seq<char>) -> nat
    decreases files.len(),
{
    if files.len() == 0 {
        0
    } else {
        count_named(files.drop_last(), name) + (if files.last().name == name {
            1nat
        } else {
            0nat
        })
    }
}

/// Whether exactly one of the files has a name, and what is in it.
pub open spec fn is_only(files: Seq<FileView>, file: FileView) -> bool {
    files.contains(file) && count_named(files, file.name) == 1
}

proof fn lemma_count_adds_up(a: Seq<FileView>, b: Seq<FileView>, name: Seq<char>)
    ensures
        count_named(a + b, name) == count_named(a, name) + count_named(b, name),
    decreases b.len(),
{
    if b.len() == 0 {
        assert(a + b =~= a);
    } else {
        lemma_count_adds_up(a, b.drop_last(), name);
        assert((a + b).drop_last() =~= a + b.drop_last());
    }
}

proof fn lemma_count_one(f: FileView, name: Seq<char>)
    ensures
        count_named(seq![f], name) == (if f.name == name {
            1nat
        } else {
            0nat
        }),
        count_named(Seq::<FileView>::empty(), name) == 0,
{
    assert(seq![f].drop_last() =~= Seq::<FileView>::empty());
    assert(seq![f].last() == f);
    assert(count_named(seq![f].drop_last(), name) == 0);
}

proof fn lemma_in_first(a: Seq<FileView>, b: Seq<FileView>, f: FileView)
    ensures
        a.contains(f) ==> (a + b).contains(f),
        b.contains(f) ==> (a + b).contains(f),
{
    if a.contains(f) {
        let i = choose|i: int| 0 <= i < a.len() && a[i] == f;
        assert((a + b)[i] == f);
    }
    if b.contains(f) {
        let i = choose|i: int| 0 <= i < b.len() && b[i] == f;
        assert((a + b)[a.len() + i] == f);
    }
}

/// The names of the maintainer scripts.
pub open spec fn script_names() -> Seq<Seq<char>> {
    seq!["postinst"@, "postrm"@, "preinst"@, "prerm"@]
}

proof fn lemma_script_names()
    ensures
        script_names()[0] == "postinst"@,
        script_names()[1] == "postrm"@,
        script_names()[2] == "preinst"@,
        script_names()[3] == "prerm"@,
        "postinst"@.len() == 8,
        "postrm"@.len() == 6,
        "preinst"@.len() == 7,
        "prerm"@.len() == 5,
        "postinst"@[0] == 'p' && "postrm"@[0] == 'p' && "preinst"@[0] == 'p' && "prerm"@[0] == 'p',
{
    reveal_strlit("postinst");
    reveal_strlit("postrm");
    reveal_strlit("preinst");
    reveal_strlit("prerm");
}

proof fn lemma_optional(name: Seq<char>, contents: Option<Seq<char>>, other: Seq<char>)
    ensures
        ({
            let files = crate::deb::writer::optional_file(name, contents);
            &&& count_named(files, other) == (if contents is Some && name == other {
                1nat
            } else {
                0nat
            })
            &&& contents matches Some(c) ==> files.contains(
                FileView { name, contents: c, executable: false },
            )
        }),
{
    let files = crate::deb::writer::optional_file(name, contents);
    match contents {
        Some(c) => {
            let f = FileView { name, contents: c, executable: false };
            assert(files =~= seq![f]);
            lemma_count_one(f, other);
            assert(files[0] == f);
        },
        None => {
            assert(files =~= Seq::<FileView>::empty());
        },
    }
}

proof fn lemma_script_file_count(info: InfoView, name: Seq<char>)
    ensures
        ({
            let files = script_files(info);
            let (a, b, c, d) = (
                script_file(info, "postinst"@),
                script_file(info, "postrm"@),
                script_file(info, "preinst"@),
                script_file(info, "prerm"@),
            );
            let used = info.use_scripts;
            &&& count_named(files, name) == (if (name == "postinst"@ && a is Some) || (used && ((
            name == "postrm"@ && b is Some) || (name == "preinst"@ && c is Some) || (name
                == "prerm"@ && d is Some))) {
                1nat
            } else {
                0nat
            })
            &&& a matches Some(t) ==> files.contains(
                FileView { name: "postinst"@, contents: t, executable: false },
            )
            &&& used ==> (b matches Some(t) ==> files.contains(
                FileView { name: "postrm"@, contents: t, executable: false },
            ))
            &&& used ==> (c matches Some(t) ==> files.contains(
                FileView { name: "preinst"@, contents: t, executable: false },
            ))
            &&& used ==> (d matches Some(t) ==> files.contains(
                FileView { name: "prerm"@, contents: t, executable: false },
            ))
        }),
{
    lemma_script_names();
    let (a, b, c, d) = (
        script_file(info, "postinst"@),
        script_file(info, "postrm"@),
        script_file(info, "preinst"@),
        script_file(info, "prerm"@),
    );
    lemma_optional("postinst"@, a, name);
    lemma_optional("postrm"@, b, name);
    lemma_optional("preinst"@, c, name);
    lemma_optional("prerm"@, d, name);
    let fa = crate::deb::writer::optional_file("postinst"@, a);
    let fb = crate::deb::writer::optional_file("postrm"@, b);
    let fc = crate::deb::writer::optional_file("preinst"@, c);
    let fd = crate::deb::writer::optional_file("prerm"@, d);
    if info.use_scripts {
        lemma_count_adds_up(fb, fc, name);
        lemma_count_adds_up(fb + fc, fd, name);
        lemma_count_adds_up(fa, fb + fc + fd, name);
        if let Some(t) = a {
            let f = FileView { name: "postinst"@, contents: t, executable: false };
            lemma_in_first(fa, fb + fc + fd, f);
        }
        if let Some(t) = b {
            let f = FileView { name: "postrm"@, contents: t, executable: false };
            lemma_in_first(fb, fc, f);
            lemma_in_first(fb + fc, fd, f);
            lemma_in_first(fa, fb + fc + fd, f);
        }
        if let Some(t) = c {
            let f = FileView { name: "preinst"@, contents: t, executable: false };
            lemma_in_first(fb, fc, f);
            lemma_in_first(fb + fc, fd, f);
            lemma_in_first(fa, fb + fc + fd, f);
        }
        if let Some(t) = d {
            let f = FileView { name: "prerm"@, contents: t, executable: false };
            lemma_in_first(fb + fc, fd, f);
            lemma_in_first(fa, fb + fc + fd, f);
        }
    } else {
        assert(script_files(info) =~= fa);
    }
}

/// Where scripts are used, every script that is not blank is written once, under
/// its name and as it is. What runs after installation is written whether scripts
/// are used or not, and as it is where no owner has to be set.
pub proof fn lemma_every_script_is_written(info: InfoView, name: Seq<char>)
    requires
        script_names().contains(name),
        info.use_scripts || name == "postinst"@,
        info.scripts.contains_key(name),
        !all_white(info.scripts[name]@),
        name == "postinst"@ ==> info.owninfo.len() == 0,
    ensures
        is_only(
            script_files(info),
            FileView { name, contents: info.scripts[name]@, executable: false },
        ),
{
    lemma_script_names();
    lemma_script_file_count(info, name);
    lemma_something_left(info.scripts[name]@);
    assert(script_file(info, name) == Some(info.scripts[name]@));
    let i = choose|i: int| 0 <= i < script_names().len() && script_names()[i] == name;
    assert(i == 0 || i == 1 || i == 2 || i == 3);
}

/// Where an owner has to be set, the script that runs after installation is
/// written once, with the commands in it, unless it is blank even so. It is
/// written where there was none before, too.
pub proof fn lemma_owners_are_written(info: InfoView, known: Seq<char>)
    requires
        info.owninfo.len() > 0,
        info.scripts.contains_key("postinst"@) ==> known == info.scripts["postinst"@]@,
        !info.scripts.contains_key("postinst"@) ==> known == Seq::<char>::empty(),
        !all_white(with_fixups(known, info.owninfo, info.modeinfo)),
    ensures
        is_only(
            script_files(info),
            FileView {
                name: "postinst"@,
                contents: with_fixups(known, info.owninfo, info.modeinfo),
                executable: false,
            },
        ),
{
    lemma_script_names();
    lemma_script_file_count(info, "postinst"@);
    lemma_something_left(with_fixups(known, info.owninfo, info.modeinfo));
}

/// What goes into the file of a script other than the one that runs after
/// installation is the script, if there is one and it is not blank.
pub proof fn lemma_other_script_is_copied(info: InfoView, name: Seq<char>)
    requires
        name != "postinst"@,
    ensures
        info.scripts.contains_key(name) && !all_white(info.scripts[name]@) ==> script_file(
            info,
            name,
        ) == Some(info.scripts[name]@),
        !info.scripts.contains_key(name) || all_white(info.scripts[name]@) ==> script_file(
            info,
            name,
        ) is None,
{
    if info.scripts.contains_key(name) {
        lemma_something_left(info.scripts[name]@);
    }
}

/// No script is written that is not there or blank, none but the one that runs
/// after installation where scripts are not used, and nothing else at all.
pub proof fn lemma_no_other_script_is_written(info: InfoView, name: Seq<char>)
    requires
        ({
            ||| !script_names().contains(name)
            ||| !info.use_scripts && name != "postinst"@
            ||| !info.scripts.contains_key(name) && (name != "postinst"@ || info.owninfo.len() == 0)
            ||| info.scripts.contains_key(name) && all_white(info.scripts[name]@) && (name
                != "postinst"@ || info.owninfo.len() == 0)
        }),
    ensures
        count_named(script_files(info), name) == 0,
{
    lemma_script_names();
    lemma_script_file_count(info, name);
    assert(script_names().contains(script_names()[0]));
    assert(script_names().contains(script_names()[1]));
    assert(script_names().contains(script_names()[2]));
    assert(script_names().contains(script_names()[3]));
    if info.scripts.contains_key(name) {
        lemma_something_left(info.scripts[name]@);
    }
    lemma_something_left(Seq::<char>::empty());
}

/// Commands are kept out of a script exactly if it starts with a mark and the
/// word after it, on the same line, is neither the shell nor bash.
pub proof fn lemma_keeps_out(blank: Seq<char>, word: Seq<char>, rest: Seq<char>, after: Seq<char>)
    requires
        all_white(blank),
        is_one_line(blank),
        forall|i: int| 0 <= i < word.len() ==> !is_white(#[trigger] word[i]),
        rest.len() > 0 ==> is_white(rest[0]),
        is_one_line(rest),
        word.len() == 0 ==> rest.len() == 0,
        after.len() > 0 ==> after[0] == '\n',
    ensures
        keeps_out(seq!['#', '!'] + blank + word + rest + after) == (word != "/bin/sh"@ && word
            != "/bin/bash"@),
        !has_mark(rest) ==> !keeps_out(rest + after),
{
    reveal_strlit("#!");
    assert("#!"@ =~= seq!['#', '!']);
    let line = seq!['#', '!'] + blank + word + rest;
    let script = line + after;
    let n = line.len() as int;
    assert forall|j: int| 0 <= j < n implies script[j] != '\n' by {
        if j < 2 {
            assert(script[j] == seq!['#', '!'][j]);
        } else if j < 2 + blank.len() {
            assert(script[j] == blank[j - 2]);
        } else if j < 2 + blank.len() + word.len() {
            assert(script[j] == word[j - 2 - blank.len()]);
        } else {
            assert(script[j] == rest[j - 2 - blank.len() - word.len()]);
        }
    }
    lemma_first_index(script, '\n', n);
    assert(script.take(n) =~= line);
    assert("#!"@ =~= line.subrange(0, 2));
    assert(line.skip(2) =~= blank + (word + rest));
    if word.len() > 0 {
        assert((word + rest)[0] == word[0]);
    }
    lemma_trimmed_start(blank, word + rest);
    lemma_first_word(word, rest);
    let plain = rest + after;
    let m = rest.len() as int;
    assert forall|j: int| 0 <= j < m implies plain[j] != '\n' by {
        assert(plain[j] == rest[j]);
    }
    lemma_first_index(plain, '\n', m);
    assert(plain.take(m) =~= rest);
    if "#!"@.is_prefix_of(rest) {
        assert(rest[0] == '#' && rest[1] == '!');
    }
}

/// A script that commands are not kept out of has them after its first line: the
/// line stays the first, and all that followed it follows them. Where there are
/// no owners to set, or commands are kept out, the script stays.
pub proof fn lemma_script_stays_around_commands(
    line: Seq<char>,
    after: Seq<char>,
    owners: Seq<(Seq<char>, Seq<char>)>,
    modes: Seq<(Seq<char>, u32)>,
)
    requires
        is_one_line(line),
        line.len() > 0,
        after.len() > 0 ==> after[0] == '\n',
    ensures
        owners.len() == 0 || keeps_out(line + after) ==> with_fixups(line + after, owners, modes)
            == line + after,
        owners.len() > 0 && !keeps_out(line + after) ==> with_fixups(line + after, owners, modes)
            == line + "\n# alien added permissions fixup code"@ + fixups(owners, modes) + after,
        owners.len() == 0 ==> with_fixups(Seq::<char>::empty(), owners, modes) == Seq::<
            char,
        >::empty(),
{
    let script = line + after;
    let n = line.len() as int;
    assert forall|j: int| 0 <= j < n implies script[j] != '\n' by {
        assert(script[j] == line[j]);
    }
    lemma_first_index(script, '\n', n);
    assert(script.take(n) =~= line);
    assert(script.skip(n) =~= after);
    if owners.len() > 0 && !keeps_out(script) {
        assert(with_fixups(script, owners, modes) =~= line
            + "\n# alien added permissions fixup code"@ + fixups(owners, modes) + after);
    }
}

/// Every owner has its command, after those of the owners before it: the owner
/// and the file, each between quotes, and if a mode waits for the file, a command
/// for that with the mode in decimal. A quote in the name of a file is written as
/// a quoted quote between two pieces.
pub proof fn lemma_every_owner_has_its_command(
    owners: Seq<(Seq<char>, Seq<char>)>,
    modes: Seq<(Seq<char>, u32)>,
    file: Seq<char>,
    owner: Seq<char>,
    a: Seq<char>,
    b: Seq<char>,
    c: char,
)
    ensures
        fixups(Seq::<(Seq<char>, Seq<char>)>::empty(), modes) == Seq::<char>::empty(),
        lookup(modes, file) is None ==> fixups(owners.push((file, owner)), modes) == fixups(
            owners,
            modes,
        ) + "\nchown '"@ + owner + "' '"@ + quoted_inside(file) + "'"@,
        lookup(modes, file) matches Some(mode) ==> fixups(owners.push((file, owner)), modes)
            == fixups(owners, modes) + "\nchown '"@ + owner + "' '"@ + quoted_inside(file) + "'"@
            + "\nchmod '"@ + decimal(mode as nat) + "' '"@ + quoted_inside(file) + "'"@,
        quoted_inside(a + b) == quoted_inside(a) + quoted_inside(b),
        quoted_inside(seq!['\'']) == seq!['\'', '"', '\'', '"', '\''],
        c != '\'' ==> quoted_inside(seq![c]) == seq![c],
{
    let all = owners.push((file, owner));
    assert(all.drop_last() =~= owners);
    assert(all.last() == (file, owner));
    if let Some(mode) = lookup(modes, file) {
        assert(fixups(all, modes) =~= fixups(owners, modes) + "\nchown '"@ + owner + "' '"@
            + quoted_inside(file) + "'"@ + "\nchmod '"@ + decimal(mode as nat) + "' '"@
            + quoted_inside(file) + "'"@);
    } else {
        assert(fixups(all, modes) =~= fixups(owners, modes) + "\nchown '"@ + owner + "' '"@
            + quoted_inside(file) + "'"@);
    }
    reveal_strlit("'\"'\"'");
    assert("'\"'\"'"@ =~= seq!['\'', '"', '\'', '"', '\'']);
    lemma_replaced(a, b, '\'', c, "'\"'\"'"@);
}

/// Configuration files are listed one on each line, in order, except those in
/// `/etc`, and there is no list if there are no others.
pub proof fn lemma_conffiles_are_listed(conffiles: Seq<Seq<char>>, file: Seq<char>)
    ensures
        conffile_lines(Seq::<Seq<char>>::empty()) == Seq::<char>::empty(),
        !in_etc(file) ==> conffile_lines(conffiles.push(file)) == conffile_lines(conffiles) + file
            + seq!['\n'],
        in_etc(file) ==> conffile_lines(conffiles.push(file)) == conffile_lines(conffiles),
        conffiles_text(conffiles) is None <==> (forall|i: int|
            0 <= i < conffiles.len() ==> in_etc(#[trigger] conffiles[i])),
        conffiles_text(conffiles) matches Some(t) ==> t == conffile_lines(conffiles),
{
    reveal_strlit("\n");
    assert("\n"@ =~= seq!['\n']);
    assert(conffiles.push(file).drop_last() =~= conffiles);
}

/// What stands in a changelog: name, version and release at the start, the format
/// and the version of the program, the changes, and who made it and when at the
/// end.
pub proof fn lemma_changelog_says(
    info: InfoView,
    realname: Seq<char>,
    email: Seq<char>,
    date: Seq<char>,
    alien_version: Seq<char>,
)
    ensures
        ({
            let text = changelog_text(info, realname, email, date, alien_version);
            &&& begins_with(
                text,
                info.name + " ("@ + info.version + "-"@ + info.release
                    + ") experimental; urgency=low\n\n  * Converted from "@ + info.original_format
                    + " format to .deb by alien version "@ + alien_version + "\n\n  "@,
            )
            &&& ends_in(
                text,
                "\n\n  "@ + info.changelog_text + "\n\n  -- "@ + realname + " <"@ + email + ">  "@
                    + date + "\n\n"@,
            )
            &&& text.len() == (info.name + " ("@ + info.version + "-"@ + info.release
                + ") experimental; urgency=low\n\n  * Converted from "@ + info.original_format
                + " format to .deb by alien version "@ + alien_version).len() + ("\n\n  "@
                + info.changelog_text + "\n\n  -- "@ + realname + " <"@ + email + ">  "@ + date
                + "\n\n"@).len()
        }),
{
    let text = changelog_text(info, realname, email, date, alien_version);
    let head = info.name + " ("@ + info.version + "-"@ + info.release
        + ") experimental; urgency=low\n\n  * Converted from "@ + info.original_format
        + " format to .deb by alien version "@ + alien_version;
    let tail = "\n\n  "@ + info.changelog_text + "\n\n  -- "@ + realname + " <"@ + email + ">  "@
        + date + "\n\n"@;
    assert(text =~= head + tail);
    let start = head + "\n\n  "@;
    assert(text.take(start.len() as int) =~= start);
    assert(text.skip(text.len() - tail.len()) =~= tail);
}

/// What stands in a control file: the source and who maintains it, then the
/// package, its architecture, everything it depends on after commas, and at the
/// end its summary and its description.
pub proof fn lemma_control_says(
    info: InfoView,
    realname: Seq<char>,
    email: Seq<char>,
    more: Seq<char>,
)
    ensures
        ({
            let text = control_text(info, realname, email);
            let head = "Source: "@ + info.name
                + "\nSection: alien\nPriority: extra\nMaintainer: "@ + realname + " <"@ + email
                + ">\n\nPackage: "@ + info.name + "\nArchitecture: "@ + info.arch
                + "\nDepends: ${shlibs:Depends}"@ + more_depends(info.depends);
            let tail = "\nDescription: "@ + info.summary + "\n"@ + info.description + "\n\n"@;
            &&& begins_with(text, head)
            &&& ends_in(text, tail)
            &&& text.len() == head.len() + tail.len()
        }),
        more_depends(Seq::<Seq<char>>::empty()) == Seq::<char>::empty(),
        more_depends(info.depends.push(more)) == more_depends(info.depends) + ", "@ + more,
{
    let text = control_text(info, realname, email);
    let head = "Source: "@ + info.name + "\nSection: alien\nPriority: extra\nMaintainer: "@
        + realname + " <"@ + email + ">\n\nPackage: "@ + info.name + "\nArchitecture: "@
        + info.arch + "\nDepends: ${shlibs:Depends}"@ + more_depends(info.depends);
    let tail = "\nDescription: "@ + info.summary + "\n"@ + info.description + "\n\n"@;
    assert(text =~= head + tail);
    assert(text.take(head.len() as int) =~= head);
    assert(text.skip(text.len() - tail.len()) =~= tail);
    assert(info.depends.push(more).drop_last() =~= info.depends);
}

/// What stands in a copyright file: the format and the date, the copyright, and
/// what the package said of itself at the end.
pub proof fn lemma_copyright_says(info: InfoView, date: Seq<char>)
    ensures
        ({
            let text = copyright_text(info, date);
            let head = "This package was debianized by the alien program by converting\na binary ."@
                + info.original_format + " package on "@ + date;
            let tail = "\n\nCopyright: "@ + info.copyright
                + "\n\nInformation from the binary package:\n"@ + info.binary_info + "\n\n"@;
            &&& begins_with(text, head)
            &&& ends_in(text, tail)
            &&& text.len() == head.len() + tail.len()
        }),
{
    let text = copyright_text(info, date);
    let head = "This package was debianized by the alien program by converting\na binary ."@
        + info.original_format + " package on "@ + date;
    let tail = "\n\nCopyright: "@ + info.copyright + "\n\nInformation from the binary package:\n"@
        + info.binary_info + "\n\n"@;
    assert(text =~= head + tail);
    assert(text.take(head.len() as int) =~= head);
    assert(text.skip(text.len() - tail.len()) =~= tail);
}

/// Every file that a source package needs is written once, with what belongs in
/// it, and the rules are the only one that can be run. The list of configuration
/// files is written if there is one, and the scripts as they would be alone.
#[verifier::spinoff_prover]
#[verifier::rlimit(40)]
pub proof fn lemma_every_file_is_written(
    info: InfoView,
    realname: Seq<char>,
    email: Seq<char>,
    date: Seq<char>,
    alien_version: Seq<char>,
    fix_perms: bool,
    name: Seq<char>,
)
    ensures
        ({
            let files = debian_files(info, realname, email, date, alien_version, fix_perms);
            let plain = |name: Seq<char>, contents: Seq<char>|
                FileView { name, contents, executable: false };
            &&& is_only(
                files,
                plain(
                    "changelog"@,
                    changelog_text(info, realname, email, date, alien_version),
                ),
            )
            &&& is_only(files, plain("control"@, control_text(info, realname, email)))
            &&& is_only(files, plain("copyright"@, copyright_text(info, date)))
            &&& is_only(files, plain("compat"@, seq!['7', '\n']))
            &&& is_only(
                files,
                FileView { name: "rules"@, contents: rules_text(fix_perms), executable: true },
            )
            &&& conffiles_text(info.conffiles) matches Some(t) ==> is_only(
                files,
                plain("conffiles"@, t),
            )
            &&& conffiles_text(info.conffiles) is None ==> count_named(files, "conffiles"@) == 0
            &&& script_names().contains(name) ==> count_named(files, name) == count_named(
                script_files(info),
                name,
            )
            &&& forall|f: FileView| script_files(info).contains(f) ==> #[trigger] files.contains(f)
        }),
{
    lemma_script_names();
    reveal_strlit("changelog");
    reveal_strlit("control");
    reveal_strlit("copyright");
    reveal_strlit("conffiles");
    reveal_strlit("compat");
    reveal_strlit("rules");
    reveal_strlit("\n");
    assert("changelog"@[1] == 'h' && "copyright"@[2] == 'p' && "conffiles"@[2] == 'n');
    assert("copyright"@[1] == 'o' && "conffiles"@[1] == 'o');
    assert("control"@[0] == 'c' && "compat"@[0] == 'c' && "rules"@[0] == 'r');
    assert("changelog"@[0] == 'c' && "copyright"@[0] == 'c' && "conffiles"@[0] == 'c');
    assert("changelog"@.len() == 9 && "copyright"@.len() == 9 && "conffiles"@.len() == 9);
    assert("control"@.len() == 7 && "compat"@.len() == 6 && "rules"@.len() == 5);
    assert(decimal(7) + "\n"@ =~= seq!['7', '\n']);
    let f1 = FileView {
        name: "changelog"@,
        contents: changelog_text(info, realname, email, date, alien_version),
        executable: false,
    };
    let f2 = FileView {
        name: "control"@,
        contents: control_text(info, realname, email),
        executable: false,
    };
    let f3 = FileView {
        name: "copyright"@,
        contents: copyright_text(info, date),
        executable: false,
    };
    let opt = crate::deb::writer::optional_file("conffiles"@, conffiles_text(info.conffiles));
    let f5 = FileView { name: "compat"@, contents: seq!['7', '\n'], executable: false };
    let f6 = FileView { name: "rules"@, contents: rules_text(fix_perms), executable: true };
    let scripts = script_files(info);
    let files = debian_files(info, realname, email, date, alien_version, fix_perms);
    assert(files =~= seq![f1] + seq![f2] + seq![f3] + opt + seq![f5] + seq![f6] + scripts);
    lemma_seven_parts(f1, f2, f3, opt, f5, f6, scripts);
    lemma_optional("conffiles"@, conffiles_text(info.conffiles), "changelog"@);
    lemma_optional("conffiles"@, conffiles_text(info.conffiles), "control"@);
    lemma_optional("conffiles"@, conffiles_text(info.conffiles), "copyright"@);
    lemma_optional("conffiles"@, conffiles_text(info.conffiles), "conffiles"@);
    lemma_optional("conffiles"@, conffiles_text(info.conffiles), "compat"@);
    lemma_optional("conffiles"@, conffiles_text(info.conffiles), "rules"@);
    lemma_optional("conffiles"@, conffiles_text(info.conffiles), name);
    lemma_script_file_count(info, "changelog"@);
    lemma_script_file_count(info, "control"@);
    lemma_script_file_count(info, "copyright"@);
    lemma_script_file_count(info, "conffiles"@);
    lemma_script_file_count(info, "compat"@);
    lemma_script_file_count(info, "rules"@);
    if script_names().contains(name) {
        let i = choose|i: int| 0 <= i < script_names().len() && script_names()[i] == name;
        assert(i == 0 || i == 1 || i == 2 || i == 3);
        assert(name[0] == 'p');
    }
}

proof fn lemma_seven_parts(
    f1: FileView,
    f2: FileView,
    f3: FileView,
    opt: Seq<FileView>,
    f5: FileView,
    f6: FileView,
    scripts: Seq<FileView>,
)
    ensures
        ({
            let files = seq![f1] + seq![f2] + seq![f3] + opt + seq![f5] + seq![f6] + scripts;
            &&& forall|name: Seq<char>| #[trigger]
                count_named(files, name) == (if f1.name == name {
                    1nat
                } else {
                    0nat
                }) + (if f2.name == name {
                    1nat
                } else {
                    0nat
                }) + (if f3.name == name {
                    1nat
                } else {
                    0nat
                }) + count_named(opt, name) + (if f5.name == name {
                    1nat
                } else {
                    0nat
                }) + (if f6.name == name {
                    1nat
                } else {
                    0nat
                }) + count_named(scripts, name)
            &&& files.contains(f1) && files.contains(f2) && files.contains(f3)
            &&& files.contains(f5) && files.contains(f6)
            &&& forall|f: FileView| opt.contains(f) ==> #[trigger] files.contains(f)
            &&& forall|f: FileView| scripts.contains(f) ==> #[trigger] files.contains(f)
        }),
{
    let a = seq![f1] + seq![f2];
    let b = a + seq![f3];
    let c = b + opt;
    let d = c + seq![f5];
    let e = d + seq![f6];
    let files = e + scripts;
    assert forall|name: Seq<char>| #[trigger]
        count_named(files, name) == (if f1.name == name {
            1nat
        } else {
            0nat
        }) + (if f2.name == name {
            1nat
        } else {
            0nat
        }) + (if f3.name == name {
            1nat
        } else {
            0nat
        }) + count_named(opt, name) + (if f5.name == name {
            1nat
        } else {
            0nat
        }) + (if f6.name == name {
            1nat
        } else {
            0nat
        }) + count_named(scripts, name) by {
        lemma_count_one(f1, name);
        lemma_count_one(f2, name);
        lemma_count_one(f3, name);
        lemma_count_one(f5, name);
        lemma_count_one(f6, name);
        lemma_count_adds_up(seq![f1], seq![f2], name);
        lemma_count_adds_up(a, seq![f3], name);
        lemma_count_adds_up(b, opt, name);
        lemma_count_adds_up(c, seq![f5], name);
        lemma_count_adds_up(d, seq![f6], name);
        lemma_count_adds_up(e, scripts, name);
    }
    let n = 3 + opt.len() as int;
    assert(files[0] == f1);
    assert(files[1] == f2);
    assert(files[2] == f3);
    assert(files[n] == f5);
    assert(files[n + 1] == f6);
    assert forall|f: FileView| opt.contains(f) implies #[trigger] files.contains(f) by {
        lemma_in_first(b, opt, f);
        lemma_in_first(c, seq![f5], f);
        lemma_in_first(d, seq![f6], f);
        lemma_in_first(e, scripts, f);
    }
    assert forall|f: FileView| scripts.contains(f) implies #[trigger] files.contains(f) by {
        lemma_in_first(e, scripts, f);
    }
}

/// The level of compatibility is the number in decimal, on a line of its own.
pub proof fn lemma_compat(version: u32)
    ensures
        compat_text(version).len() > 1,
        compat_text(version).last() == '\n',
        u32_value(compat_text(version).drop_last()) == Some(version),
{
    reveal_strlit("\n");
    lemma_decimal(version as nat);
    lemma_u32_read_back(version);
    assert(compat_text(version).drop_last() =~= decimal(version as nat));
}

/// A warning is due exactly if there is an owner to set and the script that runs
/// after installation is there and commands are kept out of it.
pub proof fn lemma_warning(w: DebWriter)
    ensures
        w.info@.owninfo.len() == 0 ==> !w.warns(),
        !w.info@.scripts.contains_key("postinst"@) ==> !w.warns(),
        w.info@.owninfo.len() > 0 && w.info@.scripts.contains_key("postinst"@)
            && w.info@.scripts["postinst"@]@.len() > 0 ==> w.warns() == keeps_out(
            w.info@.scripts["postinst"@]@,
        ),
{
    if w.info@.owninfo.len() > 0 {
        crate::deb::writer::lemma_made_up_script_sets_owners(w.info@.owninfo, w.info@.modeinfo);
    }
}

} // verus!
