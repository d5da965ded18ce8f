//! What holds of reading an RPM package.
use vstd::prelude::*;

use crate::laws::scripts::{begins_with, ends_in, has_mark, lemma_unmarked_script};
use crate::laws::text::{all_white, ends_visible, lemma_trimmed, starts_visible};
use crate::package::InfoView;
use crate::rpm::query::{
    field, lemma_step_place, next_step, order, place_of, reply, step_from, Query, RpmError, Step,
};
use crate::rpm::{debian_arch, described, listed_files, rpm_arch, summary_of};
use crate::text::{first_index, is_one_line, lemma_first_index, lines, same_ignoring_case, trimmed};

verus! {

/// A reply counts for its own question, over any earlier one, and for no other.
pub proof fn lemma_reply_counts(
    replies: Seq<(Query, Seq<char>)>,
    q: Query,
    text: Seq<char>,
    other: Query,
)
    ensures
        reply(replies.push((q, text)), q) == Some(text),
        other != q ==> reply(replies.push((q, text)), other) == reply(replies, other),
        reply(Seq::<(Query, Seq<char>)>::empty(), other) is None,
        text != "(none)"@ ==> field(replies.push((q, text)), q) == Some(text),
        text == "(none)"@ ==> field(replies.push((q, text)), q) is None,
        other != q ==> field(replies.push((q, text)), other) == field(replies, other),
{
    assert(replies.push((q, text)).drop_last() =~= replies);
}

/// Whether a text was printed in reply to a question, and is not the word for a
/// field that is missing.
pub open spec fn printed(replies: Seq<(Query, Seq<char>)>, q: Query, text: Seq<char>) -> bool {
    reply(replies, q) == Some(text) && text != "(none)"@
}

/// Whether a question got the reply that the field is missing.
pub open spec fn is_missing(replies: Seq<(Query, Seq<char>)>, q: Query) -> bool {
    reply(replies, q) == Some("(none)"@)
}

/// Every reply fills the field that was asked for, and no other: a reply to one
/// question changes nothing that another was put for.
#[verifier::spinoff_prover]
#[verifier::rlimit(60)]
pub proof fn lemma_reply_fills_field(
    replies: Seq<(Query, Seq<char>)>,
    target: Option<Seq<char>>,
    q: Query,
    text: Seq<char>,
)
    requires
        text != "(none)"@,
    ensures
        ({
            let before = described(replies, target);
            let after = described(replies.push((q, text)), target);
            match q {
                Query::Name => after == (InfoView { name: text, ..before }),
                Query::Version => after == (InfoView { version: text, ..before }),
                Query::Release => after == (InfoView { release: text, ..before }),
                Query::ChangelogText => after == (InfoView { changelog_text: text, ..before }),
                Query::BinaryInfo => after == (InfoView { binary_info: text, ..before }),
                Query::License => after == (InfoView { copyright: text, ..before }),
                Query::Copyright => after == (if field(replies, Query::License) is Some {
                    before
                } else {
                    InfoView { copyright: text, ..before }
                }),
                Query::Arch => after == (if target is Some {
                    before
                } else {
                    InfoView { arch: text, ..before }
                }),
                Query::Summary => after == (InfoView {
                    summary: text,
                    description: if field(replies, Query::Description) is Some {
                        before.description
                    } else {
                        text
                    },
                    ..before
                }),
                Query::Description => after == (InfoView {
                    description: text,
                    summary: if field(replies, Query::Summary) is Some {
                        before.summary
                    } else {
                        after.summary
                    },
                    ..before
                }),
                Query::Conffiles => after == (InfoView { conffiles: after.conffiles, ..before }),
                Query::FileList => after == (InfoView { file_list: after.file_list, ..before }),
                Query::PreIn => after == (InfoView { preinst: after.preinst, ..before }),
                Query::PostIn => after == (InfoView { postinst: after.postinst, ..before }),
                Query::PreUn => after == (InfoView { prerm: after.prerm, ..before }),
                Query::PostUn => after == (InfoView { postrm: after.postrm, ..before }),
                Query::Prefixes => after == (InfoView {
                    preinst: after.preinst,
                    postinst: after.postinst,
                    prerm: after.prerm,
                    postrm: after.postrm,
                    ..before
                }),
            }
        }),
{
    lemma_reply_counts(replies, q, text, Query::Prefixes);
    lemma_reply_counts(replies, q, text, Query::Conffiles);
    lemma_reply_counts(replies, q, text, Query::FileList);
    lemma_reply_counts(replies, q, text, Query::BinaryInfo);
    lemma_reply_counts(replies, q, text, Query::Description);
    lemma_reply_counts(replies, q, text, Query::Summary);
    lemma_reply_counts(replies, q, text, Query::License);
    lemma_reply_counts(replies, q, text, Query::Copyright);
    lemma_reply_counts(replies, q, text, Query::Name);
    lemma_reply_counts(replies, q, text, Query::Version);
    lemma_reply_counts(replies, q, text, Query::Release);
    lemma_reply_counts(replies, q, text, Query::Arch);
    lemma_reply_counts(replies, q, text, Query::ChangelogText);
    lemma_reply_counts(replies, q, text, Query::PreIn);
    lemma_reply_counts(replies, q, text, Query::PostIn);
    lemma_reply_counts(replies, q, text, Query::PreUn);
    lemma_reply_counts(replies, q, text, Query::PostUn);
    match q {
        Query::Prefixes => {},
        Query::Conffiles => {},
        Query::FileList => {},
        Query::BinaryInfo => {},
        Query::Description => {},
        Query::Summary => {},
        Query::License => {},
        Query::Copyright => {},
        Query::Name => {},
        Query::Version => {},
        Query::Release => {},
        Query::Arch => {},
        Query::ChangelogText => {},
        Query::PreIn => {},
        Query::PostIn => {},
        Query::PreUn => {},
        Query::PostUn => {},
    }
}

/// What is not asked for is not made up: what no question is about is blank, and
/// every package read is an RPM package for Red Hat.
pub proof fn lemma_rest_is_blank(
    replies: Seq<(Query, Seq<char>)>,
    target: Option<Seq<char>>,
)
    ensures
        ({
            let info = described(replies, target);
            &&& info.file == Seq::<u8>::empty()
            &&& info.group == Seq::<char>::empty()
            &&& info.depends == Seq::<Seq<char>>::empty()
            &&& !info.use_scripts
            &&& info.scripts == Map::<Seq<char>, String>::empty()
            &&& info.owninfo == Seq::<(Seq<char>, Seq<char>)>::empty()
            &&& info.modeinfo == Seq::<(Seq<char>, u32)>::empty()
            &&& info.distribution == "Red Hat"@
            &&& info.original_format == "rpm"@
        }),
{
}

/// What stands in for a field that is missing.
pub proof fn lemma_stand_ins(replies: Seq<(Query, Seq<char>)>, text: Seq<char>)
    ensures
        is_missing(replies, Query::License) && is_missing(replies, Query::Copyright) ==> described(
            replies,
            None,
        ).copyright == "unknown"@,
        is_missing(replies, Query::Arch) ==> described(replies, None).arch == Seq::<char>::empty(),
        is_missing(replies, Query::ChangelogText) ==> described(replies, None).changelog_text
            == Seq::<char>::empty(),
        is_missing(replies, Query::Summary) && is_missing(replies, Query::Description) ==> described(
            replies,
            None,
        ).summary == "Converted RPM package"@ && described(replies, None).description
            == "Converted RPM package"@,
        is_missing(replies, Query::Summary) && printed(replies, Query::Description, text)
            ==> described(replies, None).summary == summary_of(None, Some(text)),
{
    let none = Seq::<char>::empty();
    assert(none.take(first_index(none, '\n') as int) =~= none);
}

/// A description stands in for a summary with its first line, and for one that
/// starts with an empty line, or is empty, nothing of it does.
pub proof fn lemma_first_line_sums_up(line: Seq<char>, rest: Seq<char>)
    requires
        is_one_line(line),
    ensures
        line.len() > 0 ==> summary_of(None, Some(line)) == line,
        line.len() > 0 ==> summary_of(None, Some(line + seq!['\n'] + rest)) == line,
        summary_of(None, Some(seq!['\n'] + rest)) == "Converted RPM package"@,
        summary_of(None, Some(Seq::<char>::empty())) == "Converted RPM package"@,
        summary_of(None, None) == "Converted RPM package"@,
        summary_of(Some(line), Some(rest)) == line,
{
    let n = line.len() as int;
    let whole = line + seq!['\n'] + rest;
    assert(whole[n] == '\n');
    assert forall|j: int| 0 <= j < n implies whole[j] != '\n' by {
        assert(whole[j] == line[j]);
    }
    lemma_first_index(line, '\n', n);
    lemma_first_index(whole, '\n', n);
    assert(whole.take(n) =~= line);
    assert(line.take(n) =~= line);
    let none = Seq::<char>::empty();
    assert(none.take(first_index(none, '\n') as int) =~= none);
    let empty_line = seq!['\n'] + rest;
    lemma_first_index(empty_line, '\n', 0);
    assert(empty_line.take(0) =~= none);
}

/// A listing has a file for every line, without the white space around it, in
/// order. One that starts with the words for a package without files has none.
pub proof fn lemma_every_line_is_a_file(listing: Seq<char>, i: int)
    requires
        0 <= i < lines(listing).len(),
    ensures
        trimmed(lines(listing)[0]) == "(contains no files)"@ ==> listed_files(listing).len() == 0,
        trimmed(lines(listing)[0]) != "(contains no files)"@ ==> {
            &&& listed_files(listing).len() == lines(listing).len()
            &&& forall|before: Seq<char>, file: Seq<char>, after: Seq<char>|
                all_white(before) && all_white(after) && starts_visible(file) && ends_visible(file)
                    && lines(listing)[i] == #[trigger] (before + file + after) ==> listed_files(
                    listing,
                )[i] == file
        },
{
    if trimmed(lines(listing)[0]) != "(contains no files)"@ {
        assert forall|before: Seq<char>, file: Seq<char>, after: Seq<char>|
            all_white(before) && all_white(after) && starts_visible(file) && ends_visible(file)
                && lines(listing)[i] == #[trigger] (before + file + after) implies listed_files(
            listing,
        )[i] == file by {
            lemma_trimmed(before, file, after);
        }
    }
}

/// The configuration files and the files of a package are what is listed in
/// reply to their own questions, and what it says of itself is taken down as it
/// is printed.
pub proof fn lemma_lists_are_told_apart(
    replies: Seq<(Query, Seq<char>)>,
    target: Option<Seq<char>>,
    conffiles: Seq<char>,
    files: Seq<char>,
    binary_info: Seq<char>,
)
    requires
        reply(replies, Query::Conffiles) == Some(conffiles),
        reply(replies, Query::FileList) == Some(files),
        reply(replies, Query::BinaryInfo) == Some(binary_info),
    ensures
        described(replies, target).binary_info == binary_info,
        described(replies, target).conffiles == listed_files(conffiles),
        described(replies, target).file_list == listed_files(files),
{
}

/// The script of a package that a question is about.
pub open spec fn script_asked_for(info: InfoView, q: Query) -> Option<Seq<char>> {
    match q {
        Query::PreIn => info.preinst,
        Query::PostIn => info.postinst,
        Query::PreUn => info.prerm,
        Query::PostUn => info.postrm,
        _ => None,
    }
}

/// Whether a question is about a script.
pub open spec fn asks_for_script(q: Query) -> bool {
    q == Query::PreIn || q == Query::PostIn || q == Query::PreUn || q == Query::PostUn
}

/// A script of a package depends on the reply to its own question and on the
/// prefix, and on nothing else.
pub proof fn lemma_script_depends_on_its_reply(
    a: Seq<(Query, Seq<char>)>,
    b: Seq<(Query, Seq<char>)>,
    target_a: Option<Seq<char>>,
    target_b: Option<Seq<char>>,
    q: Query,
)
    requires
        asks_for_script(q),
        reply(a, q) == reply(b, q),
        reply(a, Query::Prefixes) == reply(b, Query::Prefixes),
    ensures
        script_asked_for(described(a, target_a), q) == script_asked_for(described(b, target_b), q),
{
}

/// A script that names no interpreter is the end of the script of the package
/// that was asked for, under a line that calls for bash, and all of it if the
/// package cannot be relocated. Where there is none, that line is all there is.
pub proof fn lemma_script_is_kept(
    replies: Seq<(Query, Seq<char>)>,
    target: Option<Seq<char>>,
    q: Query,
    script: Seq<char>,
    prefix: Seq<char>,
)
    requires
        asks_for_script(q),
        printed(replies, q, script) || is_missing(replies, q),
        printed(replies, Query::Prefixes, prefix) || is_missing(replies, Query::Prefixes),
        !has_mark(script),
    ensures
        ({
            let r = script_asked_for(described(replies, target), q);
            &&& r is Some
            &&& begins_with(r.unwrap(), "#!/bin/bash\n"@)
            &&& printed(replies, q, script) ==> ends_in(r.unwrap(), script)
            &&& printed(replies, q, script) && is_missing(replies, Query::Prefixes) ==> r.unwrap()
                == "#!/bin/bash\n"@ + script
            &&& is_missing(replies, q) && is_missing(replies, Query::Prefixes) ==> r.unwrap()
                == "#!/bin/bash\n"@
        }),
{
    lemma_unmarked_script(prefix, script);
    let bash = "#!/bin/bash\n"@;
    assert((bash + script).take(bash.len() as int) =~= bash);
    assert((bash + script).skip(bash.len() as int) =~= script);
    assert(bash.take(bash.len() as int) =~= bash);
}

/// Every script of a package names an interpreter.
pub proof fn lemma_scripts_name_interpreters(
    replies: Seq<(Query, Seq<char>)>,
    target: Option<Seq<char>>,
    q: Query,
)
    requires
        asks_for_script(q),
    ensures
        script_asked_for(described(replies, target), q) is Some,
        has_mark(script_asked_for(described(replies, target), q).unwrap()),
{
    let prefixes = field(replies, Query::Prefixes);
    crate::rpm::script::lemma_names_interpreter(prefixes, field(replies, q));
    reveal_strlit("#!");
    let r = script_asked_for(described(replies, target), q).unwrap();
    assert(r[0] == "#!"@[0] && r[1] == "#!"@[1]);
}

/// Whether every question that a package has to be asked has its reply: the
/// copyright only where there is no license, the architecture only where the
/// user did not name one. Name, version and release must not be missing.
pub open spec fn is_answered(replies: Seq<(Query, Seq<char>)>, named_target: bool) -> bool {
    &&& forall|q: Query|
        q != Query::Copyright && q != Query::Arch ==> #[trigger] reply(replies, q) is Some
    &&& is_missing(replies, Query::License) ==> reply(replies, Query::Copyright) is Some
    &&& !named_target ==> reply(replies, Query::Arch) is Some
    &&& !is_missing(replies, Query::Name)
    &&& !is_missing(replies, Query::Version)
    &&& !is_missing(replies, Query::Release)
}

proof fn lemma_settled_from(replies: Seq<(Query, Seq<char>)>, named_target: bool, place: nat)
    requires
        is_answered(replies, named_target),
        place <= order().len(),
    ensures
        step_from(replies, named_target, place) == Step::Ready,
    decreases order().len() - place,
{
    if place < order().len() {
        let q = order()[place as int];
        assert(q != Query::Copyright && q != Query::Arch ==> reply(replies, q) is Some);
        assert(reply(replies, Query::License) is Some);
        lemma_settled_from(replies, named_target, place + 1);
    }
}

proof fn lemma_places()
    ensures
        forall|q: Query| place_of(q) < order().len() && order()[#[trigger] place_of(q) as int] == q,
{
}

/// A package can be told exactly if every question has its reply.
pub proof fn lemma_ready_when_answered(replies: Seq<(Query, Seq<char>)>, named_target: bool)
    ensures
        next_step(replies, named_target) == Step::Ready <==> is_answered(replies, named_target),
{
    if is_answered(replies, named_target) {
        lemma_settled_from(replies, named_target, 0);
    }
    if next_step(replies, named_target) == Step::Ready {
        crate::rpm::query::lemma_ready(replies, named_target);
        assert forall|q: Query| q != Query::Copyright && q != Query::Arch implies #[trigger] reply(
            replies,
            q,
        ) is Some by {}
        assert(reply(replies, Query::Copyright) is Some || field(replies, Query::License) is Some);
        assert(reply(replies, Query::Arch) is Some || named_target);
    }
}

/// A question is put only if it has no reply yet, the copyright only if there is
/// no license, the architecture only if the user did not name one, and each only
/// after those before it.
pub proof fn lemma_question_is_due(
    replies: Seq<(Query, Seq<char>)>,
    named_target: bool,
    q: Query,
    earlier: Query,
)
    requires
        next_step(replies, named_target) == Step::Ask(q),
        place_of(earlier) < place_of(q),
        earlier != Query::Copyright,
        earlier != Query::Arch,
    ensures
        reply(replies, q) is None,
        q == Query::Copyright ==> field(replies, Query::License) is None,
        q == Query::Arch ==> !named_target,
        reply(replies, earlier) is Some,
{
    lemma_step_place(replies, named_target, 0);
    lemma_places();
    assert(order()[place_of(earlier) as int] == earlier);
}

proof fn lemma_fail_from(replies: Seq<(Query, Seq<char>)>, named_target: bool, place: nat)
    ensures
        match step_from(replies, named_target, place) {
            Step::Fail(RpmError::NoName) => is_missing(replies, Query::Name),
            Step::Fail(RpmError::NoVersion) => is_missing(replies, Query::Version),
            Step::Fail(RpmError::NoRelease) => is_missing(replies, Query::Release),
            Step::Fail(RpmError::Unasked(_)) => false,
            _ => true,
        },
    decreases order().len() - place,
{
    if place < order().len() {
        lemma_fail_from(replies, named_target, place + 1);
    }
}

/// A package is refused only for a name, a version or a release that is missing,
/// and then for the one that is.
pub proof fn lemma_refused_for_what_is_missing(
    replies: Seq<(Query, Seq<char>)>,
    named_target: bool,
)
    ensures
        match next_step(replies, named_target) {
            Step::Fail(RpmError::NoName) => is_missing(replies, Query::Name),
            Step::Fail(RpmError::NoVersion) => is_missing(replies, Query::Version),
            Step::Fail(RpmError::NoRelease) => is_missing(replies, Query::Release),
            Step::Fail(RpmError::Unasked(_)) => false,
            _ => true,
        },
{
    lemma_fail_from(replies, named_target, 0);
}

/// The architecture that the user names counts over the package's own, under the
/// name that Debian has for it.
pub proof fn lemma_named_target_counts(
    a: Seq<(Query, Seq<char>)>,
    b: Seq<(Query, Seq<char>)>,
    target: Seq<char>,
    arch: Seq<char>,
)
    ensures
        described(a, Some(target)).arch == described(b, Some(target)).arch,
        described(a, Some(target)).arch == debian_arch(target),
        printed(a, Query::Arch, arch) ==> described(a, None).arch == arch,
{
}

/// Names of architectures are changed only where they are known by another: a
/// few words, a few numbers, the Pentium in whatever case, and an `i` before
/// three figures that end in 86.
pub proof fn lemma_only_known_architectures_change(target: Seq<char>)
    ensures
        debian_arch(target) != target ==> {
            ||| seq![
                "1"@,
                "2"@,
                "3"@,
                "6"@,
                "noarch"@,
                "ppc"@,
                "x86_64"@,
                "em64t"@,
                "armv4l"@,
                "armv7l"@,
                "parisc"@,
                "ppc64le"@,
            ].contains(target)
            ||| same_ignoring_case(target, "pentium"@)
            ||| target.len() == 4 && (target[0] == 'i' || target[0] == 'I') && '0' <= target[1]
                <= '9' && target[2] == '8' && target[3] == '6'
        },
        rpm_arch(target) != target ==> seq![
            "amd64"@,
            "powerpc"@,
            "hppa"@,
            "all"@,
            "ppc64el"@,
        ].contains(target),
{
    let known = seq![
        "1"@,
        "2"@,
        "3"@,
        "6"@,
        "noarch"@,
        "ppc"@,
        "x86_64"@,
        "em64t"@,
        "armv4l"@,
        "armv7l"@,
        "parisc"@,
        "ppc64le"@,
    ];
    assert(known[0] == "1"@ && known[1] == "2"@ && known[2] == "3"@ && known[3] == "6"@);
    assert(known[4] == "noarch"@ && known[5] == "ppc"@ && known[6] == "x86_64"@);
    assert(known[7] == "em64t"@ && known[8] == "armv4l"@ && known[9] == "armv7l"@);
    assert(known[10] == "parisc"@ && known[11] == "ppc64le"@);
    let names = seq!["amd64"@, "powerpc"@, "hppa"@, "all"@, "ppc64el"@];
    assert(names[0] == "amd64"@ && names[1] == "powerpc"@ && names[2] == "hppa"@);
    assert(names[3] == "all"@ && names[4] == "ppc64el"@);
}

/// Everything that runs what a 386 runs is a 386: an `i` or an `I`, a figure and
/// 86, or the Pentium in whatever case.
pub proof fn lemma_386_and_up(i: char, figure: char, pentium: Seq<char>)
    requires
        i == 'i' || i == 'I',
        '0' <= figure <= '9',
        same_ignoring_case(pentium, "pentium"@),
    ensures
        debian_arch(seq![i, figure, '8', '6']) == "i386"@,
        debian_arch(pentium) == "i386"@,
{
    reveal_strlit("1");
    reveal_strlit("2");
    reveal_strlit("3");
    reveal_strlit("6");
    reveal_strlit("noarch");
    reveal_strlit("ppc");
    reveal_strlit("x86_64");
    reveal_strlit("em64t");
    reveal_strlit("armv4l");
    reveal_strlit("armv7l");
    reveal_strlit("parisc");
    reveal_strlit("ppc64le");
    reveal_strlit("pentium");
    let t = seq![i, figure, '8', '6'];
    assert(t.len() == 4);
    assert("1"@.len() == 1 && "2"@.len() == 1 && "3"@.len() == 1 && "6"@.len() == 1);
    assert("noarch"@.len() == 6 && "ppc"@.len() == 3 && "x86_64"@.len() == 6);
    assert("em64t"@.len() == 5 && "armv4l"@.len() == 6 && "armv7l"@.len() == 6);
    assert("parisc"@.len() == 6 && "ppc64le"@.len() == 7);
    assert(pentium.len() == 7);
    if pentium == "ppc64le"@ {
        assert("ppc64le"@[1] == 'p' && "pentium"@[1] == 'e');
        assert(crate::text::ascii_lower(pentium[1]) == crate::text::ascii_lower("pentium"@[1]));
    }
}

} // verus!
