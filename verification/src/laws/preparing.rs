//! What holds of the spec file that an RPM package is built from, and of how it
//! is built.
use vstd::prelude::*;

use crate::deb::writer::lemma_stands_in;
use crate::laws::scripts::{begins_with, ends_in};
use crate::laws::text::{all_white, lemma_trimmed_start, lemma_without_leading, starts_visible};
use crate::outside::unescaped;
use crate::package::InfoView;
use crate::rpm::building::{
    build_arguments, failure_text, installed_file, package_name, package_path, rpmdir_in,
};
use crate::rpm::spec_file::{
    comma_separated, file_line, file_lines, requires_line, resolved, script_sections,
    spec_file_name, spec_text,
};
use crate::text::{split, stands_in};

verus! {

/// A text stands in any text that is made of it and more.
proof fn lemma_part(before: Seq<char>, part: Seq<char>, after: Seq<char>)
    ensures
        stands_in(part, before + part + after),
{
    assert(part.subrange(0, 0int + part.len()) =~= part);
    lemma_stands_in(part, before, part, after);
}

proof fn lemma_four_parts(
    first: Seq<char>,
    a: Seq<char>,
    b: Seq<char>,
    c: Seq<char>,
    d: Seq<char>,
    head: Seq<char>,
    rest: Seq<char>,
)
    ensures
        ({
            let text = first + (a + b + c + d) + (head + rest);
            &&& stands_in(a, text)
            &&& stands_in(b, text)
            &&& stands_in(c, text)
            &&& stands_in(d, text)
            &&& stands_in(a + b + c + d + head, text)
        }),
{
    let last = head + rest;
    let text = first + (a + b + c + d) + last;
    lemma_part(first, a, b + c + d + last);
    assert(first + a + (b + c + d + last) =~= text);
    lemma_part(first + a, b, c + d + last);
    assert(first + a + b + (c + d + last) =~= text);
    lemma_part(first + a + b, c, d + last);
    assert(first + a + b + c + (d + last) =~= text);
    lemma_part(first + a + b + c, d, last);
    assert(first + a + b + c + d + last =~= text);
    lemma_part(first, a + b + c + d + head, rest);
    assert(first + (a + b + c + d + head) + rest =~= text);
}

/// The section of a spec file for a script that is there, and nothing for one
/// that is not.
pub open spec fn own_section(script: Option<Seq<char>>) -> Seq<char> {
    if script is Some {
        "%pre\n"@ + script.unwrap() + "\n\n"@
    } else {
        seq![]
    }
}

proof fn lemma_spec_text_parts(
    info: InfoView,
    build_root: Seq<char>,
    alien_version: Seq<char>,
    files: Seq<char>,
) -> (parts: (Seq<char>, Seq<char>))
    ensures
        spec_text(info, build_root, alien_version, files) == parts.0 + script_sections(info)
            + parts.1,
        parts.1 == "%description\n"@ + info.description + "\n\n(Converted from a "@
            + info.original_format + " package by alien version "@ + alien_version
            + ".)\n\n%files\n"@ + files,
        parts.0 == "Buildroot: "@ + build_root + "\nName: "@ + info.name + "\nVersion: "@
            + info.version + "\nRelease: "@ + info.release + "\n"@ + requires_line(info.depends)
            + "Summary: "@ + info.summary + "\nLicense: "@ + info.copyright + "\nDistribution: "@
            + info.distribution + "\nGroup: Converted/"@ + info.group
            + "\n\n%define _rpmdir ../\n%define _rpmfilename %%{NAME}-%%{VERSION}-%%{RELEASE}.%%{ARCH}.rpm\n%define _unpackaged_files_terminate_build 0\n\n"@,
{
    let first = "Buildroot: "@ + build_root + "\nName: "@ + info.name + "\nVersion: "@
        + info.version + "\nRelease: "@ + info.release + "\n"@ + requires_line(info.depends)
        + "Summary: "@ + info.summary + "\nLicense: "@ + info.copyright + "\nDistribution: "@
        + info.distribution + "\nGroup: Converted/"@ + info.group
        + "\n\n%define _rpmdir ../\n%define _rpmfilename %%{NAME}-%%{VERSION}-%%{RELEASE}.%%{ARCH}.rpm\n%define _unpackaged_files_terminate_build 0\n\n"@;
    let last = "%description\n"@ + info.description + "\n\n(Converted from a "@
        + info.original_format + " package by alien version "@ + alien_version
        + ".)\n\n%files\n"@ + files;
    assert(spec_text(info, build_root, alien_version, files) =~= first + script_sections(info)
        + last);
    (first, last)
}

/// Where scripts are used, each that is there stands in the spec file as a
/// section of its own, in the order of their names here, between the header and
/// the description.
pub proof fn lemma_every_script_has_its_section(
    info: InfoView,
    build_root: Seq<char>,
    alien_version: Seq<char>,
    files: Seq<char>,
)
    requires
        info.use_scripts,
    ensures
        ({
            let text = spec_text(info, build_root, alien_version, files);
            &&& info.preinst matches Some(s) ==> stands_in("%pre\n"@ + s + "\n\n"@, text)
            &&& info.postinst matches Some(s) ==> stands_in("%pre\n"@ + s + "\n\n"@, text)
            &&& info.prerm matches Some(s) ==> stands_in("%pre\n"@ + s + "\n\n"@, text)
            &&& info.postrm matches Some(s) ==> stands_in("%pre\n"@ + s + "\n\n"@, text)
            &&& stands_in(
                own_section(info.preinst) + own_section(info.postinst) + own_section(info.prerm)
                    + own_section(info.postrm) + "%description\n"@ + info.description,
                text,
            )
        }),
{
    let text = spec_text(info, build_root, alien_version, files);
    let (first, last) = lemma_spec_text_parts(info, build_root, alien_version, files);
    let (a, b, c, d) = (
        own_section(info.preinst),
        own_section(info.postinst),
        own_section(info.prerm),
        own_section(info.postrm),
    );
    let all = a + b + c + d;
    assert(script_sections(info) =~= all);
    let rest = "\n\n(Converted from a "@ + info.original_format + " package by alien version "@
        + alien_version + ".)\n\n%files\n"@ + files;
    let head = "%description\n"@ + info.description;
    assert(last =~= head + rest);
    lemma_four_parts(first, a, b, c, d, head, rest);
    assert(a + b + c + d + head =~= a + b + c + d + "%description\n"@ + info.description);
}

/// Where scripts are not used, they make no difference to the spec file.
pub proof fn lemma_unused_scripts_are_left_out(
    info: InfoView,
    other: InfoView,
    build_root: Seq<char>,
    alien_version: Seq<char>,
    files: Seq<char>,
)
    requires
        !info.use_scripts,
        other == (InfoView {
            preinst: other.preinst,
            postinst: other.postinst,
            prerm: other.prerm,
            postrm: other.postrm,
            ..info
        }),
    ensures
        spec_text(info, build_root, alien_version, files) == spec_text(
            other,
            build_root,
            alien_version,
            files,
        ),
        stands_in(
            "%define _unpackaged_files_terminate_build 0\n\n%description\n"@ + info.description,
            spec_text(info, build_root, alien_version, files),
        ),
{
    let text = spec_text(info, build_root, alien_version, files);
    let (first, last) = lemma_spec_text_parts(info, build_root, alien_version, files);
    assert(script_sections(info) =~= seq![]);
    let defines =
        "\n\n%define _rpmdir ../\n%define _rpmfilename %%{NAME}-%%{VERSION}-%%{RELEASE}.%%{ARCH}.rpm\n%define _unpackaged_files_terminate_build 0\n\n"@;
    let end = "%define _unpackaged_files_terminate_build 0\n\n%description\n"@;
    reveal_strlit(
        "\n\n%define _rpmdir ../\n%define _rpmfilename %%{NAME}-%%{VERSION}-%%{RELEASE}.%%{ARCH}.rpm\n%define _unpackaged_files_terminate_build 0\n\n",
    );
    reveal_strlit("%define _unpackaged_files_terminate_build 0\n\n%description\n");
    reveal_strlit("%description\n");
    let n = end.len() - "%description\n"@.len();
    let m = defines.len() - n;
    assert(end =~= defines.skip(m) + "%description\n"@);
    let head = "Buildroot: "@ + build_root + "\nName: "@ + info.name + "\nVersion: "@
        + info.version + "\nRelease: "@ + info.release + "\n"@ + requires_line(info.depends)
        + "Summary: "@ + info.summary + "\nLicense: "@ + info.copyright + "\nDistribution: "@
        + info.distribution + "\nGroup: Converted/"@ + info.group;
    assert(first == head + defines);
    let rest = "\n\n(Converted from a "@ + info.original_format + " package by alien version "@
        + alien_version + ".)\n\n%files\n"@ + files;
    assert(defines =~= defines.take(m) + defines.skip(m));
    assert(last =~= "%description\n"@ + info.description + rest);
    assert(text =~= head + defines.take(m) + (end + info.description) + rest);
    lemma_part(head + defines.take(m), end + info.description, rest);
}

/// The header of a spec file has every field of the package on a line of its own,
/// after its label.
pub proof fn lemma_header_has_every_field(
    info: InfoView,
    build_root: Seq<char>,
    alien_version: Seq<char>,
    files: Seq<char>,
)
    ensures
        ({
            let text = spec_text(info, build_root, alien_version, files);
            &&& begins_with(
                text,
                "Buildroot: "@ + build_root + "\nName: "@ + info.name + "\nVersion: "@
                    + info.version + "\nRelease: "@ + info.release + "\n"@,
            )
            &&& stands_in(
                "Summary: "@ + info.summary + "\nLicense: "@ + info.copyright + "\nDistribution: "@
                    + info.distribution + "\nGroup: Converted/"@ + info.group + "\n\n%define "@,
                text,
            )
            &&& ends_in(
                text,
                "%description\n"@ + info.description + "\n\n(Converted from a "@
                    + info.original_format + " package by alien version "@ + alien_version
                    + ".)\n\n%files\n"@ + files,
            )
        }),
{
    let text = spec_text(info, build_root, alien_version, files);
    let (first, last) = lemma_spec_text_parts(info, build_root, alien_version, files);
    let start = "Buildroot: "@ + build_root + "\nName: "@ + info.name + "\nVersion: "@
        + info.version + "\nRelease: "@ + info.release + "\n"@;
    let middle = "Summary: "@ + info.summary + "\nLicense: "@ + info.copyright
        + "\nDistribution: "@ + info.distribution + "\nGroup: Converted/"@ + info.group;
    let defines =
        "\n\n%define _rpmdir ../\n%define _rpmfilename %%{NAME}-%%{VERSION}-%%{RELEASE}.%%{ARCH}.rpm\n%define _unpackaged_files_terminate_build 0\n\n"@;
    assert(first =~= start + requires_line(info.depends) + middle + defines);
    assert(text.take(start.len() as int) =~= start);
    assert(text.skip(text.len() - last.len()) =~= last);
    reveal_strlit(
        "\n\n%define _rpmdir ../\n%define _rpmfilename %%{NAME}-%%{VERSION}-%%{RELEASE}.%%{ARCH}.rpm\n%define _unpackaged_files_terminate_build 0\n\n",
    );
    reveal_strlit("\n\n%define ");
    let mark = "\n\n%define "@;
    let more = defines.skip(mark.len() as int) + script_sections(info) + last;
    assert(defines =~= mark + defines.skip(mark.len() as int));
    assert(text =~= start + requires_line(info.depends) + (middle + mark) + more);
    lemma_part(start + requires_line(info.depends), middle + mark, more);
}

/// The packages that a package depends on stand in its spec file with commas
/// between them, on a line of their own after the release, and there is no such
/// line if there are none.
pub proof fn lemma_dependencies_are_required(
    info: InfoView,
    build_root: Seq<char>,
    alien_version: Seq<char>,
    files: Seq<char>,
    more: Seq<char>,
)
    ensures
        info.depends.len() > 0 ==> stands_in(
            "\nRelease: "@ + info.release + "\n"@ + "Requires: "@ + comma_separated(info.depends)
                + "\n"@ + "Summary: "@,
            spec_text(info, build_root, alien_version, files),
        ),
        info.depends.len() == 0 ==> stands_in(
            "\nRelease: "@ + info.release + "\n"@ + "Summary: "@,
            spec_text(info, build_root, alien_version, files),
        ),
        comma_separated(seq![more]) == more,
        info.depends.len() > 0 ==> comma_separated(info.depends.push(more)) == comma_separated(
            info.depends,
        ) + ", "@ + more,
{
    let text = spec_text(info, build_root, alien_version, files);
    let (first, last) = lemma_spec_text_parts(info, build_root, alien_version, files);
    let start = "Buildroot: "@ + build_root + "\nName: "@ + info.name + "\nVersion: "@
        + info.version;
    let part = "\nRelease: "@ + info.release + "\n"@ + requires_line(info.depends) + "Summary: "@;
    let rest = info.summary + "\nLicense: "@ + info.copyright + "\nDistribution: "@
        + info.distribution + "\nGroup: Converted/"@ + info.group
        + "\n\n%define _rpmdir ../\n%define _rpmfilename %%{NAME}-%%{VERSION}-%%{RELEASE}.%%{ARCH}.rpm\n%define _unpackaged_files_terminate_build 0\n\n"@
        + script_sections(info) + last;
    assert(text =~= start + part + rest);
    lemma_part(start, part, rest);
    if info.depends.len() > 0 {
        assert(part =~= "\nRelease: "@ + info.release + "\n"@ + "Requires: "@ + comma_separated(
            info.depends,
        ) + "\n"@ + "Summary: "@);
    } else {
        assert(part =~= "\nRelease: "@ + info.release + "\n"@ + "Summary: "@);
    }
    assert(info.depends.push(more).drop_last() =~= info.depends);
}

/// Every file has its line in the list, in order: quoted, as a directory if its
/// name ends in a slash, and otherwise as a configuration file if it is one.
pub proof fn lemma_every_file_has_its_line(
    names: Seq<Seq<char>>,
    more: Seq<Seq<char>>,
    name: Seq<char>,
    conffiles: Seq<Seq<char>>,
)
    ensures
        file_lines(names + more, conffiles) == file_lines(names, conffiles) + file_lines(
            more,
            conffiles,
        ),
        file_lines(seq![name], conffiles) == (if name.len() > 0 && name[name.len() - 1] == '/' {
            "%dir "@
        } else if exists|i: int| 0 <= i < conffiles.len() && conffiles[i] == name {
            "%config "@
        } else {
            ""@
        }) + seq!['"'] + name + seq!['"', '\n'],
    decreases more.len(),
{
    reveal_strlit("%dir \"");
    reveal_strlit("%dir ");
    reveal_strlit("%config \"");
    reveal_strlit("%config ");
    reveal_strlit("\"");
    reveal_strlit("");
    reveal_strlit("\"\n");
    assert("%dir \""@ =~= "%dir "@ + seq!['"']);
    assert("%config \""@ =~= "%config "@ + seq!['"']);
    assert("\""@ =~= ""@ + seq!['"']);
    assert("\"\n"@ =~= seq!['"', '\n']);
    assert(seq![name].drop_last() =~= Seq::<Seq<char>>::empty());
    assert(file_lines(Seq::<Seq<char>>::empty(), conffiles) =~= seq![]);
    assert(file_lines(seq![name], conffiles) =~= file_line(name, conffiles));
    if more.len() == 0 {
        assert(names + more =~= names);
        assert(file_lines(names, conffiles) + file_lines(more, conffiles) =~= file_lines(
            names,
            conffiles,
        ));
    } else {
        lemma_every_file_has_its_line(names, more.drop_last(), name, conffiles);
        assert((names + more).drop_last() =~= names + more.drop_last());
        assert(file_lines(names + more, conffiles) =~= file_lines(names, conffiles) + file_lines(
            more,
            conffiles,
        ));
    }
}

/// Names are resolved one by one: all of them if each can be, and otherwise the
/// complaint is the one about the first that cannot.
pub proof fn lemma_names_are_resolved_one_by_one(files: Seq<Seq<char>>, i: int)
    requires
        0 <= i < files.len(),
    ensures
        (forall|j: int| 0 <= j < files.len() ==> (#[trigger] unescaped(files[j])) is Ok)
            ==> resolved(files) is Ok,
        resolved(files) matches Ok(names) ==> names.len() == files.len() && unescaped(files[i])
            == Ok::<Seq<char>, Seq<char>>(names[i]),
        (forall|j: int| 0 <= j < i ==> (#[trigger] unescaped(files[j])) is Ok) ==> (unescaped(
            files[i],
        ) matches Err(e) ==> resolved(files) == Err::<Seq<Seq<char>>, Seq<char>>(e)),
    decreases files.len(),
{
    let before = files.drop_last();
    let n = before.len() as int;
    assert(files[n] == files.last());
    if n > 0 {
        let k = if i < n {
            i
        } else {
            n - 1
        };
        assert forall|j: int| 0 <= j < n implies before[j] == files[j] by {}
        lemma_names_are_resolved_one_by_one(before, k);
        assert((forall|j: int| 0 <= j < files.len() ==> (#[trigger] unescaped(files[j])) is Ok)
            ==> (forall|j: int| 0 <= j < before.len() ==> (#[trigger] unescaped(before[j])) is Ok));
        assert((forall|j: int| 0 <= j < i ==> (#[trigger] unescaped(files[j])) is Ok) ==> (forall|
            j: int,
        | 0 <= j < k ==> (#[trigger] unescaped(before[j])) is Ok));
        if i == n {
            assert((forall|j: int| 0 <= j < i ==> (#[trigger] unescaped(files[j])) is Ok)
                ==> resolved(before) is Ok) by {
                if forall|j: int| 0 <= j < i ==> (#[trigger] unescaped(files[j])) is Ok {
                    assert forall|j: int| 0 <= j < before.len() implies (#[trigger] unescaped(
                        before[j],
                    )) is Ok by {
                        assert(unescaped(files[j]) is Ok);
                    }
                }
            }
        }
    } else {
        assert(before =~= Seq::<Seq<char>>::empty());
    }
}

/// The spec file and the package share the name, the version and the release,
/// with hyphens between them, and differ in what follows.
pub proof fn lemma_names_of_files(info: InfoView)
    ensures
        ({
            let stem = info.name + seq!['-'] + info.version + seq!['-'] + info.release;
            &&& spec_file_name(info) == stem + ".spec"@
            &&& package_name(info) == stem + seq!['.'] + info.arch + ".rpm"@
        }),
{
    reveal_strlit("-");
    reveal_strlit(".");
    assert("-"@ =~= seq!['-']);
    assert("."@ =~= seq!['.']);
}

/// A package is built where it is started, or, by old versions, in the directory
/// for its architecture.
pub proof fn lemma_where_packages_go(info: InfoView, dir: Seq<char>)
    requires
        dir.len() > 0,
        dir.last() != '/',
        info.arch.len() > 0,
        info.arch[0] != '/',
        info.arch.last() != '/',
        info.name.len() > 0,
        info.name[0] != '/',
    ensures
        package_path(info, None) == package_name(info),
        package_path(info, Some(dir)) == dir + seq!['/'] + info.arch + seq!['/'] + package_name(
            info,
        ),
{
    let a = dir + seq!['/'] + info.arch;
    assert(dir.push('/') + info.arch =~= a);
    assert(a.last() == info.arch.last());
    assert(package_name(info)[0] == info.name[0]);
    assert(a.push('/') + package_name(info) =~= a + seq!['/'] + package_name(info));
}

/// The directory for packages is what the first line that starts with its label
/// has after white space, colons and white space, and other lines make no
/// difference.
pub proof fn lemma_directory_for_packages(
    line: Seq<char>,
    rest: Seq<Seq<char>>,
    blank: Seq<char>,
    colons: Seq<char>,
    gap: Seq<char>,
    dir: Seq<char>,
)
    requires
        all_white(blank),
        all_white(gap),
        forall|i: int| 0 <= i < colons.len() ==> #[trigger] colons[i] == ':',
        colons.len() > 0,
        starts_visible(dir),
        gap.len() == 0 ==> dir.len() == 0 || dir[0] != ':',
    ensures
        rpmdir_in(seq!["rpmdir"@ + blank + colons + gap + dir] + rest) == Some(dir),
        dir.len() > 0 && dir[0] != ':' ==> rpmdir_in(seq!["rpmdir"@ + blank + dir] + rest) == Some(
            dir,
        ),
        !begins_with(line, "rpmdir"@) ==> rpmdir_in(seq![line] + rest) == rpmdir_in(rest),
        rpmdir_in(Seq::<Seq<char>>::empty()) is None,
{
    let label = "rpmdir"@;
    let found = label + blank + colons + gap + dir;
    let all = seq![found] + rest;
    assert(all[0] == found);
    assert(label =~= found.subrange(0, label.len() as int));
    let after = found.skip(label.len() as int);
    assert(after =~= blank + (colons + gap + dir));
    assert((colons + gap + dir)[0] == colons[0]);
    lemma_trimmed_start(blank, colons + gap + dir);
    assert(colons + gap + dir =~= colons + (gap + dir));
    if gap.len() > 0 {
        assert((gap + dir)[0] == gap[0]);
    } else {
        assert(gap + dir =~= dir);
    }
    lemma_without_leading(colons, ':', gap + dir);
    lemma_trimmed_start(gap, dir);
    if dir.len() > 0 && dir[0] != ':' {
        let bare = label + blank + dir;
        assert((seq![bare] + rest)[0] == bare);
        assert(label =~= bare.subrange(0, label.len() as int));
        assert(bare.skip(label.len() as int) =~= blank + dir);
        lemma_trimmed_start(blank, dir);
        let none = Seq::<char>::empty();
        assert(none + dir =~= dir);
        lemma_without_leading(none, ':', dir);
        lemma_trimmed_start(none, dir);
    }
    let other = seq![line] + rest;
    assert(other[0] == line);
    assert(other.skip(1) =~= rest);
    if label.is_prefix_of(line) {
        assert(line.take(label.len() as int) =~= line.subrange(0, label.len() as int));
    }
}

/// The arguments for a build, by their places: the build root, what to build, the
/// architecture under the option for the version of `rpm`, the options that the
/// user set, and the spec file as the last.
pub proof fn lemma_arguments_in_their_places(
    info: InfoView,
    build_root: Seq<char>,
    dir: Seq<char>,
    options: Seq<char>,
)
    ensures
        ({
            let new = build_arguments(info, build_root, None, None);
            let old = build_arguments(info, build_root, Some(dir), None);
            let set = build_arguments(info, build_root, None, Some(options));
            &&& new.len() == 6 && old.len() == 6
            &&& new[0] == "--buildroot"@ && new[1] == build_root && new[2] == "-bb"@
            &&& new[3] == "--target"@ && new[4] == info.arch
            &&& new[5] == spec_file_name(info)
            &&& old == new.update(3, "--buildarch"@)
            &&& set == new.take(5) + split(options, ' ') + new.skip(5)
        }),
{
    let new = build_arguments(info, build_root, None, None);
    assert(build_arguments(info, build_root, Some(dir), None) =~= new.update(3, "--buildarch"@));
    assert(build_arguments(info, build_root, None, Some(options)) =~= new.take(5) + split(
        options,
        ' ',
    ) + new.skip(5));
}

/// The complaint about a build that failed starts with the command and ends with
/// all that was printed.
pub proof fn lemma_failure_tells_all(command: Seq<char>, log: Seq<char>)
    ensures
        begins_with(
            failure_text(command, log),
            "Package build failed. Here's the log of the command ("@ + command + "):\n"@,
        ),
        ends_in(failure_text(command, log), log),
        failure_text(command, log).len() == failure_text(command, seq![]).len() + log.len(),
{
    let text = failure_text(command, log);
    let head = "Package build failed. Here's the log of the command ("@ + command + "):\n"@;
    assert(text.take(head.len() as int) =~= head);
    assert(text.skip(text.len() - log.len()) =~= log);
}

/// The file that is installed is the one that was asked for, after the options,
/// if there are any, and a slash.
pub proof fn lemma_installed_file(options: Seq<u8>, file_name: Seq<u8>)
    requires
        file_name.len() > 0,
        file_name[0] != 47u8,
        options.len() > 0,
        options.last() != 47u8,
    ensures
        installed_file(None, file_name) == file_name,
        installed_file(Some(options), file_name) == options + seq![47u8] + file_name,
        installed_file(Some(options), seq![47u8] + file_name) == seq![47u8] + file_name,
        installed_file(Some(options + seq![47u8]), file_name) == options + seq![47u8] + file_name,
        installed_file(Some(Seq::<u8>::empty()), file_name) == file_name,
{
    assert((options + seq![47u8]).last() == 47u8);
    assert(Seq::<u8>::empty() + file_name =~= file_name);
    assert(options.push(47u8) + file_name =~= options + seq![47u8] + file_name);
}

} // verus!
