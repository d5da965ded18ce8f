use alien::package::{Args, Format, PackageInfo};
use alien::path::path_below;
use alien::rpm::building::{build_result, find_rpmdir};
use alien::rpm::query::{Query, Replies, RpmError, Step};
use alien::rpm::script::{carrier_of, fits_encoded, sanitize_script, script_helper};
use alien::rpm::spec_file::{line_for_file, lines_for_files, resolve_names};
use alien::rpm::unpacking::{
    archived_files, decompressor, directories_to, owner_arguments, parse_entry,
    read_entries, wants_default_mode, Ownership, RelocationStep, SeenFile,
};
use alien::rpm::{debian_arch_for, files_in, rpm_arch_for, summary_for, Rpm};

fn args(target: Option<&str>) -> Args {
    Args {
        target: target.map(String::from),
        single: false,
        generate: false,
        nopatch: false,
        anypatch: false,
        patch: None,
        fixperms: false,
    }
}

fn text(s: &str) -> Option<String> {
    Some(s.to_string())
}

/// What an imaginary `rpm` prints.
fn printed(q: Query) -> &'static str {
    match q {
        Query::Prefixes => "(none)",
        Query::Conffiles => "/etc/tool.conf\n  /opt/tool.conf \n",
        Query::FileList => "/usr/bin/tool\n/etc/tool.conf\n",
        Query::BinaryInfo => "Name: tool\n",
        Query::Description => "A tool.\nIt is used.",
        Query::Summary => "tool summary",
        Query::License => "GPL",
        Query::Copyright => "Somebody",
        Query::Name => "tool",
        Query::Version => "1.0",
        Query::Release => "3",
        Query::Arch => "x86_64",
        Query::ChangelogText => "- first",
        Query::PreIn => "(none)",
        Query::PostIn => "#!/bin/sh\necho hi\n",
        Query::PreUn => "echo bye\n",
        Query::PostUn => "(none)",
    }
}

/// Puts questions until there are none left, with some replies changed.
fn interview(named_target: bool, changed: &[(Query, &str)]) -> (Replies, Vec<Query>, Step) {
    let mut replies = Replies::new();
    let mut asked = Vec::new();
    loop {
        match replies.next_step(named_target) {
            Step::Ask(q) => {
                asked.push(q);
                let reply = changed.iter().find(|c| c.0 == q).map(|c| c.1);
                replies.record(q, reply.unwrap_or(printed(q)).to_string());
            }
            step => return (replies, asked, step),
        }
    }
}

fn read(changed: &[(Query, &str)], a: &Args) -> Rpm {
    let (replies, _, step) = interview(a.target.is_some(), changed);
    assert_eq!(step, Step::Ready);
    match Rpm::new(b"tool.rpm".to_vec(), &replies, a) {
        Ok(rpm) => rpm,
        Err(e) => panic!("{}", e.message()),
    }
}

fn plain() -> Rpm {
    read(&[], &args(None))
}

#[test]
fn extension_decides() {
    assert!(Rpm::check_file(b"dir.d/tool-1.0-1.i386.rpm"));
    assert!(Rpm::check_file(b"tool.RpM"));
    assert!(Rpm::check_file(b"tool.rpm/"));
    assert!(Rpm::check_file(b"tool.rpm/."));
    assert!(Rpm::check_file(b"..rpm"));
    assert!(Rpm::check_file(b"\xff\xfe.rpm"));
    assert!(!Rpm::check_file(b"tool.deb"));
    assert!(!Rpm::check_file(b"tool.rpm.gz"));
    assert!(!Rpm::check_file(b".rpm"));
    assert!(!Rpm::check_file(b"rpm"));
    assert!(!Rpm::check_file(b"tool.rpm/.."));
    assert!(!Rpm::check_file(b"tool.rpm."));
    assert!(!Rpm::check_file(b""));
}

#[test]
fn questions_come_in_order() {
    let (_, asked, step) = interview(false, &[]);
    assert_eq!(step, Step::Ready);
    assert_eq!(
        asked,
        vec![
            Query::Prefixes,
            Query::Conffiles,
            Query::FileList,
            Query::BinaryInfo,
            Query::Description,
            Query::Summary,
            Query::License,
            Query::Name,
            Query::Version,
            Query::Release,
            Query::Arch,
            Query::ChangelogText,
            Query::PreIn,
            Query::PostIn,
            Query::PreUn,
            Query::PostUn,
        ]
    );
}

#[test]
fn copyright_is_asked_for_without_license() {
    let (_, asked, _) = interview(false, &[(Query::License, "(none)")]);
    assert_eq!(asked[7], Query::Copyright);
    assert_eq!(asked.len(), 17);
}

#[test]
fn architecture_is_not_asked_for_with_target() {
    let (_, asked, _) = interview(true, &[]);
    assert!(!asked.contains(&Query::Arch));
}

#[test]
fn questions_have_arguments() {
    assert_eq!(Query::Conffiles.arguments(), ["-qcp"]);
    assert_eq!(Query::FileList.arguments(), ["-qlp"]);
    assert_eq!(Query::BinaryInfo.arguments(), ["-qip"]);
    let fields = [
        (Query::Prefixes, "%{PREFIXES}"),
        (Query::Description, "%{DESCRIPTION}"),
        (Query::Summary, "%{SUMMARY}"),
        (Query::License, "%{LICENSE}"),
        (Query::Copyright, "%{COPYRIGHT}"),
        (Query::Name, "%{NAME}"),
        (Query::Version, "%{VERSION}"),
        (Query::Release, "%{RELEASE}"),
        (Query::Arch, "%{ARCH}"),
        (Query::ChangelogText, "%{CHANGELOGTEXT}"),
        (Query::PreIn, "%{PREIN}"),
        (Query::PostIn, "%{POSTIN}"),
        (Query::PreUn, "%{PREUN}"),
        (Query::PostUn, "%{POSTUN}"),
    ];
    for (q, format) in fields {
        assert_eq!(q.arguments(), ["-qp", "--queryformat", format]);
    }
}

#[test]
fn missing_name_is_refused() {
    let (replies, asked, step) = interview(false, &[(Query::Name, "(none)")]);
    assert_eq!(step, Step::Fail(RpmError::NoName));
    assert_eq!(asked.last(), Some(&Query::Name));
    let e = Rpm::new(Vec::new(), &replies, &args(None)).err().unwrap();
    assert_eq!(e, RpmError::NoName);
    assert_eq!(e.message(), "Error querying rpm file: name not found!");
}

#[test]
fn missing_version_is_refused() {
    let (replies, _, step) = interview(false, &[(Query::Version, "(none)")]);
    assert_eq!(step, Step::Fail(RpmError::NoVersion));
    let e = Rpm::new(Vec::new(), &replies, &args(None)).err().unwrap();
    assert_eq!(e.message(), "Error querying rpm file: version not found!");
}

#[test]
fn missing_release_is_refused() {
    let (replies, _, step) = interview(false, &[(Query::Release, "(none)")]);
    assert_eq!(step, Step::Fail(RpmError::NoRelease));
    let e = Rpm::new(Vec::new(), &replies, &args(None)).err().unwrap();
    assert_eq!(
        e.message(),
        "Error querying rpm file: release not found or invalid!"
    );
}

#[test]
fn unfinished_interview_is_refused() {
    let replies = Replies::new();
    let e = Rpm::new(Vec::new(), &replies, &args(None)).err().unwrap();
    assert_eq!(e, RpmError::Unasked(Query::Prefixes));
    assert_eq!(
        e.message(),
        "Error querying rpm file: not all fields were read!"
    );
}

#[test]
fn later_reply_counts() {
    let (mut replies, _, _) = interview(false, &[]);
    replies.record(Query::Name, "other".to_string());
    let rpm = Rpm::new(Vec::new(), &replies, &args(None)).ok().unwrap();
    assert_eq!(rpm.info().name, "other");
}

#[test]
fn package_is_described() {
    let rpm = plain();
    let info = rpm.info();
    assert_eq!(rpm.rpm_file, b"tool.rpm");
    assert_eq!(rpm.prefixes, None);
    assert_eq!(info.name, "tool");
    assert_eq!(info.version, "1.0");
    assert_eq!(info.release, "3");
    assert_eq!(info.arch, "x86_64");
    assert_eq!(info.changelog_text, "- first");
    assert_eq!(info.summary, "tool summary");
    assert_eq!(info.description, "A tool.\nIt is used.");
    assert_eq!(info.copyright, "GPL");
    assert_eq!(info.distribution, "Red Hat");
    assert_eq!(info.original_format.name(), "rpm");
    assert_eq!(info.conffiles, ["/etc/tool.conf", "/opt/tool.conf"]);
    assert_eq!(info.file_list, ["/usr/bin/tool", "/etc/tool.conf"]);
    assert_eq!(info.binary_info, "Name: tool\n");
    assert_eq!(info.preinst, text("#!/bin/bash\n"));
    assert_eq!(info.postinst, text("#!/bin/bash\necho hi\n"));
    assert_eq!(info.prerm, text("#!/bin/bash\necho bye\n"));
    assert_eq!(info.postrm, text("#!/bin/bash\n"));
    assert!(!info.use_scripts);
    assert!(info.depends.is_empty());
    assert_eq!(info.group, "");
    assert_eq!(info.owninfo.len(), 0);
    assert_eq!(info.modeinfo.len(), 0);
}

#[test]
fn fallbacks_are_used() {
    let rpm = read(
        &[
            (Query::Summary, "(none)"),
            (Query::Description, "(none)"),
            (Query::License, "(none)"),
            (Query::Copyright, "(none)"),
            (Query::Arch, "(none)"),
            (Query::ChangelogText, "(none)"),
            (Query::Conffiles, "(contains no files)\n"),
            (Query::FileList, " (contains no files)\n/left/over\n"),
        ],
        &args(None),
    );
    assert_eq!(rpm.info.summary, "Converted RPM package");
    assert_eq!(rpm.info.description, "Converted RPM package");
    assert_eq!(rpm.info.copyright, "unknown");
    assert_eq!(rpm.info.arch, "");
    assert_eq!(rpm.info.changelog_text, "");
    assert!(rpm.info.conffiles.is_empty());
    assert!(rpm.info.file_list.is_empty());
}

#[test]
fn copyright_stands_in_for_license() {
    let rpm = read(&[(Query::License, "(none)")], &args(None));
    assert_eq!(rpm.info.copyright, "Somebody");
}

#[test]
fn empty_field_is_no_missing_field() {
    let rpm = read(&[(Query::Name, ""), (Query::Summary, "")], &args(None));
    assert_eq!(rpm.info.name, "");
    assert_eq!(rpm.info.summary, "");
}

#[test]
fn named_target_decides_architecture() {
    let rpm = read(&[], &args(Some("i686")));
    assert_eq!(rpm.info.arch, "i386");
}

#[test]
fn info_can_be_changed() {
    let mut rpm = plain();
    rpm.info_mut().name = "renamed".to_string();
    assert_eq!(rpm.info().name, "renamed");
    assert_eq!(rpm.info().version, "1.0");
}

#[test]
fn listing_is_trimmed() {
    assert_eq!(files_in(" /a \r\n\t/b\n\n/c"), ["/a", "/b", "", "/c"]);
    assert!(files_in("").is_empty());
    assert!(files_in("(contains no files)").is_empty());
    assert_eq!(
        files_in("/a\n(contains no files)"),
        ["/a", "(contains no files)"]
    );
}

#[test]
fn summary_comes_from_description() {
    assert_eq!(summary_for(text("s"), &text("d")), "s");
    assert_eq!(summary_for(None, &text("first\nsecond")), "first");
    assert_eq!(summary_for(None, &text("only")), "only");
    assert_eq!(summary_for(None, &text("\nsecond")), "Converted RPM package");
    assert_eq!(summary_for(None, &text("")), "Converted RPM package");
    assert_eq!(summary_for(None, &None), "Converted RPM package");
}

#[test]
fn architectures_have_debian_names() {
    let known = [
        ("1", "i386"),
        ("2", "alpha"),
        ("3", "sparc"),
        ("6", "m68k"),
        ("noarch", "all"),
        ("ppc", "powerpc"),
        ("x86_64", "amd64"),
        ("em64t", "amd64"),
        ("armv4l", "arm"),
        ("armv7l", "armel"),
        ("parisc", "hppa"),
        ("ppc64le", "ppc64el"),
        ("pentium", "i386"),
        ("PenTium", "i386"),
        ("i386", "i386"),
        ("I986", "i386"),
        ("i086", "i386"),
        ("ia86", "ia86"),
        ("i3866", "i3866"),
        ("NoArch", "NoArch"),
        ("riscv64", "riscv64"),
        ("", ""),
    ];
    for (target, arch) in known {
        assert_eq!(debian_arch_for(target), arch);
    }
}

#[test]
fn architectures_have_rpm_names() {
    let known = [
        ("amd64", "x86_64"),
        ("powerpc", "ppc"),
        ("hppa", "parisc"),
        ("all", "noarch"),
        ("ppc64el", "ppc64le"),
        ("i386", "i386"),
        ("", ""),
    ];
    for (arch, name) in known {
        assert_eq!(rpm_arch_for(arch), name);
        assert_eq!(rpm_arch_for(&rpm_arch_for(arch)), name);
    }
}

#[test]
fn architectures_survive_the_round_trip() {
    for arch in ["amd64", "powerpc", "hppa", "all", "ppc64el"] {
        assert_eq!(debian_arch_for(&rpm_arch_for(arch)), arch);
    }
    for name in ["x86_64", "ppc", "parisc", "noarch", "ppc64le", "i386", "s390x"] {
        assert_eq!(rpm_arch_for(&debian_arch_for(name)), name);
    }
}

#[test]
fn script_without_interpreter_gets_bash() {
    assert_eq!(sanitize_script(&None, None), text("#!/bin/bash\n"));
    assert_eq!(
        sanitize_script(&None, text("echo /bin/sh\n")),
        text("#!/bin/bash\necho /bin/sh\n")
    );
    assert_eq!(
        sanitize_script(&None, text("#!perl\n")),
        text("#!/bin/bash\n#!perl\n")
    );
}

#[test]
fn shell_becomes_bash() {
    assert_eq!(
        sanitize_script(&None, text("#! \t/bin/sh -e\n/bin/sh x\n")),
        text("#!/bin/bash -e\n/bin/sh x\n")
    );
    assert_eq!(
        sanitize_script(&None, text("#!/bin/sh")),
        text("#!/bin/bash")
    );
}

#[test]
fn other_interpreters_stay() {
    for s in ["#!/usr/bin/perl\nprint;\n", "#!/usr/bin/env\n/bin/sh\n", "#!/bin/csh"] {
        assert_eq!(sanitize_script(&None, text(s)), text(s));
    }
    assert_eq!(
        sanitize_script(&None, text("#!  /usr/bin/perl -w\n")),
        text("#!/usr/bin/perl -w\n")
    );
    let rpm = read(&[(Query::PreIn, "#!/usr/bin/perl\n")], &args(None));
    assert_eq!(rpm.info.preinst, text("#!/usr/bin/perl\n"));
    for script in [&rpm.info.preinst, &rpm.info.postinst, &rpm.info.prerm, &rpm.info.postrm] {
        assert!(script.as_ref().unwrap().starts_with("#!"));
    }
}

#[test]
fn prefix_is_set_in_scripts() {
    let prefix = text("/opt");
    assert_eq!(
        sanitize_script(&prefix, text("#!/bin/sh\nls\n")),
        text("#!/bin/bash\nRPM_INSTALL_PREFIX=/opt\nexport RPM_INSTALL_PREFIX\nls\n")
    );
    assert_eq!(
        sanitize_script(&prefix, text("#!/usr/bin/perl\nx\n")),
        text("#!/usr/bin/perl\nRPM_INSTALL_PREFIX=/opt\nexport RPM_INSTALL_PREFIX\nx\n")
    );
    assert_eq!(
        sanitize_script(&prefix, text("echo hi\n")),
        text("#!/bin/bash\n\nRPM_INSTALL_PREFIX=/opt\nexport RPM_INSTALL_PREFIX\necho hi\n")
    );
    assert_eq!(
        sanitize_script(&prefix, None),
        text("#!/bin/bash\n\nRPM_INSTALL_PREFIX=/opt\nexport RPM_INSTALL_PREFIX")
    );
    assert_eq!(
        sanitize_script(&prefix, text("")),
        sanitize_script(&prefix, None)
    );
    assert_eq!(
        sanitize_script(&prefix, text("\nls\n")),
        text("#!/bin/bash\n\nRPM_INSTALL_PREFIX=/opt\nexport RPM_INSTALL_PREFIX\nls\n")
    );
    assert_eq!(
        sanitize_script(&prefix, text("#!/bin/sh")),
        text("#!/bin/bash")
    );
}

#[test]
fn shell_scripts_stay_as_they_are() {
    for s in ["", " \n\t\u{2003}", "#!/bin/sh\nls\n", "#!  /bin/shell\n"] {
        let mut script = text(s);
        script_helper(&mut script);
        assert_eq!(script, text(s));
    }
    let mut none = None;
    script_helper(&mut none);
    assert_eq!(none, None);
}

#[test]
fn other_scripts_are_carried() {
    let mut script = text("#!/usr/bin/perl\nprint 1;\n");
    script_helper(&mut script);
    let expected = "#!/bin/sh\nset -e\nmkdir /tmp/alien.$$\necho \
        'IyEvdXNyL2Jpbi9wZXJsCnByaW50IDE7Cg==' | base64 -d > /tmp/alien.$$/script\n\
        chmod 755 /tmp/alien.$$/script\n/tmp/alien.$$/script \"$@\"\n\
        rm -f /tmp/alien.$$/script\nrmdir /tmp/alien.$$\n";
    assert_eq!(script.as_deref(), Some(expected));
    script_helper(&mut script);
    assert_eq!(script.as_deref(), Some(expected));
}

#[test]
fn carrier_unpacks_and_runs() {
    assert_eq!(
        carrier_of("QQ=="),
        r#"#!/bin/sh
set -e
mkdir /tmp/alien.$$
echo 'QQ==' | base64 -d > /tmp/alien.$$/script
chmod 755 /tmp/alien.$$/script
/tmp/alien.$$/script "$@"
rm -f /tmp/alien.$$/script
rmdir /tmp/alien.$$
"#
    );
}

#[test]
fn carried_scripts_are_encoded_in_utf8() {
    let mut script = text("h\u{e9}>>>???");
    script_helper(&mut script);
    assert!(script.unwrap().contains("echo 'aMOpPj4+Pz8/' |"));
}

#[test]
fn different_scripts_are_carried_differently() {
    let mut a = text("a");
    let mut b = text("b");
    script_helper(&mut a);
    script_helper(&mut b);
    assert_ne!(a, b);
}

#[test]
fn ordinary_scripts_fit() {
    assert!(fits_encoded(&None));
    assert!(fits_encoded(&text("#!/usr/bin/perl\n")));
}

#[test]
fn info_is_made_fit_for_rpm() {
    let mut rpm = plain();
    rpm.info.version = "1.0-beta-2".to_string();
    rpm.info.arch = "amd64".to_string();
    rpm.info.preinst = None;
    rpm.info.postinst = text("#!/bin/sh\n");
    rpm.info.prerm = text("x");
    rpm.info.postrm = text(" ");
    rpm.sanitize_info();
    for _ in 0..2 {
        assert_eq!(rpm.info.version, "1.0_beta_2");
        assert_eq!(rpm.info.arch, "x86_64");
        assert_eq!(rpm.info.preinst, None);
        assert_eq!(rpm.info.postinst, text("#!/bin/sh\n"));
        assert!(rpm.info.prerm.as_ref().unwrap().contains("echo 'eA==' |"));
        assert_eq!(rpm.info.postrm, text(" "));
        assert_eq!(rpm.info.release, "3");
        rpm.sanitize_info();
    }
}

#[test]
fn files_are_marked() {
    let conffiles = vec!["/etc/a b".to_string()];
    assert_eq!(line_for_file("/usr/", &conffiles), "%dir \"/usr/\"\n");
    assert_eq!(line_for_file("/etc/a b", &conffiles), "%config \"/etc/a b\"\n");
    assert_eq!(line_for_file("/etc//a b", &conffiles), "\"/etc//a b\"\n");
    assert_eq!(line_for_file("", &conffiles), "\"\"\n");
    let names = vec!["/d/".to_string(), "/f".to_string()];
    assert_eq!(lines_for_files(&names, &conffiles), "%dir \"/d/\"\n\"/f\"\n");
    assert_eq!(lines_for_files(&Vec::new(), &conffiles), "");
}

#[test]
fn escapes_are_resolved() {
    let files = vec![
        "/plain\\n".to_string(),
        "\"/caf\\u{e9}\"".to_string(),
        "'/a\\b'".to_string(),
    ];
    assert_eq!(
        resolve_names(&files),
        Ok(vec![
            "/plain\\n".to_string(),
            "/caf\u{e9}".to_string(),
            "/a\\b".to_string(),
        ])
    );
}

#[test]
fn bad_escapes_are_refused() {
    let files = vec!["/ok".to_string(), "\"/\\q\"".to_string(), "\"\\".to_string()];
    let e = resolve_names(&files).unwrap_err();
    assert_eq!(e, resolve_names(&vec!["\"/\\q\"".to_string()]).unwrap_err());
    assert!(e.contains("\\q"));
    let mut rpm = plain();
    rpm.info.file_list = files;
    assert_eq!(rpm.prepare("/root", "9"), Err(e));
}

#[test]
fn spec_file_is_written() {
    let mut rpm = plain();
    rpm.info.depends = vec!["libc".to_string(), "bash (>= 4)".to_string()];
    rpm.info.group = "alien".to_string();
    rpm.info.use_scripts = true;
    rpm.info.preinst = text("pre");
    rpm.info.postinst = None;
    rpm.info.prerm = text("prerm");
    rpm.info.postrm = text("postrm");
    rpm.info.file_list = vec![
        "/usr/".to_string(),
        "/etc/tool.conf".to_string(),
        "'/usr/my tool'".to_string(),
    ];
    rpm.info.original_format = Format::Other("deb".to_string());
    let expected = "Buildroot: /work/tool-1.0
Name: tool
Version: 1.0
Release: 3
Requires: libc, bash (>= 4)
Summary: tool summary
License: GPL
Distribution: Red Hat
Group: Converted/alien

%define _rpmdir ../
%define _rpmfilename %%{NAME}-%%{VERSION}-%%{RELEASE}.%%{ARCH}.rpm
%define _unpackaged_files_terminate_build 0

%pre
pre

%pre
prerm

%pre
postrm

%description
A tool.
It is used.

(Converted from a deb package by alien version 8.95.)

%files
%dir \"/usr/\"
%config \"/etc/tool.conf\"
\"/usr/my tool\"
";
    assert_eq!(
        rpm.prepare("/work/tool-1.0", "8.95"),
        Ok(expected.to_string())
    );
    assert_eq!(rpm.spec_file(), "tool-1.0-3.spec");
}

#[test]
fn spec_file_leaves_out_what_is_not_there() {
    let mut rpm = plain();
    rpm.info.file_list.clear();
    let spec = rpm.prepare("/b", "1").unwrap();
    assert!(spec.contains("Release: 3\nSummary: tool summary\n"));
    assert!(!spec.contains("%pre"));
    assert!(spec.ends_with("\n%files\n"));
}

#[test]
fn rpmdir_is_found() {
    assert_eq!(
        find_rpmdir("macro\nrpmdir      :  /usr/src/rpm\nrpmdir: /other\n"),
        text("/usr/src/rpm")
    );
    assert_eq!(find_rpmdir("rpmdir::: /x "), text("/x "));
    assert_eq!(find_rpmdir(" rpmdir: /x"), None);
    assert_eq!(find_rpmdir(""), None);
}

#[test]
fn build_is_planned() {
    let rpm = plain();
    let plan = rpm.build("/work/tool-1.0", "", None);
    assert_eq!(plan.program, "rpmbuild");
    assert_eq!(plan.rpm, "tool-1.0-3.x86_64.rpm");
    assert_eq!(
        plan.arguments,
        [
            "--buildroot",
            "/work/tool-1.0",
            "-bb",
            "--target",
            "x86_64",
            "tool-1.0-3.spec",
        ]
    );
    assert_eq!(plan.arguments.last(), Some(&rpm.spec_file()));
}

#[test]
fn old_rpm_builds_elsewhere() {
    let mut rpm = plain();
    let plan = rpm.build_with("rpm", "/r", "rpmdir: /usr/src/", Some("-v  --clean"));
    assert_eq!(plan.program, "rpm");
    assert_eq!(plan.rpm, "/usr/src/x86_64/tool-1.0-3.x86_64.rpm");
    assert_eq!(
        plan.arguments,
        [
            "--buildroot",
            "/r",
            "-bb",
            "--buildarch",
            "x86_64",
            "-v",
            "",
            "--clean",
            "tool-1.0-3.spec",
        ]
    );
    rpm.info.arch = "/rooted".to_string();
    let plan = rpm.build_with("rpm", "/r", "rpmdir: /usr/src", None);
    assert_eq!(plan.rpm, "/rooted/tool-1.0-3./rooted.rpm");
}

#[test]
fn build_failure_is_reported() {
    assert_eq!(
        build_result("a.rpm".to_string(), true, "cmd", "log"),
        text("a.rpm").ok_or(String::new())
    );
    assert_eq!(
        build_result("a.rpm".to_string(), false, "cmd -x", "no\n"),
        Err("Package build failed. Here's the log of the command (cmd -x):\nno\n".to_string())
    );
}

#[test]
fn install_joins_options() {
    let rpm = plain();
    assert_eq!(
        rpm.install(b"a.rpm", None),
        ("-ivh".to_string(), b"a.rpm".to_vec())
    );
    assert_eq!(rpm.install(b"a.rpm", Some(b"--nodeps")).1, b"--nodeps/a.rpm");
    assert_eq!(rpm.install(b"/a.rpm", Some(b"--nodeps")).1, b"/a.rpm");
    assert_eq!(rpm.install(b"a.rpm", Some(b"")).1, b"a.rpm");
    assert_eq!(rpm.install(b"a.rpm", Some(b"x/")).1, b"x/a.rpm");
}

#[test]
fn archive_is_decompressed() {
    assert_eq!(decompressor(true), ["lzma", "-dq"]);
    assert_eq!(decompressor(false), ["cat"]);
}

#[test]
fn unlisted_directories_get_default_mode() {
    let listed = archived_files("./usr/bin/tool\r\nusr//lib/\n");
    assert_eq!(listed, ["./usr/bin/tool", "usr//lib/"]);
    assert!(wants_default_mode(&listed, Some("usr"), true, false));
    assert!(wants_default_mode(&listed, Some("/usr/lib"), true, false));
    assert!(!wants_default_mode(&listed, Some("usr/bin/tool"), true, false));
    assert!(!wants_default_mode(&listed, Some("./usr/bin/./tool"), true, false));
    assert!(!wants_default_mode(&listed, Some("usr/lib"), true, false));
    assert!(!wants_default_mode(&listed, Some("./usr/lib"), true, false));
    assert!(!wants_default_mode(&listed, Some("usr/file"), false, false));
    assert!(!wants_default_mode(&listed, Some("usr"), true, true));
    assert!(wants_default_mode(&listed, None, true, false));
}

#[test]
fn directories_lead_to_destination() {
    assert_eq!(directories_to("w", "/opt//tool/"), ["w/opt", "w/opt/tool"]);
    assert_eq!(directories_to("/w/", "opt/./tool"), ["/w/opt", "/w/opt/tool"]);
    assert_eq!(directories_to("w", "./opt"), ["w/opt"]);
    assert!(directories_to("w", "/").is_empty());
}

#[test]
fn paths_lead_below_the_directory() {
    assert_eq!(path_below("w", "/usr//bin/x"), "w/usr/bin/x");
    assert_eq!(path_below("/w/", "usr/./x/"), "/w/usr/x");
    assert_eq!(path_below("w", "/"), "w");
    assert_eq!(path_below("", "/usr"), "usr");
}

fn probed(step: RelocationStep) -> String {
    match step {
        RelocationStep::Probe(d) => d,
        RelocationStep::Move => "move".to_string(),
        RelocationStep::Abandon => "abandon".to_string(),
    }
}

#[test]
fn relocation_makes_directories() {
    let mut rpm = plain();
    assert!(rpm.relocation("w", false).is_none());
    assert_eq!(rpm.relocation_target("w"), None);
    rpm.prefixes = text("/opt/tool");
    assert_eq!(rpm.relocation_target("w"), text("w/opt/tool"));
    assert!(rpm.relocation("w", true).is_none());
    let mut relocation = rpm.relocation("w", false).unwrap();
    assert_eq!(probed(relocation.next_step()), "w/opt");
    assert!(relocation.answer(false));
    assert_eq!(probed(relocation.next_step()), "w/opt/tool");
    assert!(relocation.answer(false));
    assert_eq!(probed(relocation.next_step()), "move");
    assert!(!relocation.answer(false));
    assert_eq!(probed(relocation.next_step()), "move");
    rpm.relocate_conffiles();
    assert_eq!(rpm.info.conffiles, ["/etc/tool.conf", "/opt/tool.conf"]);
    rpm.info.conffiles = vec!["etc/tool.conf".to_string()];
    rpm.relocate_conffiles();
    assert_eq!(rpm.info.conffiles, ["/opt/tool/etc/tool.conf"]);
}

#[test]
fn relocation_is_abandoned_below_existing_directory() {
    let mut rpm = plain();
    rpm.prefixes = text("/opt/tool");
    let mut relocation = rpm.relocation("w", false).unwrap();
    assert_eq!(probed(relocation.next_step()), "w/opt");
    assert!(!relocation.answer(true));
    assert_eq!(probed(relocation.next_step()), "abandon");
    assert!(!relocation.answer(false));
    assert_eq!(probed(relocation.next_step()), "abandon");
}

#[test]
fn owners_are_asked_for() {
    assert_eq!(
        owner_arguments(),
        [
            "--queryformat",
            "[%{FILEMODES} %{FILEUSERNAME} %{FILEGROUPNAME} %{FILENAMES}\\n]",
            "-qp",
        ]
    );
}

#[test]
fn entries_are_read() {
    let e = parse_entry("35309 mail adm /usr/bin/x more").unwrap().unwrap();
    assert_eq!(e.mode, 0o4755);
    assert_eq!(e.owner, "mail");
    assert_eq!(e.group, "adm");
    assert_eq!(e.file, "/usr/bin/x");
    let e = parse_entry("+7  b c").unwrap().unwrap();
    assert_eq!((e.mode, e.owner.as_str()), (7, ""));
    assert_eq!((e.group.as_str(), e.file.as_str()), ("b", "c"));
    assert!(parse_entry("4294967295 a b c").unwrap().unwrap().mode == 0o7777);
    assert!(matches!(parse_entry("33188 root root"), Ok(None)));
    assert!(matches!(parse_entry(""), Ok(None)));
}

#[test]
fn bad_modes_are_refused() {
    for mode in ["'33188", "", "+", "-1", "4294967296", "12a", "++1"] {
        let line = format!("{mode} root root /x");
        assert_eq!(parse_entry(&line).err(), text(mode));
    }
}

fn entry(line: &str) -> alien::rpm::unpacking::FileEntry {
    parse_entry(line).unwrap().unwrap()
}

#[test]
fn lists_are_read() {
    let list = "33188 root root /a\n\nshort line\n35309 mail adm /b\r\n";
    let entries = read_entries(list).ok().unwrap();
    let files: Vec<_> = entries.iter().map(|e| (e.file.as_str(), e.mode)).collect();
    assert_eq!(files, [("/a", 0o644), ("/b", 0o4755)]);
    assert!(read_entries("").ok().unwrap().is_empty());
}

#[test]
fn lists_end_at_a_refused_line() {
    let list = "33188 root root /a\nx root root /b\ny root root /c\n33188 r r /d\n";
    let refused = read_entries(list).err().unwrap();
    assert_eq!(refused.entries.len(), 1);
    assert_eq!(refused.entries[0].file, "/a");
    assert_eq!(refused.number, "x");
}

#[test]
fn owners_of_a_list_wait() {
    let seen = |line: &str, owner_is_root: bool, group_is_root: bool| SeenFile {
        entry: entry(line),
        owner_is_root,
        group_is_root,
    };
    let o = Ownership::of(&vec![
        seen("33261 root root /a", true, true),
        seen("35309 mail adm /b", false, false),
        seen("33261 root adm /c", true, false),
    ]);
    assert_eq!(o.owninfo.len(), 2);
    assert_eq!(o.owninfo.get("/b").unwrap(), "mail:adm");
    assert_eq!(o.owninfo.get("/c").unwrap(), ":adm");
    assert_eq!(o.modeinfo.len(), 1);
    assert_eq!(o.modeinfo.get("/b"), Some(&0o4755));
    assert_eq!(Ownership::of(&Vec::new()).owninfo.len(), 0);
}

#[test]
fn owners_wait_until_installation() {
    let mut o = Ownership::new();
    o.record(&entry("33261 root root /a"), true, true);
    o.record(&entry("35309 mail root /b"), false, true);
    o.record(&entry("35309 root adm /c"), true, false);
    o.record(&entry("33261 mail adm /d"), false, false);
    o.record(&entry("35309 root root /e"), true, true);
    assert_eq!(o.owninfo.len(), 3);
    assert_eq!(o.owninfo.get("/a"), None);
    assert_eq!(o.owninfo.get("/b").unwrap(), "mail");
    assert_eq!(o.owninfo.get("/c").unwrap(), ":adm");
    assert_eq!(o.owninfo.get("//d/").unwrap(), "mail:adm");
    assert_eq!(o.modeinfo.len(), 2);
    assert_eq!(o.modeinfo.get("/b"), Some(&0o4755));
    assert_eq!(o.modeinfo.get("/c"), Some(&0o4755));
    assert_eq!(o.modeinfo.get("/e"), None);
}

#[test]
fn owners_of_a_file_that_comes_twice_add_up() {
    let mut o = Ownership::new();
    o.record(&entry("33261 mail adm /a"), false, false);
    o.record(&entry("33261 root games //a"), true, false);
    assert_eq!(o.owninfo.len(), 1);
    assert_eq!(o.owninfo.path(0), "/a");
    assert_eq!(o.owninfo.value(0), "mail:adm:games");
    o.record(&entry("34285 root root /a"), true, true);
    assert_eq!(o.modeinfo.get("/a"), Some(&0o2755));
}

#[test]
fn ownership_is_taken_over() {
    let mut rpm = plain();
    let mut o = Ownership::new();
    o.record(&entry("33261 mail adm /a"), false, false);
    rpm.unpacked(o);
    assert_eq!(rpm.info.owninfo.len(), 1);
    rpm.unpacked(Ownership::new());
    assert_eq!(rpm.info.owninfo.len(), 0);
}

#[test]
fn nothing_is_known_at_first() {
    let info = PackageInfo::default();
    assert_eq!(info.name, "");
    assert_eq!(info.original_format.name(), "rpm");
    assert_eq!(info.scripts.len(), 0);
    assert_eq!(info.preinst, None);
    assert_eq!(Format::Other("tgz".to_string()).name(), "tgz");
}
