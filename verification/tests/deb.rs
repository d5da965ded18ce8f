use std::io::Write;

use alien::deb::patches::{patch_dirs, patterns_for, Match, PatchSearch};
use alien::deb::writer::{fixup_warning, DebFile, DebWriter};
use alien::deb::{
    changelog_version, debian_description_of, debian_version_of, fhs_moves,
    has_ordered_parentheses, DebBuildError, DebTarget, PatchChoice, Preparation,
};
use alien::package::{Args, Format, PackageInfo};
use alien::table::PathTable;

fn args() -> Args {
    Args {
        target: None,
        single: false,
        generate: false,
        nopatch: false,
        anypatch: false,
        patch: None,
        fixperms: false,
    }
}

fn info() -> PackageInfo {
    let mut info = PackageInfo::default();
    info.file = b"tool.rpm".to_vec();
    info.name = "tool".to_string();
    info.version = "1.0".to_string();
    info.release = "3".to_string();
    info.arch = "amd64".to_string();
    info.summary = "a tool".to_string();
    info.description = "Does things.".to_string();
    info.copyright = "GPL".to_string();
    info.changelog_text = "- first".to_string();
    info.binary_info = "Name: tool".to_string();
    info
}

fn target(a: &Args) -> (DebTarget, Preparation) {
    DebTarget::new(info(), b"tool-1.0".to_vec(), a, "8.95")
}

fn writer(info: &PackageInfo) -> DebWriter<'_> {
    match DebWriter::new(
        info,
        "A. Packager".to_string(),
        "a@example.org".to_string(),
        880_127_706,
        -21_600,
    ) {
        Ok(w) => w,
        Err(_) => panic!("no date"),
    }
}

#[test]
fn versions_are_made_valid() {
    assert_eq!(debian_version_of("1.0-2+b~3:4"), "1.0-2+b~3:4");
    assert_eq!(debian_version_of("1_0 \u{e9}x/Y"), "10xY");
    assert_eq!(debian_version_of("v1.0"), "0v1.0");
    assert_eq!(debian_version_of("_1"), "01");
    assert_eq!(debian_version_of(""), "0");
    assert_eq!(debian_version_of("\u{661}"), "0");
}

#[test]
fn versions_stay_valid() {
    for v in ["1_0", "v1", "", "-", "1:2~3"] {
        let once = debian_version_of(v);
        assert!(once.starts_with(|c: char| c.is_ascii_digit()));
        assert_eq!(debian_version_of(&once), once);
    }
}

#[test]
fn releases_have_digits() {
    let known = [
        ("3", "3"),
        ("+3", "+3"),
        ("007", "007"),
        ("4294967295", "4294967295"),
        ("4294967296", "4294967296-1"),
        ("3.fc38", "3.fc38-1"),
        ("beta", "beta-1"),
        ("-1", "-1-1"),
        ("+", "+-1"),
        ("", "-1"),
    ];
    for (release, expected) in known {
        let mut i = info();
        i.release = release.to_string();
        DebTarget::sanitize_info(&mut i, "1");
        assert_eq!(i.release, expected);
        assert!(i.release.contains(|c: char| c.is_ascii_digit()));
    }
}

#[test]
fn descriptions_are_indented() {
    assert_eq!(
        debian_description_of("First\tline  \n\n  \t\r\nlast", "rpm", "8.95"),
        " First        line\n .\n .\n last\n .\n (Converted from a rpm package by alien version 8.95.)"
    );
    assert_eq!(
        debian_description_of("", "deb", "1"),
        " (Converted from a deb package by alien version 1.)"
    );
    assert_eq!(
        debian_description_of("\n", "deb", "1"),
        " (Converted from a deb package by alien version 1.)"
    );
    assert_eq!(
        debian_description_of("\n \t\nfoo\n\nbar", "deb", "1"),
        " foo\n .\n bar\n .\n (Converted from a deb package by alien version 1.)"
    );
    assert_eq!(
        debian_description_of("a\rb\u{a0}\n", "deb", "1"),
        " a\rb\n .\n (Converted from a deb package by alien version 1.)"
    );
}

#[test]
fn every_line_of_a_description_is_indented() {
    for d in ["", "\n\n", "a\n\nb\r\n\t\n", "\u{2003}\n.", "x\r\r\ny"] {
        let made = debian_description_of(d, "rpm", "1");
        for line in made.lines() {
            assert!(line.starts_with(' ') && line.len() > 1);
        }
        let kept = d.lines().skip_while(|l| l.trim().is_empty()).count();
        assert_eq!(made.lines().count(), kept + if kept > 0 { 2 } else { 1 });
    }
}

#[test]
fn info_is_made_fit_for_debian() {
    let mut i = info();
    i.version = "v1_0".to_string();
    i.release = "x".to_string();
    i.original_format = Format::Other("tgz".to_string());
    DebTarget::sanitize_info(&mut i, "2");
    assert_eq!(i.version, "0v10");
    assert_eq!(i.release, "x-1");
    assert_eq!(
        i.description,
        " Does things.\n .\n (Converted from a tgz package by alien version 2.)"
    );
    assert_eq!(i.name, "tool");
}

#[test]
fn preparation_follows_arguments() {
    let (t, p) = target(&args());
    assert_eq!(t.unpacked_dir, b"tool-1.0");
    assert_eq!(t.dir_map.len(), 0);
    assert!(t.info.description.starts_with(" Does things.\n"));
    assert!(p.keep_original);
    assert!(matches!(p.patch, PatchChoice::Search));

    let mut a = args();
    a.single = true;
    a.patch = Some(b"p.diff.gz".to_vec());
    let (_, p) = target(&a);
    assert!(!p.keep_original);
    assert!(matches!(p.patch, PatchChoice::Given(path) if path == b"p.diff.gz"));

    a.single = false;
    a.generate = true;
    a.nopatch = true;
    let (_, p) = target(&a);
    assert!(!p.keep_original);
    assert!(matches!(p.patch, PatchChoice::Unpatched));
}

#[test]
fn patches_are_decompressed() {
    let patch = b"--- a\n+++ b\n";
    let mut encoder =
        flate2::write::GzEncoder::new(Vec::new(), flate2::Compression::default());
    encoder.write_all(patch).unwrap();
    let compressed = encoder.finish().unwrap();
    assert_eq!(DebTarget::patch(&compressed), Ok(patch.to_vec()));
    assert!(DebTarget::patch(patch).is_err());
    assert!(DebTarget::patch(&compressed[..compressed.len() - 9]).is_err());
}

#[test]
fn rejects_fail_the_patch() {
    assert_eq!(DebTarget::patch_result(false), Ok(()));
    assert_eq!(
        DebTarget::patch_result(true),
        Err("Patch failed with .rej files; giving up".to_string())
    );
}

#[test]
fn changelog_has_version() {
    assert_eq!(
        changelog_version("tool ( 1.0\t-2 ) unstable; (x)\n"),
        Some("1.0-2".to_string())
    );
    assert_eq!(changelog_version("tool 1.0"), None);
    assert_eq!(changelog_version("tool (1.0"), None);
    assert_eq!(changelog_version("tool 1.0)"), None);
    assert_eq!(changelog_version("()"), Some(String::new()));
}

#[test]
fn changelog_version_is_read_back() {
    let i = info();
    let changelog = writer(&i).write_changelog("8.95");
    let line = changelog.lines().next().unwrap();
    assert!(has_ordered_parentheses(line));
    assert_eq!(changelog_version(line), Some("1.0-3".to_string()));
    let mut i = info();
    i.version = "1 .(0".to_string();
    let changelog = writer(&i).write_changelog("8.95");
    let line = changelog.lines().next().unwrap();
    assert_eq!(changelog_version(line), Some("1.(0-3".to_string()));
}

#[test]
fn parentheses_have_an_order() {
    assert!(has_ordered_parentheses("a (b) c"));
    assert!(has_ordered_parentheses("a )b"));
    assert!(has_ordered_parentheses("a (b"));
    assert!(has_ordered_parentheses(""));
    assert!(!has_ordered_parentheses("a )b("));
}

#[test]
fn all_white_space_is_known() {
    for c in '\0'..=char::MAX {
        if c != '(' && c != ')' {
            let version = changelog_version(&format!("({c})")).unwrap();
            assert_eq!(version.is_empty(), c.is_whitespace());
        }
    }
}

#[test]
fn directories_are_moved_to_share() {
    let (mut t, _) = target(&args());
    let moves = fhs_moves("tool-1.0");
    let paths: Vec<_> = moves
        .iter()
        .map(|m| (m.old.as_str(), m.new.as_str(), m.parent.as_str()))
        .collect();
    assert_eq!(
        paths,
        [
            ("tool-1.0/usr/man", "tool-1.0/usr/share/man", "tool-1.0/usr/share"),
            ("tool-1.0/usr/info", "tool-1.0/usr/share/info", "tool-1.0/usr/share"),
            ("tool-1.0/usr/doc", "tool-1.0/usr/share/doc", "tool-1.0/usr/share"),
        ]
    );
    assert!(moves[0].is_wanted(true, false));
    assert!(!moves[0].is_wanted(true, true));
    assert!(!moves[0].is_wanted(false, false));
    t.record_move(&moves[2]);
    t.record_move(&moves[2]);
    assert_eq!(t.dir_map.len(), 1);
    assert_eq!(t.dir_map.get("tool-1.0/usr/doc/").unwrap(), "tool-1.0/usr/share/doc");
    assert_eq!(t.dir_map.get("tool-1.0/usr/man"), None);
    assert_eq!(fhs_moves("/w/")[0].old, "/w/usr/man");
}

#[test]
fn unpacked_directory_is_forgotten() {
    let (mut t, _) = target(&args());
    t.clear_unpacked_dir();
    assert!(t.unpacked_dir.is_empty());
    assert_eq!(t.info.name, "tool");
}

#[test]
fn architecture_is_checked() {
    let (mut t, _) = target(&args());
    assert_eq!(t.architecture_to_check(), Some("amd64".to_string()));
    assert!(t.architecture_result(true, "tool.rpm").is_ok());
    let e = t.architecture_result(false, "tool.rpm").err().unwrap();
    assert_eq!(
        e.message(),
        "tool.rpm is for architecture amd64; the package cannot be built on this system"
    );
    t.info.arch = "all".to_string();
    assert_eq!(t.architecture_to_check(), None);
    assert!(t.architecture_result(false, "tool.rpm").is_ok());
}

#[test]
fn build_gives_package_or_reason() {
    let (mut t, _) = target(&args());
    match t.build(true, "tool.rpm", true, "ignored") {
        Ok(path) => assert_eq!(path, "tool_1.0-3_amd64.deb"),
        Err(e) => panic!("{}", e.message()),
    }
    let e = t.build(true, "tool.rpm", false, "").err().unwrap();
    assert!(matches!(e, DebBuildError::RulesNotRun));
    assert_eq!(
        e.message(),
        "Package build failed; could not run generated debian/rules file."
    );
    let e = t.build(true, "tool.rpm", false, "make: no\n").err().unwrap();
    assert!(matches!(e, DebBuildError::Failed { .. }));
    assert_eq!(
        e.message(),
        "Package build failed. Here's the log:\nmake: no\n"
    );
    for success in [true, false] {
        let e = t.build(false, "tool.rpm", success, "").err().unwrap();
        assert!(matches!(e, DebBuildError::WrongArchitecture { .. }));
    }
    t.info.arch = "all".to_string();
    assert!(t.build(false, "tool.rpm", true, "").is_ok());
}

#[test]
fn report_is_filtered() {
    assert_eq!(
        DebTarget::test(None),
        ["lintian not available, so not testing"]
    );
    assert_eq!(
        DebTarget::test(Some(
            b" E: one \r\nW: unknown-section alien/x\n\xff\xfe\n\nh\xc3\xa9\r"
        )),
        ["E: one", "", "h\u{e9}"]
    );
    assert!(DebTarget::test(Some(b"")).is_empty());
    assert_eq!(DebTarget::test(Some(b"\n")), [""]);
}

#[test]
fn installation_has_arguments() {
    assert_eq!(DebTarget::install(), ["--no-force-overwrite", "-i"]);
}

#[test]
fn date_is_that_of_the_moment() {
    let i = info();
    assert_eq!(writer(&i).date, "Fri, 21 Nov 1997 09:55:06 -0600");
    let made = |seconds: i64, offset: i32| {
        DebWriter::new(&i, String::new(), String::new(), seconds, offset)
            .ok()
            .map(|w| w.date)
    };
    assert_eq!(
        made(0, 0),
        Some("Thu, 01 Jan 1970 00:00:00 +0000".to_string())
    );
    assert_eq!(
        made(253_402_214_399, 86_340),
        Some("Fri, 31 Dec 9999 23:58:59 +2359".to_string())
    );
    assert!(made(0, -86_340).is_some());
    assert_eq!(made(0, 1), None);
    assert_eq!(made(0, 1_000_000), None);
    assert_eq!(made(i64::MAX, 0), None);
    assert_eq!(made(-2_300_000_000, 0), None);
}

#[test]
fn changelog_is_written() {
    let i = info();
    assert_eq!(
        writer(&i).write_changelog("8.95"),
        "tool (1.0-3) experimental; urgency=low

  * Converted from rpm format to .deb by alien version 8.95

  - first

  -- A. Packager <a@example.org>  Fri, 21 Nov 1997 09:55:06 -0600

"
    );
}

#[test]
fn control_is_written() {
    let mut i = info();
    i.depends = vec!["libc6".to_string(), "bash".to_string()];
    assert_eq!(
        writer(&i).write_control(),
        "Source: tool
Section: alien
Priority: extra
Maintainer: A. Packager <a@example.org>

Package: tool
Architecture: amd64
Depends: ${shlibs:Depends}, libc6, bash
Description: a tool
Does things.

"
    );
    i.depends.clear();
    assert!(writer(&i)
        .write_control()
        .contains("\nDepends: ${shlibs:Depends}\nDescription: "));
}

#[test]
fn copyright_is_written() {
    let i = info();
    assert_eq!(
        writer(&i).write_copyright(),
        "This package was debianized by the alien program by converting
a binary .rpm package on Fri, 21 Nov 1997 09:55:06 -0600

Copyright: GPL

Information from the binary package:
Name: tool

"
    );
}

#[test]
fn conffiles_outside_etc_are_listed() {
    let mut i = info();
    assert_eq!(writer(&i).write_conffiles(), None);
    i.conffiles = vec!["/etc/a".to_string(), "//etc".to_string()];
    assert_eq!(writer(&i).write_conffiles(), None);
    for file in ["/opt/b", "/etcetera", "etc/c", "/./etc/d", "/usr/etc/e"] {
        i.conffiles.push(file.to_string());
    }
    assert_eq!(
        writer(&i).write_conffiles(),
        Some("/opt/b\n/etcetera\netc/c\n/usr/etc/e\n".to_string())
    );
    let with = writer(&i).write_conffiles();
    i.conffiles.remove(0);
    assert_eq!(writer(&i).write_conffiles(), with);
}

#[test]
fn compat_is_written() {
    let i = info();
    assert_eq!(writer(&i).write_compat(7), "7\n");
    assert_eq!(writer(&i).write_compat(0), "0\n");
    assert_eq!(writer(&i).write_compat(u32::MAX), "4294967295\n");
}

#[test]
fn rules_are_written() {
    let i = info();
    let head = "
#!/usr/bin/make -f
# debian/rules for alien

PACKAGE = $(shell dh_listpackages)

build:
dh_testdir

clean:
dh_testdir
dh_testroot
dh_clean -d

binary-arch: build
dh_testdir
dh_testroot
dh_prep
dh_installdirs

dh_installdocs
dh_installchangelogs

# Copy the packages' files.
find . -maxdepth 1 -mindepth 1 -not -name debian -print0 | \\
xargs -0 -r -i cp -a {} debian/$(PACKAGE)

#
# If you need to move files around in debian/$(PACKAGE) or do some
# binary patching, do it here
#


# This has been known to break on some wacky binaries.
#   dh_strip
dh_compress
";
    let tail = "\tdh_fixperms
dh_makeshlibs
dh_installdeb
-dh_shlibdeps
dh_gencontrol
dh_md5sums
dh_builddeb

binary: binary-indep binary-arch
.PHONY: build clean binary-indep binary-arch binary

";
    assert_eq!(writer(&i).write_rules(true), format!("{head}{tail}"));
    assert_eq!(writer(&i).write_rules(false), format!("{head}#{tail}"));
}

fn owned() -> PackageInfo {
    let mut i = info();
    i.owninfo.insert("/b".to_string(), "mail:adm".to_string());
    i.owninfo.insert("/it's".to_string(), ":adm".to_string());
    i.modeinfo.insert("/it's".to_string(), 2541);
    i
}

#[test]
fn owners_are_set_after_installation() {
    let i = owned();
    let mut script = "#!/bin/sh -e\nls\n".to_string();
    assert!(!writer(&i).patch_post_inst(&mut script));
    assert_eq!(
        script,
        "#!/bin/sh -e
# alien added permissions fixup code
chown 'mail:adm' '/b'
chown ':adm' '/it'\"'\"'s'
chmod '2541' '/it'\"'\"'s'
ls
"
    );
    let mut script = "no line end".to_string();
    assert!(!writer(&i).patch_post_inst(&mut script));
    assert!(script.starts_with("no line end\n# alien added permissions fixup code\nchown "));
}

#[test]
fn shell_scripts_take_commands() {
    let mut i = info();
    i.owninfo.insert("/usr/bin/x".to_string(), "bob".to_string());
    let added = "# alien added permissions fixup code\nchown 'bob' '/usr/bin/x'";
    for (first, rest) in [
        ("#!/bin/sh", "ls\n"),
        ("#! /bin/bash", ""),
        ("#!\t/bin/sh -e", "ls"),
        ("no interpreter", "ls"),
    ] {
        let mut script = format!("{first}\n{rest}");
        assert!(!writer(&i).patch_post_inst(&mut script));
        assert_eq!(script, format!("{first}\n{added}\n{rest}"));
    }
    let mut script = String::new();
    assert!(!writer(&i).patch_post_inst(&mut script));
    assert_eq!(script, format!("#!/bin/sh\n{added}\n"));
}

#[test]
fn other_scripts_are_left_alone() {
    let i = owned();
    for s in [
        "#!/usr/bin/perl\nprint 1;\n",
        "#!/bin/shx\n",
        "#!",
        "#!/usr/bin/env /bin/sh\n",
    ] {
        let mut script = s.to_string();
        assert!(writer(&i).patch_post_inst(&mut script));
        assert_eq!(script, s);
    }
    assert_eq!(
        fixup_warning(),
        "warning: unable to add ownership fixup code to postinst as the postinst is not a shell script!"
    );
}

#[test]
fn nothing_is_added_without_owners() {
    let mut i = info();
    i.modeinfo.insert("/b".to_string(), 1);
    for s in ["", "#!/bin/sh\n", "#!/usr/bin/perl\n"] {
        let mut script = s.to_string();
        assert!(!writer(&i).patch_post_inst(&mut script));
        assert_eq!(script, s);
    }
}

/// Reads a word of quoted pieces as a shell does.
fn shell_word(s: &str) -> Option<String> {
    let mut word = String::new();
    let mut quote = None;
    for c in s.chars() {
        match quote {
            None if c == '\'' || c == '"' => quote = Some(c),
            None => return None,
            Some(q) if c == q => quote = None,
            Some(_) => word.push(c),
        }
    }
    match quote {
        None => Some(word),
        Some(_) => None,
    }
}

#[test]
fn quoted_names_are_read_back() {
    for name in ["/a", "'", "''a'b", "/$x `y` \"z\" \\", "/sp ace"] {
        let mut i = info();
        i.owninfo.insert(name.to_string(), "o".to_string());
        let mut script = "x".to_string();
        writer(&i).patch_post_inst(&mut script);
        let quoted = script
            .strip_prefix("x\n# alien added permissions fixup code\nchown 'o' ")
            .unwrap();
        assert_eq!(shell_word(quoted), Some(name.to_string()));
    }
}

#[test]
fn scripts_are_written() {
    let mut i = info();
    i.scripts.insert("postinst".to_string(), "post".to_string());
    i.scripts.insert("postrm".to_string(), " \n".to_string());
    i.scripts.insert("preinst".to_string(), "pre".to_string());
    let w = writer(&i);
    assert_eq!(w.write_script("postinst"), (Some("post".to_string()), false));
    assert_eq!(w.write_script("postrm"), (None, false));
    assert_eq!(w.write_script("preinst"), (Some("pre".to_string()), false));
    assert_eq!(w.write_script("prerm"), (None, false));
    let (files, warned) = w.write_scripts();
    assert_eq!(names(&files), ["postinst"]);
    assert!(!warned);
    i.use_scripts = true;
    let (files, _) = writer(&i).write_scripts();
    assert_eq!(names(&files), ["postinst", "preinst"]);
    assert_eq!(files[1].contents, "pre");
}

fn names(files: &[DebFile]) -> Vec<&str> {
    files.iter().map(|f| f.name.as_str()).collect()
}

#[test]
fn owners_alone_make_a_script() {
    let i = owned();
    let (files, warned) = writer(&i).write_scripts();
    assert_eq!(names(&files), ["postinst"]);
    assert!(files[0]
        .contents
        .starts_with("#!/bin/sh\n# alien added permissions fixup code\nchown 'mail:adm' '/b'\n"));
    assert!(!warned);
}

#[test]
fn all_files_are_written_in_order() {
    let mut i = owned();
    i.use_scripts = true;
    i.conffiles.push("/opt/c".to_string());
    i.scripts.insert("prerm".to_string(), "x".to_string());
    i.scripts
        .insert("postinst".to_string(), "#!/usr/bin/perl\n".to_string());
    let (files, warned) = writer(&i).write_all(false, "8.95");
    assert!(warned);
    assert_eq!(
        names(&files),
        [
            "changelog",
            "control",
            "copyright",
            "conffiles",
            "compat",
            "rules",
            "postinst",
            "prerm",
        ]
    );
    for f in &files {
        assert_eq!(f.executable, f.name == "rules");
    }
    assert_eq!(files[4].contents, "7\n");
    assert!(files[5].contents.contains("\n#\tdh_fixperms\n"));
}

#[test]
fn patches_match_by_pattern() {
    let dirs = patch_dirs();
    assert_eq!(dirs, ["/var/lib/alien", "/usr/share/alien/patches"]);
    let i = info();
    assert_eq!(
        patterns_for(&dirs, &i, Match::Release),
        [
            "/var/lib/alien/tool_1.0-3*.diff.gz",
            "/usr/share/alien/patches/tool_1.0-3*.diff.gz",
        ]
    );
    assert_eq!(
        patterns_for(&vec!["/p".to_string()], &i, Match::Version),
        ["/p/tool_1.0*.diff.gz"]
    );
    assert_eq!(
        patterns_for(&vec!["/p".to_string()], &i, Match::Name),
        ["/p/tool_*.diff.gz"]
    );
    assert!(patterns_for(&Vec::new(), &i, Match::Name).is_empty());
}

#[test]
fn release_match_ends_the_search() {
    let mut s = PatchSearch::new();
    assert_eq!(s.pick(), None);
    assert_eq!(s.next_match(true), Some(Match::Release));
    s.add_round(vec![None, Some(b"a".to_vec()), Some(b"b".to_vec())]);
    assert_eq!(s.next_match(true), None);
    assert_eq!(s.pick(), Some(b"a".to_vec()));
}

#[test]
fn search_widens() {
    let mut s = PatchSearch::new();
    s.add_round(Vec::new());
    assert_eq!(s.next_match(true), Some(Match::Version));
    s.add_round(Vec::new());
    assert_eq!(s.next_match(false), None);
    assert_eq!(s.next_match(true), Some(Match::Name));
    assert_eq!(s.pick(), None);
    s.add_round(vec![None, Some(b"c".to_vec())]);
    assert_eq!(s.next_match(true), None);
    assert_eq!(s.pick(), Some(b"c".to_vec()));
}

#[test]
fn name_stands_in_for_unreadable_versions() {
    let mut s = PatchSearch::new();
    s.add_round(Vec::new());
    s.add_round(vec![None]);
    assert_eq!(s.next_match(false), None);
    assert_eq!(s.next_match(true), Some(Match::Name));
    assert_eq!(s.pick(), None);
    s.add_round(vec![Some(b"c".to_vec())]);
    assert_eq!(s.next_match(true), None);
    assert_eq!(s.pick(), Some(b"c".to_vec()));
}

#[test]
fn version_comes_before_name() {
    let mut s = PatchSearch::new();
    s.add_round(Vec::new());
    s.add_round(vec![Some(b"v".to_vec())]);
    s.add_round(vec![Some(b"n".to_vec())]);
    assert_eq!(s.pick(), Some(b"v".to_vec()));
}

#[test]
fn search_ends_without_any_match() {
    let mut s = PatchSearch::new();
    for _ in 0..4 {
        s.add_round(Vec::new());
    }
    assert_eq!(s.next_match(true), None);
    assert_eq!(s.pick(), None);
}

#[test]
fn tables_know_paths_by_component() {
    let mut t: PathTable<u32> = PathTable::new();
    t.insert("/a/b".to_string(), 1);
    t.insert("a/b".to_string(), 2);
    t.insert("./a/b".to_string(), 3);
    t.insert("/a//./b/".to_string(), 4);
    assert_eq!(t.len(), 3);
    assert_eq!(t.path(0), "/a/b");
    assert_eq!(*t.value(0), 4);
    assert_eq!(t.get("/a/b"), Some(&4));
    assert_eq!(t.get("a//b"), Some(&2));
    assert_eq!(t.get("./a/./b"), Some(&3));
    assert_eq!(t.get("/a/../b"), None);
}
