//! The files that make an unpacked package a Debian source package.
use vstd::prelude::*;
use vstd::slice::slice_subrange;

use crate::outside::{format_rfc2822, ordinary_moment, rfc2822};
use crate::package::{InfoView, PackageInfo};
use crate::path::{below_etc, in_etc};
use crate::table::{lookup, PathTable};
use crate::text::{
    append_chars, append_decimal, decimal, find, first_index, first_word, first_word_of, from_chars,
    lemma_first_index, opt_text, replace,
    replaced, same, stands_in, strip_prefix, texts, to_chars, trim, trim_start, trimmed, trimmed_start,
};

verus! {

/// The changelog.
pub open spec fn changelog_text(
    info: InfoView,
    realname: Seq<char>,
    email: Seq<char>,
    date: Seq<char>,
    alien_version: Seq<char>,
) -> Seq<char> {
    info.name + " ("@ + info.version + "-"@ + info.release
        + ") experimental; urgency=low\n\n  * Converted from "@ + info.original_format
        + " format to .deb by alien version "@ + alien_version + "\n\n  "@ + info.changelog_text
        + "\n\n  -- "@ + realname + " <"@ + email + ">  "@ + date + "\n\n"@
}

/// Each of the packages that this one depends on, after a comma.
pub open spec fn more_depends(depends: Seq<Seq<char>>) -> Seq<char>
    decreases depends.len(),
{
    if depends.len() == 0 {
        seq![]
    } else {
        more_depends(depends.drop_last()) + ", "@ + depends.last()
    }
}

/// The control file.
pub open spec fn control_text(info: InfoView, realname: Seq<char>, email: Seq<char>) -> Seq<char> {
    "Source: "@ + info.name + "\nSection: alien\nPriority: extra\nMaintainer: "@ + realname + " <"@
        + email + ">\n\nPackage: "@ + info.name + "\nArchitecture: "@ + info.arch
        + "\nDepends: ${shlibs:Depends}"@ + more_depends(info.depends) + "\nDescription: "@
        + info.summary + "\n"@ + info.description + "\n\n"@
}

/// The copyright file.
pub open spec fn copyright_text(info: InfoView, date: Seq<char>) -> Seq<char> {
    "This package was debianized by the alien program by converting\na binary ."@
        + info.original_format + " package on "@ + date + "\n\nCopyright: "@ + info.copyright
        + "\n\nInformation from the binary package:\n"@ + info.binary_info + "\n\n"@
}

/// The configuration files that have to be listed, one on each line:
/// `debhelper` takes care of those in `/etc`.
pub open spec fn conffile_lines(conffiles: Seq<Seq<char>>) -> Seq<char>
    decreases conffiles.len(),
{
    if conffiles.len() == 0 {
        seq![]
    } else if in_etc(conffiles.last()) {
        conffile_lines(conffiles.drop_last())
    } else {
        conffile_lines(conffiles.drop_last()) + conffiles.last() + "\n"@
    }
}

/// Whether there is a configuration file that has to be listed.
pub open spec fn has_listed_conffile(conffiles: Seq<Seq<char>>) -> bool {
    exists|i: int| 0 <= i < conffiles.len() && !in_etc(#[trigger] conffiles[i])
}

/// The list of configuration files, if there has to be one.
pub open spec fn conffiles_text(conffiles: Seq<Seq<char>>) -> Option<Seq<char>> {
    if has_listed_conffile(conffiles) {
        Some(conffile_lines(conffiles))
    } else {
        None
    }
}

/// The level of compatibility.
pub open spec fn compat_text(version: u32) -> Seq<char> {
    decimal(version as nat) + "\n"@
}

/// The rules, in which permissions are fixed or left alone.
pub open spec fn rules_text(fix_perms: bool) -> Seq<char> {
    "\n#!/usr/bin/make -f\n# debian/rules for alien\n\nPACKAGE = $(shell dh_listpackages)\n\nbuild:\ndh_testdir\n\nclean:\ndh_testdir\ndh_testroot\ndh_clean -d\n\nbinary-arch: build\ndh_testdir\ndh_testroot\ndh_prep\ndh_installdirs\n\ndh_installdocs\ndh_installchangelogs\n\n# Copy the packages' files.\nfind . -maxdepth 1 -mindepth 1 -not -name debian -print0 | \\\nxargs -0 -r -i cp -a {} debian/$(PACKAGE)\n\n#\n# If you need to move files around in debian/$(PACKAGE) or do some\n# binary patching, do it here\n#\n\n\n# This has been known to break on some wacky binaries.\n#   dh_strip\ndh_compress\n"@ + (if fix_perms {
        ""@
    } else {
        "#"@
    }) + "\tdh_fixperms\ndh_makeshlibs\ndh_installdeb\n-dh_shlibdeps\ndh_gencontrol\ndh_md5sums\ndh_builddeb\n\nbinary: binary-indep binary-arch\n.PHONY: build clean binary-indep binary-arch binary\n\n"@
}

/// A file name as it can stand between single quotes in a shell script.
pub open spec fn quoted_inside(file: Seq<char>) -> Seq<char> {
    replaced(file, '\'', "'\"'\"'"@)
}

/// The commands that set an owner that had to wait, and the mode that had to
/// wait with it, if any.
pub open spec fn fixup(
    entry: (Seq<char>, Seq<char>),
    modes: Seq<(Seq<char>, u32)>,
) -> Seq<char> {
    let (file, owner) = entry;
    "\nchown '"@ + owner + "' '"@ + quoted_inside(file) + "'"@ + (match lookup(modes, file) {
        Some(mode) => "\nchmod '"@ + decimal(mode as nat) + "' '"@ + quoted_inside(file) + "'"@,
        None => seq![],
    })
}

/// The commands that set the owners and modes that had to wait.
pub open spec fn fixups(
    owners: Seq<(Seq<char>, Seq<char>)>,
    modes: Seq<(Seq<char>, u32)>,
) -> Seq<char>
    decreases owners.len(),
{
    if owners.len() == 0 {
        seq![]
    } else {
        fixups(owners.drop_last(), modes) + fixup(owners.last(), modes)
    }
}

/// The script that commands are added to, which is made up if there is none.
pub open spec fn or_made_up(script: Seq<char>) -> Seq<char> {
    if script.len() == 0 {
        "#!/bin/sh\n"@
    } else {
        script
    }
}

/// The first line of a script.
pub open spec fn first_line(script: Seq<char>) -> Seq<char> {
    script.take(first_index(script, '\n') as int)
}

/// Whether commands are kept out of a script: it names an interpreter in its
/// first line, and that is not the shell or bash.
pub open spec fn keeps_out(script: Seq<char>) -> bool {
    let line = first_line(script);
    "#!"@.is_prefix_of(line) && {
        let interpreter = first_word(trimmed_start(line.skip("#!"@.len() as int)));
        interpreter != "/bin/bash"@ && interpreter != "/bin/sh"@
    }
}

/// The script that runs after installation, with the commands that set owners
/// and modes after its first line, if there are any to set and it is a shell
/// script.
pub open spec fn with_fixups(
    script: Seq<char>,
    owners: Seq<(Seq<char>, Seq<char>)>,
    modes: Seq<(Seq<char>, u32)>,
) -> Seq<char> {
    let base = or_made_up(script);
    let end = first_index(base, '\n') as int;
    if owners.len() == 0 || keeps_out(base) {
        script
    } else {
        base.take(end) + ("\n# alien added permissions fixup code"@ + fixups(owners, modes))
            + base.skip(end)
    }
}

/// What goes into the file of a maintainer script, if there is such a file. A
/// script after installation is there for owners and modes alone, too.
pub open spec fn script_file(info: InfoView, name: Seq<char>) -> Option<Seq<char>> {
    let known = if info.scripts.contains_key(name) {
        Some(info.scripts[name]@)
    } else {
        None
    };
    let text = if name == "postinst"@ {
        Some(with_fixups(known.unwrap_or(seq![]), info.owninfo, info.modeinfo))
    } else {
        known
    };
    match text {
        Some(t) if trimmed(t).len() > 0 => Some(t),
        _ => None,
    }
}

/// A file of a Debian source package: its name, what is in it, and whether it
/// can be run.
#[verifier::ext_equal]
pub struct FileView {
    pub name: Seq<char>,
    pub contents: Seq<char>,
    pub executable: bool,
}

pub open spec fn plain_file(name: Seq<char>, contents: Seq<char>) -> Seq<FileView> {
    seq![FileView { name, contents, executable: false }]
}

pub open spec fn optional_file(name: Seq<char>, contents: Option<Seq<char>>) -> Seq<FileView> {
    match contents {
        Some(c) => plain_file(name, c),
        None => seq![],
    }
}

/// The files of the maintainer scripts.
pub open spec fn script_files(info: InfoView) -> Seq<FileView> {
    optional_file("postinst"@, script_file(info, "postinst"@)) + (if info.use_scripts {
        optional_file("postrm"@, script_file(info, "postrm"@)) + optional_file(
            "preinst"@,
            script_file(info, "preinst"@),
        ) + optional_file("prerm"@, script_file(info, "prerm"@))
    } else {
        seq![]
    })
}

/// The files of a Debian source package, in the order in which they are
/// written.
pub open spec fn debian_files(
    info: InfoView,
    realname: Seq<char>,
    email: Seq<char>,
    date: Seq<char>,
    alien_version: Seq<char>,
    fix_perms: bool,
) -> Seq<FileView> {
    plain_file("changelog"@, changelog_text(info, realname, email, date, alien_version))
        + plain_file("control"@, control_text(info, realname, email)) + plain_file(
        "copyright"@,
        copyright_text(info, date),
    ) + optional_file("conffiles"@, conffiles_text(info.conffiles)) + plain_file(
        "compat"@,
        compat_text(7),
    ) + seq![
        FileView { name: "rules"@, contents: rules_text(fix_perms), executable: true },
    ] + script_files(info)
}

/// A file of a Debian source package.
pub struct DebFile {
    pub name: String,
    pub contents: String,
    pub executable: bool,
}

impl View for DebFile {
    type V = FileView;

    open spec fn view(&self) -> FileView {
        FileView { name: self.name@, contents: self.contents@, executable: self.executable }
    }
}

pub open spec fn file_views(files: Seq<DebFile>) -> Seq<FileView> {
    Seq::new(files.len(), |i: int| files[i]@)
}

/// The date cannot be written.
pub struct DateError;

/// What the files of a Debian source package are made of.
pub struct DebWriter<'a> {
    pub info: &'a PackageInfo,
    pub realname: String,
    pub email: String,
    pub date: String,
}

fn add_plain(files: &mut Vec<DebFile>, name: &str, contents: String)
    ensures
        file_views(final(files)@) == file_views(old(files)@) + plain_file(name@, contents@),
{
    let ghost before = files@;
    files.push(DebFile { name: name.to_owned(), contents, executable: false });
    assert(file_views(files@) =~= file_views(before) + plain_file(name@, contents@));
}

fn add_optional(files: &mut Vec<DebFile>, name: &str, contents: Option<String>)
    ensures
        file_views(final(files)@) == file_views(old(files)@) + optional_file(
            name@,
            opt_text(contents),
        ),
{
    let ghost before = file_views(files@);
    match contents {
        Some(c) => add_plain(files, name, c),
        None => {},
    }
    assert(file_views(files@) =~= before + optional_file(name@, opt_text(contents)));
}

/// The commands that set an owner that had to wait, and the mode that had to
/// wait with it, if any.
fn fixup_for(file: &str, owner: &str, modes: &PathTable<u32>) -> (r: String)
    ensures
        r@ == fixup((file@, owner@), modes@),
{
    let chars = to_chars(file);
    let quoted = replace(chars.as_slice(), '\'', "'\"'\"'");
    let mut r = "\nchown '".to_owned();
    r.append(owner);
    r.append("' '");
    r.append(quoted.as_str());
    r.append("'");
    let ghost first = r@;
    if let Some(mode) = modes.get(file) {
        r.append("\nchmod '");
        append_decimal(&mut r, *mode);
        r.append("' '");
        r.append(quoted.as_str());
        r.append("'");
        assert(r@ =~= first + ("\nchmod '"@ + decimal(*mode as nat) + "' '"@ + quoted@ + "'"@));
    }
    assert(r@ =~= fixup((file@, owner@), modes@));
    r
}

impl<'a> DebWriter<'a> {
    /// What the files are made of: the package, who makes it a Debian package,
    /// and when, in seconds since 1970 and seconds east of Greenwich.
    pub fn new(
        info: &'a PackageInfo,
        realname: String,
        email: String,
        unix_seconds: i64,
        offset_seconds: i32,
    ) -> (r: Result<Self, DateError>)
        ensures
            match rfc2822(unix_seconds, offset_seconds) {
                Some(date) => r matches Ok(w) && w.info == info && w.realname@ == realname@
                    && w.email@ == email@ && w.date@ == date,
                None => r is Err,
            },
            ordinary_moment(unix_seconds, offset_seconds) ==> r is Ok,
    {
        match format_rfc2822(unix_seconds, offset_seconds) {
            Some(date) => Ok(DebWriter { info, realname, email, date }),
            None => Err(DateError),
        }
    }

    /// The changelog.
    pub fn write_changelog(&self, alien_version: &str) -> (r: String)
        ensures
            r@ == changelog_text(
                self.info@,
                self.realname@,
                self.email@,
                self.date@,
                alien_version@,
            ),
    {
        let info = self.info;
        let mut r = info.name.clone();
        r.append(" (");
        r.append(info.version.as_str());
        r.append("-");
        r.append(info.release.as_str());
        r.append(") experimental; urgency=low\n\n  * Converted from ");
        r.append(info.original_format.name());
        r.append(" format to .deb by alien version ");
        r.append(alien_version);
        r.append("\n\n  ");
        r.append(info.changelog_text.as_str());
        r.append("\n\n  -- ");
        r.append(self.realname.as_str());
        r.append(" <");
        r.append(self.email.as_str());
        r.append(">  ");
        r.append(self.date.as_str());
        r.append("\n\n");
        r
    }

    /// The control file.
    pub fn write_control(&self) -> (r: String)
        ensures
            r@ == control_text(self.info@, self.realname@, self.email@),
    {
        let info = self.info;
        let mut more = String::new();
        let ghost all = texts(info.depends@);
        assert(all.take(0) =~= Seq::<Seq<char>>::empty());
        for i in 0..info.depends.len()
            invariant
                all == texts(info.depends@),
                more@ == more_depends(all.take(i as int)),
        {
            more.append(", ");
            more.append(info.depends[i].as_str());
            assert(all.take(i + 1).drop_last() =~= all.take(i as int));
        }
        assert(all.take(all.len() as int) =~= all);
        let mut r = "Source: ".to_owned();
        r.append(info.name.as_str());
        r.append("\nSection: alien\nPriority: extra\nMaintainer: ");
        r.append(self.realname.as_str());
        r.append(" <");
        r.append(self.email.as_str());
        r.append(">\n\nPackage: ");
        r.append(info.name.as_str());
        r.append("\nArchitecture: ");
        r.append(info.arch.as_str());
        r.append("\nDepends: ${shlibs:Depends}");
        r.append(more.as_str());
        r.append("\nDescription: ");
        r.append(info.summary.as_str());
        r.append("\n");
        r.append(info.description.as_str());
        r.append("\n\n");
        r
    }

    /// The copyright file.
    pub fn write_copyright(&self) -> (r: String)
        ensures
            r@ == copyright_text(self.info@, self.date@),
    {
        let info = self.info;
        let mut r =
            "This package was debianized by the alien program by converting\na binary .".to_owned();
        r.append(info.original_format.name());
        r.append(" package on ");
        r.append(self.date.as_str());
        r.append("\n\nCopyright: ");
        r.append(info.copyright.as_str());
        r.append("\n\nInformation from the binary package:\n");
        r.append(info.binary_info.as_str());
        r.append("\n\n");
        r
    }

    /// The list of configuration files, if there has to be one.
    pub fn write_conffiles(&self) -> (r: Option<String>)
        ensures
            opt_text(r) == conffiles_text(self.info@.conffiles),
    {
        let conffiles = &self.info.conffiles;
        let ghost all = texts(conffiles@);
        let mut some = false;
        let mut r = String::new();
        assert(all.take(0) =~= Seq::<Seq<char>>::empty());
        for i in 0..conffiles.len()
            invariant
                all == texts(conffiles@),
                r@ == conffile_lines(all.take(i as int)),
                some == exists|j: int| 0 <= j < i && !in_etc(#[trigger] all[j]),
        {
            assert(all.take(i + 1).drop_last() =~= all.take(i as int));
            assert(all[i as int] == conffiles[i as int]@);
            if !below_etc(conffiles[i].as_str()) {
                r.append(conffiles[i].as_str());
                r.append("\n");
                some = true;
            }
        }
        assert(all.take(all.len() as int) =~= all);
        if some {
            Some(r)
        } else {
            None
        }
    }

    /// The level of compatibility.
    pub fn write_compat(&self, version: u32) -> (r: String)
        ensures
            r@ == compat_text(version),
    {
        let mut r = crate::text::decimal_of(version);
        r.append("\n");
        r
    }

    /// The rules, in which permissions are fixed or left alone.
    pub fn write_rules(&self, fix_perms: bool) -> (r: String)
        ensures
            r@ == rules_text(fix_perms),
    {
        let mut r = "\n#!/usr/bin/make -f\n# debian/rules for alien\n\nPACKAGE = $(shell dh_listpackages)\n\nbuild:\ndh_testdir\n\nclean:\ndh_testdir\ndh_testroot\ndh_clean -d\n\nbinary-arch: build\ndh_testdir\ndh_testroot\ndh_prep\ndh_installdirs\n\ndh_installdocs\ndh_installchangelogs\n\n# Copy the packages' files.\nfind . -maxdepth 1 -mindepth 1 -not -name debian -print0 | \\\nxargs -0 -r -i cp -a {} debian/$(PACKAGE)\n\n#\n# If you need to move files around in debian/$(PACKAGE) or do some\n# binary patching, do it here\n#\n\n\n# This has been known to break on some wacky binaries.\n#   dh_strip\ndh_compress\n".to_owned();
        if fix_perms {
            r.append("");
        } else {
            r.append("#");
        }
        r.append("\tdh_fixperms\ndh_makeshlibs\ndh_installdeb\n-dh_shlibdeps\ndh_gencontrol\ndh_md5sums\ndh_builddeb\n\nbinary: binary-indep binary-arch\n.PHONY: build clean binary-indep binary-arch binary\n\n");
        r
    }

    /// Adds the commands that set owners and modes to the script that runs
    /// after installation. Says whether they had to be kept out of it, which is
    /// worth a warning.
    pub fn patch_post_inst(&self, script: &mut String) -> (r: bool)
        ensures
            final(script)@ == with_fixups(old(script)@, self.info@.owninfo, self.info@.modeinfo),
            r == (self.info@.owninfo.len() > 0 && keeps_out(or_made_up(old(script)@))),
    {
        let owners = &self.info.owninfo;
        let modes = &self.info.modeinfo;
        if owners.len() == 0 {
            return false;
        }
        if script.as_str().is_empty() {
            *script = "#!/bin/sh\n".to_owned();
            proof {
                lemma_made_up_script_takes_commands();
            }
        }
        let ghost base = script@;
        let chars = to_chars(script.as_str());
        let end = find(chars.as_slice(), '\n');
        let line = slice_subrange(chars.as_slice(), 0, end);
        if let Some(rest) = strip_prefix(line, "#!") {
            let interpreter = first_word_of(trim_start(rest));
            if !same(interpreter.as_str(), "/bin/bash") && !same(interpreter.as_str(), "/bin/sh") {
                return true;
            }
        }
        let mut added = "\n# alien added permissions fixup code".to_owned();
        let ghost opening = added@;
        assert(owners@.take(0) =~= Seq::<(Seq<char>, Seq<char>)>::empty());
        assert(added@ =~= opening + fixups(owners@.take(0), modes@));
        let count = owners.len();
        for i in 0..count
            invariant
                count == owners@.len(),
                added@ == opening + fixups(owners@.take(i as int), modes@),
        {
            assert(owners@.take(i + 1).drop_last() =~= owners@.take(i as int));
            assert(owners@.take(i + 1).last() == owners@[i as int]);
            let commands = fixup_for(owners.path(i).as_str(), owners.value(i).as_str(), modes);
            added.append(commands.as_str());
            assert(added@ =~= opening + fixups(owners@.take(i + 1), modes@));
        }
        assert(owners@.take(owners@.len() as int) =~= owners@);
        let mut r = from_chars(line);
        r.append(added.as_str());
        append_chars(&mut r, slice_subrange(chars.as_slice(), end, chars.len()));
        *script = r;
        false
    }

    /// What goes into the file of a maintainer script, if there is such a
    /// file, and whether a warning is due.
    pub fn write_script(&self, name: &str) -> (r: (Option<String>, bool))
        ensures
            opt_text(r.0) == script_file(self.info@, name@),
            r.1 == (name@ == "postinst"@ && self.warns()),
    {
        let known = match self.info.scripts.get(name) {
            Some(s) => Some(s.clone()),
            None => None,
        };
        let mut warned = false;
        let text = if same(name, "postinst") {
            let mut text = match known {
                Some(s) => s,
                None => String::new(),
            };
            assert(text@ =~= (if self.info@.scripts.contains_key(name@) {
                self.info@.scripts[name@]@
            } else {
                seq![]
            }));
            warned = self.patch_post_inst(&mut text);
            text
        } else {
            match known {
                Some(s) => s,
                None => {
                    return (None, false);
                },
            }
        };
        let chars = to_chars(text.as_str());
        if trim(chars.as_slice()).len() > 0 {
            (Some(text), warned)
        } else {
            (None, warned)
        }
    }

    /// Whether commands had to be kept out of the script that runs after
    /// installation.
    pub open spec fn warns(self) -> bool {
        let known = if self.info@.scripts.contains_key("postinst"@) {
            self.info@.scripts["postinst"@]@
        } else {
            seq![]
        };
        self.info@.owninfo.len() > 0 && keeps_out(or_made_up(known))
    }

    /// The files of the maintainer scripts, and whether a warning is due.
    pub fn write_scripts(&self) -> (r: (Vec<DebFile>, bool))
        ensures
            file_views(r.0@) == script_files(self.info@),
            r.1 == self.warns(),
    {
        let mut files: Vec<DebFile> = Vec::new();
        assert(file_views(files@) =~= Seq::<FileView>::empty());
        let (postinst, warned) = self.write_script("postinst");
        add_optional(&mut files, "postinst", postinst);
        if self.info.use_scripts {
            let postrm = self.write_script("postrm").0;
            add_optional(&mut files, "postrm", postrm);
            let preinst = self.write_script("preinst").0;
            add_optional(&mut files, "preinst", preinst);
            let prerm = self.write_script("prerm").0;
            add_optional(&mut files, "prerm", prerm);
        }
        assert(file_views(files@) =~= script_files(self.info@));
        (files, warned)
    }

    /// The files of the Debian source package, in the order in which they are
    /// to be written, and whether a warning is due.
    pub fn write_all(&self, fix_perms: bool, alien_version: &str) -> (r: (Vec<DebFile>, bool))
        ensures
            file_views(r.0@) == debian_files(
                self.info@,
                self.realname@,
                self.email@,
                self.date@,
                alien_version@,
                fix_perms,
            ),
            r.1 == self.warns(),
    {
        let mut files: Vec<DebFile> = Vec::new();
        assert(file_views(files@) =~= Seq::<FileView>::empty());
        let changelog = self.write_changelog(alien_version);
        add_plain(&mut files, "changelog", changelog);
        let control = self.write_control();
        add_plain(&mut files, "control", control);
        let copyright = self.write_copyright();
        add_plain(&mut files, "copyright", copyright);
        let conffiles = self.write_conffiles();
        add_optional(&mut files, "conffiles", conffiles);
        let compat = self.write_compat(7);
        add_plain(&mut files, "compat", compat);
        let ghost before = file_views(files@);
        let rules = self.write_rules(fix_perms);
        files.push(DebFile { name: "rules".to_owned(), contents: rules, executable: true });
        assert(file_views(files@) =~= before + seq![
            FileView { name: "rules"@, contents: rules_text(fix_perms), executable: true },
        ]);
        let ghost before = file_views(files@);
        let (mut scripts, warned) = self.write_scripts();
        let ghost more = file_views(scripts@);
        files.append(&mut scripts);
        assert(file_views(files@) =~= before + more);
        assert(file_views(files@) =~= debian_files(
            self.info@,
            self.realname@,
            self.email@,
            self.date@,
            alien_version@,
            fix_perms,
        ));
        (files, warned)
    }
}

/// What stands in the middle of a text stands in the text.
pub(crate) proof fn lemma_stands_in(part: Seq<char>, before: Seq<char>, middle: Seq<char>, after: Seq<char>)
    requires
        stands_in(part, middle),
    ensures
        stands_in(part, before + middle + after),
{
    let whole = before + middle + after;
    let i = choose|i: int|
        0 <= i && i + part.len() <= middle.len() && #[trigger] middle.subrange(i, i + part.len())
            == part;
    let j = before.len() + i;
    assert(whole.subrange(j, j + part.len()) =~= middle.subrange(i, i + part.len()));
}

proof fn lemma_every_fixup(
    owners: Seq<(Seq<char>, Seq<char>)>,
    modes: Seq<(Seq<char>, u32)>,
    i: int,
)
    requires
        0 <= i < owners.len(),
    ensures
        stands_in(fixup(owners[i], modes), fixups(owners, modes)),
    decreases owners.len(),
{
    let before = fixups(owners.drop_last(), modes);
    let last = fixup(owners.last(), modes);
    let none = Seq::<char>::empty();
    if i == owners.len() - 1 {
        assert(last.subrange(0, 0int + last.len()) =~= last);
        lemma_stands_in(last, before, last, none);
        assert(before + last + none =~= fixups(owners, modes));
    } else {
        lemma_every_fixup(owners.drop_last(), modes, i);
        lemma_stands_in(fixup(owners[i], modes), none, before, last);
        assert(none + before + last =~= fixups(owners, modes));
    }
}

/// Every owner that had to wait is set by the script that runs after
/// installation, unless commands are kept out of the script.
pub proof fn lemma_every_owner_is_set(
    script: Seq<char>,
    owners: Seq<(Seq<char>, Seq<char>)>,
    modes: Seq<(Seq<char>, u32)>,
    i: int,
)
    requires
        0 <= i < owners.len(),
        !keeps_out(or_made_up(script)),
    ensures
        stands_in(fixup(owners[i], modes), with_fixups(script, owners, modes)),
{
    let base = or_made_up(script);
    let end = first_index(base, '\n') as int;
    let opening = "\n# alien added permissions fixup code"@;
    lemma_every_fixup(owners, modes, i);
    lemma_stands_in(
        fixup(owners[i], modes),
        base.take(end) + opening,
        fixups(owners, modes),
        base.skip(end),
    );
    assert(base.take(end) + opening + fixups(owners, modes) + base.skip(end) =~= with_fixups(
        script,
        owners,
        modes,
    ));
}

/// Commands are not kept out of a script that is made up.
proof fn lemma_made_up_script_takes_commands()
    ensures
        !keeps_out("#!/bin/sh\n"@),
{
    reveal_strlit("#!/bin/sh\n");
    reveal_strlit("#!");
    reveal_strlit("/bin/sh");
    let script = "#!/bin/sh\n"@;
    lemma_first_index(script, '\n', 9);
    let rest = first_line(script).skip(2);
    assert(rest =~= "/bin/sh"@);
    assert(trimmed_start(rest) == rest);
    reveal_with_fuel(first_word, 8);
    assert(first_word(rest) =~= rest);
}

/// Where there is no script to run after installation, one is made up that sets
/// every owner that had to wait, and no warning is due.
pub proof fn lemma_made_up_script_sets_owners(
    owners: Seq<(Seq<char>, Seq<char>)>,
    modes: Seq<(Seq<char>, u32)>,
)
    requires
        owners.len() > 0,
    ensures
        !keeps_out(or_made_up(seq![])),
        with_fixups(seq![], owners, modes) == "#!/bin/sh\n# alien added permissions fixup code"@
            + fixups(owners, modes) + "\n"@,
{
    lemma_made_up_script_takes_commands();
    let script = "#!/bin/sh\n"@;
    reveal_strlit("#!/bin/sh\n");
    reveal_strlit("\n# alien added permissions fixup code");
    reveal_strlit("#!/bin/sh\n# alien added permissions fixup code");
    reveal_strlit("\n");
    lemma_first_index(script, '\n', 9);
    assert(script.take(9) + "\n# alien added permissions fixup code"@
        =~= "#!/bin/sh\n# alien added permissions fixup code"@);
    assert(script.skip(9) =~= "\n"@);
    assert(with_fixups(seq![], owners, modes)
        =~= "#!/bin/sh\n# alien added permissions fixup code"@ + fixups(owners, modes) + "\n"@);
}

/// A script that is no shell script stays as it is.
pub proof fn lemma_other_scripts_stay(
    script: Seq<char>,
    owners: Seq<(Seq<char>, Seq<char>)>,
    modes: Seq<(Seq<char>, u32)>,
)
    requires
        keeps_out(script),
    ensures
        with_fixups(script, owners, modes) == script,
{
    reveal_strlit("#!");
    assert(script.len() > 0);
}

/// A configuration file in `/etc` makes no difference to the list.
pub proof fn lemma_etc_not_listed(conffiles: Seq<Seq<char>>, i: int)
    requires
        0 <= i < conffiles.len(),
        in_etc(conffiles[i]),
    ensures
        conffiles_text(conffiles.remove(i)) == conffiles_text(conffiles),
{
    let less = conffiles.remove(i);
    lemma_etc_no_line(conffiles, i);
    if has_listed_conffile(conffiles) {
        let j = choose|j: int| 0 <= j < conffiles.len() && !in_etc(#[trigger] conffiles[j]);
        assert(less[if j < i {
            j
        } else {
            j - 1
        }] == conffiles[j]);
    }
    if has_listed_conffile(less) {
        let j = choose|j: int| 0 <= j < less.len() && !in_etc(#[trigger] less[j]);
        assert(conffiles[if j < i {
            j
        } else {
            j + 1
        }] == less[j]);
    }
}

proof fn lemma_etc_no_line(conffiles: Seq<Seq<char>>, i: int)
    requires
        0 <= i < conffiles.len(),
        in_etc(conffiles[i]),
    ensures
        conffile_lines(conffiles.remove(i)) == conffile_lines(conffiles),
    decreases conffiles.len(),
{
    if i == conffiles.len() - 1 {
        assert(conffiles.remove(i) =~= conffiles.drop_last());
    } else {
        let before = conffiles.drop_last();
        lemma_etc_no_line(before, i);
        assert(conffiles.remove(i).drop_last() =~= before.remove(i));
        assert(conffiles.remove(i).last() == conffiles.last());
    }
}

/// The warning that commands had to be kept out of a script.
pub fn fixup_warning() -> (r: String)
    ensures
        r@
            == "warning: unable to add ownership fixup code to postinst as the postinst is not a shell script!"@,
{
    "warning: unable to add ownership fixup code to postinst as the postinst is not a shell script!".to_owned()
}

} // verus!
