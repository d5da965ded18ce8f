//! The spec file that an RPM package is built from.
use vstd::prelude::*;

use crate::outside::{unescape, unescaped, unquoted};
use crate::package::{InfoView, PackageInfo};
use crate::rpm::Rpm;
use crate::text::{same, texts, to_chars};

verus! {

/// The line for a file in the list of files. The name is quoted in case it
/// has spaces in it.
pub open spec fn file_line(name: Seq<char>, conffiles: Seq<Seq<char>>) -> Seq<char> {
    (if name.len() > 0 && name.last() == '/' {
        "%dir \""@
    } else if conffiles.contains(name) {
        "%config \""@
    } else {
        "\""@
    }) + name + "\"\n"@
}

/// The lines for files whose names were resolved.
pub open spec fn file_lines(names: Seq<Seq<char>>, conffiles: Seq<Seq<char>>) -> Seq<char>
    decreases names.len(),
{
    if names.len() == 0 {
        seq![]
    } else {
        file_lines(names.drop_last(), conffiles) + file_line(names.last(), conffiles)
    }
}

/// The names of files with their escapes resolved, or the complaint about the
/// first that has an escape that cannot be.
pub open spec fn resolved(files: Seq<Seq<char>>) -> Result<Seq<Seq<char>>, Seq<char>>
    decreases files.len(),
{
    if files.len() == 0 {
        Ok(seq![])
    } else {
        match resolved(files.drop_last()) {
            Err(e) => Err(e),
            Ok(names) => match unescaped(files.last()) {
                Err(e) => Err(e),
                Ok(name) => Ok(names.push(name)),
            },
        }
    }
}

/// Whether no file name has quotes in it.
pub open spec fn all_unquoted(files: Seq<Seq<char>>) -> bool {
    forall|i: int| 0 <= i < files.len() ==> unquoted(#[trigger] files[i])
}

/// Texts with commas between them.
pub open spec fn comma_separated(items: Seq<Seq<char>>) -> Seq<char>
    decreases items.len(),
{
    if items.len() == 0 {
        seq![]
    } else if items.len() == 1 {
        items[0]
    } else {
        comma_separated(items.drop_last()) + ", "@ + items.last()
    }
}

/// The line for the packages that this one depends on, if there are any.
pub open spec fn requires_line(depends: Seq<Seq<char>>) -> Seq<char> {
    if depends.len() == 0 {
        seq![]
    } else {
        "Requires: "@ + comma_separated(depends) + "\n"@
    }
}

/// The section for a script, if there is one.
pub open spec fn script_section(script: Option<Seq<char>>) -> Seq<char> {
    match script {
        Some(s) => "%pre\n"@ + s + "\n\n"@,
        None => seq![],
    }
}

/// The sections for the scripts, if they are to be used.
pub open spec fn script_sections(info: InfoView) -> Seq<char> {
    if info.use_scripts {
        script_section(info.preinst) + script_section(info.postinst) + script_section(info.prerm)
            + script_section(info.postrm)
    } else {
        seq![]
    }
}

/// The spec file for a package, given the lines for its files.
pub open spec fn spec_text(
    info: InfoView,
    build_root: Seq<char>,
    alien_version: Seq<char>,
    files: Seq<char>,
) -> Seq<char> {
    "Buildroot: "@ + build_root + "\nName: "@ + info.name + "\nVersion: "@ + info.version
        + "\nRelease: "@ + info.release + "\n"@ + requires_line(info.depends) + "Summary: "@
        + info.summary + "\nLicense: "@ + info.copyright + "\nDistribution: "@ + info.distribution
        + "\nGroup: Converted/"@ + info.group
        + "\n\n%define _rpmdir ../\n%define _rpmfilename %%{NAME}-%%{VERSION}-%%{RELEASE}.%%{ARCH}.rpm\n%define _unpackaged_files_terminate_build 0\n\n"@
        + script_sections(info) + "%description\n"@ + info.description + "\n\n(Converted from a "@
        + info.original_format + " package by alien version "@ + alien_version
        + ".)\n\n%files\n"@ + files
}

/// The name of the spec file for a package.
pub open spec fn spec_file_name(info: InfoView) -> Seq<char> {
    info.name + "-"@ + info.version + "-"@ + info.release + ".spec"@
}

/// The line for a file in the list of files.
pub fn line_for_file(name: &str, conffiles: &Vec<String>) -> (r: String)
    ensures
        r@ == file_line(name@, texts(conffiles@)),
{
    let chars = to_chars(name);
    let mut r = if chars.len() > 0 && chars[chars.len() - 1] == '/' {
        "%dir \"".to_owned()
    } else {
        let mut is_conffile = false;
        for i in 0..conffiles.len()
            invariant
                is_conffile == exists|j: int| 0 <= j < i && #[trigger] conffiles[j]@ == name@,
        {
            if same(conffiles[i].as_str(), name) {
                is_conffile = true;
            }
        }
        proof {
            let all = texts(conffiles@);
            if is_conffile {
                let j = choose|j: int| 0 <= j < conffiles.len() && #[trigger] conffiles[j]@ == name@;
                assert(all[j] == name@);
            }
            if all.contains(name@) {
                let j = choose|j: int| 0 <= j < all.len() && all[j] == name@;
                assert(conffiles[j]@ == name@);
            }
        }
        if is_conffile {
            "%config \"".to_owned()
        } else {
            "\"".to_owned()
        }
    };
    r.append(name);
    r.append("\"\n");
    r
}

/// The lines for files whose names were resolved.
pub fn lines_for_files(names: &Vec<String>, conffiles: &Vec<String>) -> (r: String)
    ensures
        r@ == file_lines(texts(names@), texts(conffiles@)),
{
    let mut r = String::new();
    let ghost all = texts(names@);
    assert(all.take(0) =~= Seq::<Seq<char>>::empty());
    for i in 0..names.len()
        invariant
            all == texts(names@),
            r@ == file_lines(all.take(i as int), texts(conffiles@)),
    {
        let line = line_for_file(names[i].as_str(), conffiles);
        r.append(line.as_str());
        assert(all.take(i + 1).drop_last() =~= all.take(i as int));
    }
    assert(all.take(all.len() as int) =~= all);
    r
}

/// One file that cannot be resolved is a complaint about them all.
proof fn lemma_resolved_fails(files: Seq<Seq<char>>, n: int)
    requires
        0 <= n <= files.len(),
        resolved(files.take(n)) is Err,
    ensures
        resolved(files) == resolved(files.take(n)),
    decreases files.len() - n,
{
    if n < files.len() {
        assert(files.drop_last().take(n) =~= files.take(n));
        lemma_resolved_fails(files.drop_last(), n);
    } else {
        assert(files.take(n) =~= files);
    }
}

/// The names of files with their escapes resolved. Names without quotes stay
/// as they are.
pub fn resolve_names(files: &Vec<String>) -> (r: Result<Vec<String>, String>)
    ensures
        match r {
            Ok(names) => resolved(texts(files@)) == Ok::<Seq<Seq<char>>, Seq<char>>(texts(names@)),
            Err(e) => resolved(texts(files@)) == Err::<Seq<Seq<char>>, Seq<char>>(e@),
        },
        all_unquoted(texts(files@)) ==> resolved(texts(files@)) == Ok::<
            Seq<Seq<char>>,
            Seq<char>,
        >(texts(files@)),
{
    let mut names: Vec<String> = Vec::new();
    let ghost all = texts(files@);
    assert(all.take(0) =~= Seq::<Seq<char>>::empty());
    assert(texts(names@) =~= Seq::<Seq<char>>::empty());
    for i in 0..files.len()
        invariant
            all == texts(files@),
            resolved(all.take(i as int)) == Ok::<Seq<Seq<char>>, Seq<char>>(texts(names@)),
            all_unquoted(all) ==> texts(names@) == all.take(i as int),
    {
        assert(all.take(i + 1).drop_last() =~= all.take(i as int));
        match unescape(files[i].as_str()) {
            Ok(name) => {
                let ghost before = names@;
                names.push(name);
                assert(texts(names@) =~= texts(before).push(name@));
                assert(all_unquoted(all) ==> unquoted(all[i as int]));
                assert(all.take(i + 1) =~= all.take(i as int).push(all[i as int]));
            },
            Err(e) => {
                proof {
                    lemma_resolved_fails(all, i + 1);
                    assert(all_unquoted(all) ==> unquoted(all[i as int]));
                }
                return Err(e);
            },
        }
    }
    assert(all.take(all.len() as int) =~= all);
    Ok(names)
}

/// Appends texts, each after a comma but the first.
pub(crate) fn append_comma_separated(out: &mut String, items: &Vec<String>)
    ensures
        final(out)@ == old(out)@ + comma_separated(texts(items@)),
{
    let ghost all = texts(items@);
    let ghost before = out@;
    assert(all.take(0) =~= Seq::<Seq<char>>::empty());
    assert(before + comma_separated(all.take(0)) =~= before);
    for i in 0..items.len()
        invariant
            all == texts(items@),
            out@ == before + comma_separated(all.take(i as int)),
    {
        assert(all.take(i + 1).drop_last() =~= all.take(i as int));
        if i > 0 {
            out.append(", ");
        }
        out.append(items[i].as_str());
        assert(out@ =~= before + comma_separated(all.take(i + 1)));
    }
    assert(all.take(all.len() as int) =~= all);
}

fn append_script_section(out: &mut String, script: &Option<String>)
    ensures
        final(out)@ == old(out)@ + script_section(crate::text::opt_text(*script)),
{
    let ghost before = out@;
    if let Some(s) = script {
        out.append("%pre\n");
        out.append(s.as_str());
        out.append("\n\n");
    }
    assert(out@ =~= before + script_section(crate::text::opt_text(*script)));
}

/// The sections for the scripts.
fn script_sections_for(info: &PackageInfo) -> (r: String)
    ensures
        r@ == script_sections(info@),
{
    let mut r = String::new();
    if info.use_scripts {
        append_script_section(&mut r, &info.preinst);
        append_script_section(&mut r, &info.postinst);
        append_script_section(&mut r, &info.prerm);
        append_script_section(&mut r, &info.postrm);
    }
    assert(r@ =~= script_sections(info@));
    r
}

/// The line for the packages that this one depends on.
fn requires_line_for(depends: &Vec<String>) -> (r: String)
    ensures
        r@ == requires_line(texts(depends@)),
{
    let mut r = String::new();
    if depends.len() > 0 {
        r = "Requires: ".to_owned();
        append_comma_separated(&mut r, depends);
        r.append("\n");
    }
    assert(r@ =~= requires_line(texts(depends@)));
    r
}

/// The spec file for a package, given the lines for its files.
pub fn spec_text_for(
    info: &PackageInfo,
    build_root: &str,
    alien_version: &str,
    files: &str,
) -> (r: String)
    ensures
        r@ == spec_text(info@, build_root@, alien_version@, files@),
{
    let depends = requires_line_for(&info.depends);
    let scripts = script_sections_for(info);
    let mut r = "Buildroot: ".to_owned();
    r.append(build_root);
    r.append("\nName: ");
    r.append(info.name.as_str());
    r.append("\nVersion: ");
    r.append(info.version.as_str());
    r.append("\nRelease: ");
    r.append(info.release.as_str());
    r.append("\n");
    r.append(depends.as_str());
    r.append("Summary: ");
    r.append(info.summary.as_str());
    r.append("\nLicense: ");
    r.append(info.copyright.as_str());
    r.append("\nDistribution: ");
    r.append(info.distribution.as_str());
    r.append("\nGroup: Converted/");
    r.append(info.group.as_str());
    r.append(
        "\n\n%define _rpmdir ../\n%define _rpmfilename %%{NAME}-%%{VERSION}-%%{RELEASE}.%%{ARCH}.rpm\n%define _unpackaged_files_terminate_build 0\n\n",
    );
    r.append(scripts.as_str());
    r.append("%description\n");
    r.append(info.description.as_str());
    r.append("\n\n(Converted from a ");
    r.append(info.original_format.name());
    r.append(" package by alien version ");
    r.append(alien_version);
    r.append(".)\n\n%files\n");
    r.append(files);
    r
}

impl Rpm {
    /// The name of the spec file, in the directory the package is unpacked in.
    pub fn spec_file(&self) -> (r: String)
        ensures
            r@ == spec_file_name(self.info@),
    {
        let mut r = self.info.name.clone();
        r.append("-");
        r.append(self.info.version.as_str());
        r.append("-");
        r.append(self.info.release.as_str());
        r.append(".spec");
        r
    }

    /// The spec file that the package is built from, or the complaint about a
    /// file name that cannot be resolved. Names without quotes stand in it as
    /// they are.
    pub fn prepare(&self, build_root: &str, alien_version: &str) -> (r: Result<String, String>)
        ensures
            match resolved(self.info@.file_list) {
                Ok(names) => r matches Ok(text) && text@ == spec_text(
                    self.info@,
                    build_root@,
                    alien_version@,
                    file_lines(names, self.info@.conffiles),
                ),
                Err(e) => r matches Err(message) && message@ == e,
            },
            all_unquoted(self.info@.file_list) ==> (r matches Ok(text) && text@ == spec_text(
                self.info@,
                build_root@,
                alien_version@,
                file_lines(self.info@.file_list, self.info@.conffiles),
            )),
    {
        match resolve_names(&self.info.file_list) {
            Ok(names) => {
                let files = lines_for_files(&names, &self.info.conffiles);
                Ok(spec_text_for(&self.info, build_root, alien_version, files.as_str()))
            },
            Err(e) => Err(e),
        }
    }
}

} // verus!
