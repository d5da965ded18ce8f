//! RPM packages.
pub mod building;
pub mod query;
pub mod script;
pub mod spec_file;
pub mod unpacking;

use vstd::prelude::*;
use vstd::slice::slice_subrange;

use crate::package::{blank, Args, InfoView, PackageInfo};
use crate::path::{extension, extension_of, lemma_case_extension};
use crate::rpm::query::{field, next_step, reply, Query, Replies, RpmError, Step};
use crate::rpm::script::{
    carried_safely, encodable, for_bash, is_carried, lemma_for_shell_idempotent, opt_for_shell,
    sanitize_script, script_helper,
};
use crate::text::{
    ascii_lower, equal_ignoring_case, find, first_index, from_chars, is_digit,
    lemma_replaced_gone, lemma_replaced_nothing, lines, lines_of, opt_text, replace, replaced,
    same, same_ignoring_case, texts, to_chars, trim, trimmed,
};

verus! {

/// A row of bytes read as text, one character for each byte. The separators
/// and letters that paths are examined for are single bytes.
pub open spec fn byte_chars(bytes: Seq<u8>) -> Seq<char> {
    Seq::new(bytes.len(), |i: int| bytes[i] as char)
}

/// Whether a path is that of an RPM package, going by its extension.
pub open spec fn is_rpm_path(path: Seq<char>) -> bool {
    extension(path) matches Some(e) && same_ignoring_case(e, "rpm"@)
}

/// The files in a listing by `rpm`, one on each line. A package without files
/// is listed in words.
pub open spec fn listed_files(listing: Seq<char>) -> Seq<Seq<char>> {
    let all = lines(listing).map_values(|line: Seq<char>| trimmed(line));
    if all.len() > 0 && all[0] == "(contains no files)"@ {
        seq![]
    } else {
        all
    }
}

/// The summary of a package. Older packages have none, but a description,
/// whose first line serves.
pub open spec fn summary_of(
    summary: Option<Seq<char>>,
    description: Option<Seq<char>>,
) -> Seq<char> {
    match summary {
        Some(s) => s,
        None => {
            let d = description.unwrap_or(seq![]);
            let line = d.take(first_index(d, '\n') as int);
            if line.len() == 0 {
                "Converted RPM package"@
            } else {
                line
            }
        },
    }
}

/// The Debian name of the architecture that the user named.
pub open spec fn debian_arch(target: Seq<char>) -> Seq<char> {
    if target == "1"@ {
        "i386"@
    } else if target == "2"@ {
        "alpha"@
    } else if target == "3"@ {
        "sparc"@
    } else if target == "6"@ {
        "m68k"@
    } else if target == "noarch"@ {
        "all"@
    } else if target == "ppc"@ {
        "powerpc"@
    } else if target == "x86_64"@ || target == "em64t"@ {
        "amd64"@
    } else if target == "armv4l"@ {
        "arm"@
    } else if target == "armv7l"@ {
        "armel"@
    } else if target == "parisc"@ {
        "hppa"@
    } else if target == "ppc64le"@ {
        "ppc64el"@
    } else if same_ignoring_case(target, "pentium"@) || is_x86(target) {
        "i386"@
    } else {
        target
    }
}

/// 386, 486, 586 and so on, after an `i`.
pub open spec fn is_x86(target: Seq<char>) -> bool {
    target.len() == 4 && (target[0] == 'i' || target[0] == 'I') && is_digit(target[1]) && target[2]
        == '8' && target[3] == '6'
}

/// The name that RPM has for a Debian architecture.
pub open spec fn rpm_arch(arch: Seq<char>) -> Seq<char> {
    if arch == "amd64"@ {
        "x86_64"@
    } else if arch == "powerpc"@ {
        "ppc"@
    } else if arch == "hppa"@ {
        "parisc"@
    } else if arch == "all"@ {
        "noarch"@
    } else if arch == "ppc64el"@ {
        "ppc64le"@
    } else {
        arch
    }
}

/// What the replies say of a package, and the architecture that the user
/// named, if any.
pub open spec fn described(
    replies: Seq<(Query, Seq<char>)>,
    target: Option<Seq<char>>,
) -> InfoView {
    let prefixes = field(replies, Query::Prefixes);
    let summary = summary_of(field(replies, Query::Summary), field(replies, Query::Description));
    InfoView {
        name: field(replies, Query::Name).unwrap(),
        version: field(replies, Query::Version).unwrap(),
        release: field(replies, Query::Release).unwrap(),
        arch: match target {
            Some(t) => debian_arch(t),
            None => field(replies, Query::Arch).unwrap_or(seq![]),
        },
        changelog_text: field(replies, Query::ChangelogText).unwrap_or(seq![]),
        summary,
        description: field(replies, Query::Description).unwrap_or(summary),
        preinst: Some(for_bash(prefixes, field(replies, Query::PreIn))),
        postinst: Some(for_bash(prefixes, field(replies, Query::PostIn))),
        prerm: Some(for_bash(prefixes, field(replies, Query::PreUn))),
        postrm: Some(for_bash(prefixes, field(replies, Query::PostUn))),
        copyright: field(replies, Query::License).unwrap_or(
            field(replies, Query::Copyright).unwrap_or("unknown"@),
        ),
        conffiles: listed_files(reply(replies, Query::Conffiles).unwrap()),
        file_list: listed_files(reply(replies, Query::FileList).unwrap()),
        binary_info: reply(replies, Query::BinaryInfo).unwrap(),
        distribution: "Red Hat"@,
        original_format: "rpm"@,
        ..blank()
    }
}

/// The files in a listing by `rpm`.
pub fn files_in(listing: &str) -> (r: Vec<String>)
    ensures
        texts(r@) == listed_files(listing@),
{
    let chars = to_chars(listing);
    let all = lines_of(chars.as_slice());
    let ghost cut = |line: Seq<char>| trimmed(line);
    let mut r: Vec<String> = Vec::new();
    for i in 0..all.len()
        invariant
            r.len() == i,
            texts(all@) == lines(listing@),
            forall|j: int| 0 <= j < i ==> r[j]@ == trimmed(#[trigger] lines(listing@)[j]),
    {
        let line = to_chars(all[i].as_str());
        assert(lines(listing@)[i as int] == all[i as int]@);
        r.push(from_chars(trim(line.as_slice())));
    }
    assert(texts(r@) =~= lines(listing@).map_values(|line: Seq<char>| trimmed(line)));
    if r.len() > 0 && same(r[0].as_str(), "(contains no files)") {
        r.clear();
        assert(texts(r@) =~= seq![]);
    }
    r
}

/// The summary of a package.
pub fn summary_for(summary: Option<String>, description: &Option<String>) -> (r: String)
    ensures
        r@ == summary_of(opt_text(summary), opt_text(*description)),
{
    match summary {
        Some(s) => s,
        None => {
            let d = match description {
                Some(d) => to_chars(d.as_str()),
                None => Vec::new(),
            };
            assert(d@ =~= opt_text(*description).unwrap_or(seq![]));
            let end = find(d.as_slice(), '\n');
            if end == 0 {
                "Converted RPM package".to_owned()
            } else {
                from_chars(slice_subrange(d.as_slice(), 0, end))
            }
        },
    }
}

/// The Debian name of the architecture that the user named.
pub fn debian_arch_for(target: &str) -> (r: String)
    ensures
        r@ == debian_arch(target@),
{
    if same(target, "1") {
        return "i386".to_owned();
    }
    if same(target, "2") {
        return "alpha".to_owned();
    }
    if same(target, "3") {
        return "sparc".to_owned();
    }
    if same(target, "6") {
        return "m68k".to_owned();
    }
    if same(target, "noarch") {
        return "all".to_owned();
    }
    if same(target, "ppc") {
        return "powerpc".to_owned();
    }
    if same(target, "x86_64") || same(target, "em64t") {
        return "amd64".to_owned();
    }
    if same(target, "armv4l") {
        return "arm".to_owned();
    }
    if same(target, "armv7l") {
        return "armel".to_owned();
    }
    if same(target, "parisc") {
        return "hppa".to_owned();
    }
    if same(target, "ppc64le") {
        return "ppc64el".to_owned();
    }
    let t = to_chars(target);
    if equal_ignoring_case(t.as_slice(), "pentium") {
        return "i386".to_owned();
    }
    if t.len() == 4 && (t[0] == 'i' || t[0] == 'I') && ('0' <= t[1] && t[1] <= '9') && t[2] == '8'
        && t[3] == '6' {
        return "i386".to_owned();
    }
    target.to_owned()
}

/// An RPM package.
pub struct Rpm {
    pub info: PackageInfo,
    /// The package file.
    pub rpm_file: Vec<u8>,
    /// The directory that the package can be relocated to, if it can.
    pub prefixes: Option<String>,
}

impl Rpm {
    /// Whether a file is an RPM package, going by its extension.
    pub fn check_file(file: &[u8]) -> (r: bool)
        ensures
            r == is_rpm_path(byte_chars(file@)),
    {
        let mut chars: Vec<char> = Vec::new();
        for i in 0..file.len()
            invariant
                chars@ == byte_chars(file@).take(i as int),
        {
            chars.push(file[i] as char);
        }
        assert(chars@ =~= byte_chars(file@));
        match extension_of(chars.as_slice()) {
            Some(e) => equal_ignoring_case(e.as_slice(), "rpm"),
            None => false,
        }
    }

    /// The package that the replies describe. It can be told once every
    /// question has its reply, and then it has a name, a version and a release.
    pub fn new(rpm_file: Vec<u8>, replies: &Replies, args: &Args) -> (r: Result<Self, RpmError>)
        ensures
            match next_step(replies@, args.target is Some) {
                Step::Ask(q) => r == Err::<Self, RpmError>(RpmError::Unasked(q)),
                Step::Fail(e) => r == Err::<Self, RpmError>(e),
                Step::Ready => r matches Ok(rpm) && rpm.rpm_file@ == rpm_file@ && opt_text(
                    rpm.prefixes,
                ) == field(replies@, Query::Prefixes) && rpm.info@ == described(
                    replies@,
                    opt_text(args.target),
                ),
            },
    {
        match replies.next_step(args.target.is_some()) {
            Step::Ask(q) => {
                return Err(RpmError::Unasked(q));
            },
            Step::Fail(e) => {
                return Err(e);
            },
            Step::Ready => {},
        }
        proof {
            query::lemma_ready(replies@, args.target is Some);
        }
        let prefixes = replies.field_of(Query::Prefixes);
        let description = replies.field_of(Query::Description);
        let summary = summary_for(replies.field_of(Query::Summary), &description);
        let copyright = match replies.field_of(Query::License) {
            Some(license) => license,
            None => match replies.field_of(Query::Copyright) {
                Some(copyright) => copyright,
                None => "unknown".to_owned(),
            },
        };
        let arch = match &args.target {
            Some(target) => debian_arch_for(target.as_str()),
            None => or_empty(replies.field_of(Query::Arch)),
        };
        let conffiles = files_in(replies.reply_to(Query::Conffiles).unwrap().as_str());
        let file_list = files_in(replies.reply_to(Query::FileList).unwrap().as_str());
        let binary_info = replies.reply_to(Query::BinaryInfo).unwrap().clone();
        let mut info = PackageInfo::default();
        info.name = replies.field_of(Query::Name).unwrap();
        info.version = replies.field_of(Query::Version).unwrap();
        info.release = replies.field_of(Query::Release).unwrap();
        info.arch = arch;
        info.changelog_text = or_empty(replies.field_of(Query::ChangelogText));
        info.description = match description {
            Some(d) => d,
            None => summary.clone(),
        };
        info.summary = summary;
        info.preinst = sanitize_script(&prefixes, replies.field_of(Query::PreIn));
        info.postinst = sanitize_script(&prefixes, replies.field_of(Query::PostIn));
        info.prerm = sanitize_script(&prefixes, replies.field_of(Query::PreUn));
        info.postrm = sanitize_script(&prefixes, replies.field_of(Query::PostUn));
        info.copyright = copyright;
        info.conffiles = conffiles;
        info.file_list = file_list;
        info.binary_info = binary_info;
        info.distribution = "Red Hat".to_owned();
        assert(info@ =~= described(replies@, opt_text(args.target)));
        Ok(Rpm { info, rpm_file, prefixes })
    }

    /// What is known of the package.
    pub fn info(&self) -> (r: &PackageInfo)
        ensures
            r == self.info,
    {
        &self.info
    }

    /// What is known of the package, to be changed.
    pub fn info_mut(&mut self) -> (r: &mut PackageInfo)
        ensures
            *r == old(self).info,
            *final(self) == (Rpm { info: *final(r), ..*old(self) }),
    {
        &mut self.info
    }

    /// Makes what is known of the package fit for an RPM package: no hyphen in
    /// the version, scripts that the shell can run, and the name that RPM has
    /// for the architecture. Nothing of a script that another has to carry is
    /// lost.
    pub fn sanitize_info(&mut self)
        requires
            encodable(old(self).info.preinst),
            encodable(old(self).info.postinst),
            encodable(old(self).info.prerm),
            encodable(old(self).info.postrm),
        ensures
            final(self).info@ == rpm_sanitized(old(self).info@),
            final(self).rpm_file == old(self).rpm_file,
            final(self).prefixes == old(self).prefixes,
            old(self).info@.preinst matches Some(s) ==> is_carried(s) ==> carried_safely(s),
            old(self).info@.postinst matches Some(s) ==> is_carried(s) ==> carried_safely(s),
            old(self).info@.prerm matches Some(s) ==> is_carried(s) ==> carried_safely(s),
            old(self).info@.postrm matches Some(s) ==> is_carried(s) ==> carried_safely(s),
    {
        let version = to_chars(self.info.version.as_str());
        self.info.version = replace(version.as_slice(), '-', "_");
        script_helper(&mut self.info.preinst);
        script_helper(&mut self.info.postinst);
        script_helper(&mut self.info.prerm);
        script_helper(&mut self.info.postrm);
        let arch = rpm_arch_for(self.info.arch.as_str());
        self.info.arch = arch;
        assert(self.info@ =~= rpm_sanitized(old(self).info@));
    }
}

/// The text, or none of it.
fn or_empty(s: Option<String>) -> (r: String)
    ensures
        r@ == opt_text(s).unwrap_or(seq![]),
{
    match s {
        Some(t) => t,
        None => {
            let r = String::new();
            assert(r@ =~= seq![]);
            r
        },
    }
}

/// The name that RPM has for a Debian architecture.
pub fn rpm_arch_for(arch: &str) -> (r: String)
    ensures
        r@ == rpm_arch(arch@),
{
    if same(arch, "amd64") {
        "x86_64".to_owned()
    } else if same(arch, "powerpc") {
        "ppc".to_owned()
    } else if same(arch, "hppa") {
        "parisc".to_owned()
    } else if same(arch, "all") {
        "noarch".to_owned()
    } else if same(arch, "ppc64el") {
        "ppc64le".to_owned()
    } else {
        arch.to_owned()
    }
}

/// What is known of a package, made fit for an RPM package.
pub open spec fn rpm_sanitized(info: InfoView) -> InfoView {
    InfoView {
        version: replaced(info.version, '-', "_"@),
        preinst: opt_for_shell(info.preinst),
        postinst: opt_for_shell(info.postinst),
        prerm: opt_for_shell(info.prerm),
        postrm: opt_for_shell(info.postrm),
        arch: rpm_arch(info.arch),
        ..info
    }
}

/// A version fit for an RPM package has no hyphen in it.
pub proof fn lemma_sanitized_version(info: InfoView)
    ensures
        !rpm_sanitized(info).version.contains('-'),
{
    reveal_strlit("_");
    assert(!"_"@.contains('-'));
    lemma_replaced_gone(info.version, '-', "_"@);
}

/// What RPM calls an architecture is no name that RPM would change again.
pub proof fn lemma_rpm_arch_idempotent(arch: Seq<char>)
    ensures
        rpm_arch(rpm_arch(arch)) == rpm_arch(arch),
{
    reveal_strlit("amd64");
    reveal_strlit("powerpc");
    reveal_strlit("hppa");
    reveal_strlit("all");
    reveal_strlit("ppc64el");
    reveal_strlit("x86_64");
    reveal_strlit("ppc");
    reveal_strlit("parisc");
    reveal_strlit("noarch");
    reveal_strlit("ppc64le");
    assert("noarch"@[0] == 'n');
    assert("parisc"@[0] == 'p' && "parisc"@[1] == 'a');
    assert("ppc64le"@[5] == 'l' && "ppc64el"@[5] == 'e');
    assert("x86_64"@[0] == 'x');
    assert("amd64"@[0] == 'a');
    assert("hppa"@[0] == 'h');
    assert("all"@[0] == 'a');
    assert("powerpc"@[1] == 'o' && "ppc"@[1] == 'p' && "ppc64le"@[1] == 'p' && "ppc64el"@[1] == 'p');
}

/// Making the same package fit for RPM again changes nothing.
pub proof fn lemma_rpm_sanitized_idempotent(info: InfoView)
    ensures
        rpm_sanitized(rpm_sanitized(info)) == rpm_sanitized(info),
{
    let once = rpm_sanitized(info);
    lemma_sanitized_version(info);
    lemma_replaced_nothing(once.version, '-', "_"@);
    lemma_rpm_arch_idempotent(info.arch);
    if let Some(s) = info.preinst {
        lemma_for_shell_idempotent(s);
    }
    if let Some(s) = info.postinst {
        lemma_for_shell_idempotent(s);
    }
    if let Some(s) = info.prerm {
        lemma_for_shell_idempotent(s);
    }
    if let Some(s) = info.postrm {
        lemma_for_shell_idempotent(s);
    }
    assert(rpm_sanitized(once) =~= once);
}

/// Where RPM has a name of its own for a Debian architecture, asking for that
/// name leads back to the architecture.
pub proof fn lemma_arch_round_trip(arch: Seq<char>)
    requires
        rpm_arch(arch) != arch,
    ensures
        debian_arch(rpm_arch(arch)) == arch,
{
    reveal_strlit("1");
    reveal_strlit("2");
    reveal_strlit("3");
    reveal_strlit("6");
    reveal_strlit("noarch");
    reveal_strlit("ppc");
    reveal_strlit("x86_64");
    reveal_strlit("em64t");
    reveal_strlit("armv4l");
    reveal_strlit("armv7l");
    reveal_strlit("parisc");
    reveal_strlit("ppc64le");
    assert("noarch"@[0] == 'n' && "x86_64"@[0] == 'x');
    assert("armv4l"@[0] == 'a' && "armv7l"@[0] == 'a');
    assert("parisc"@[0] == 'p' && "parisc"@.len() == 6);
    assert("1"@.len() == 1 && "2"@.len() == 1 && "3"@.len() == 1 && "6"@.len() == 1);
    assert("ppc"@.len() == 3 && "em64t"@.len() == 5 && "noarch"@.len() == 6);
    assert("x86_64"@.len() == 6 && "armv4l"@.len() == 6 && "armv7l"@.len() == 6);
    if arch == "amd64"@ {
        assert(debian_arch("x86_64"@) == arch);
    } else if arch == "powerpc"@ {
        assert(debian_arch("ppc"@) == arch);
    } else if arch == "hppa"@ {
        assert(debian_arch("parisc"@) == arch);
    } else if arch == "all"@ {
        assert(debian_arch("noarch"@) == arch);
    } else {
        assert(debian_arch("ppc64le"@) == arch);
    }
}

/// A name that RPM has for an architecture leads to the Debian name and back.
/// The exceptions are Debian names that RPM has another name for, second names
/// such as `em64t`, and names whose Debian name RPM keeps as it is, such as
/// `i686`.
pub proof fn lemma_rpm_name_round_trip(name: Seq<char>)
    requires
        rpm_arch(name) == name,
        name != "em64t"@,
        debian_arch(name) == name || rpm_arch(debian_arch(name)) != debian_arch(name),
    ensures
        rpm_arch(debian_arch(name)) == name,
{
    if debian_arch(name) != name {
        reveal_strlit("i386");
        reveal_strlit("alpha");
        reveal_strlit("sparc");
        reveal_strlit("m68k");
        reveal_strlit("arm");
        reveal_strlit("armel");
        reveal_strlit("amd64");
        reveal_strlit("powerpc");
        reveal_strlit("hppa");
        reveal_strlit("all");
        reveal_strlit("ppc64el");
        assert("i386"@[0] == 'i' && "alpha"@[0] == 'a' && "sparc"@[0] == 's' && "m68k"@[0] == 'm');
        assert("arm"@[1] == 'r' && "armel"@[1] == 'r' && "alpha"@[1] == 'l');
        assert("amd64"@[1] == 'm' && "powerpc"@[0] == 'p' && "hppa"@[0] == 'h');
        assert("all"@.len() == 3 && "alpha"@.len() == 5 && "all"@[1] == 'l');
        assert("ppc64el"@[0] == 'p');
        assert("ppc64el"@[1] == 'p' && "powerpc"@[1] == 'o');
    }
}

/// Whether a file is an RPM package does not depend on the case of letters in
/// its path.
pub proof fn lemma_case_of_path(a: Seq<char>, b: Seq<char>)
    requires
        same_ignoring_case(a, b),
    ensures
        is_rpm_path(a) == is_rpm_path(b),
{
    lemma_case_extension(a, b);
    if let (Some(x), Some(y)) = (extension(a), extension(b)) {
        let rpm = "rpm"@;
        assert(same_ignoring_case(x, rpm) ==> same_ignoring_case(y, rpm)) by {
            assert forall|i: int|
                same_ignoring_case(x, rpm) && 0 <= i < y.len() implies ascii_lower(#[trigger] y[i])
                == ascii_lower(rpm[i]) by {
                assert(ascii_lower(x[i]) == ascii_lower(y[i]));
            }
        }
    }
}

} // verus!
