//! Debian packages.
pub mod patches;
pub mod policy;
pub mod writer;

use vstd::prelude::*;
use vstd::slice::slice_subrange;
use vstd::utf8::{decode_utf8, encode_utf8_decode_utf8, valid_utf8};

use crate::deb::policy::fhs_directories;
use crate::outside::{decode_text, gunzip, gunzipped, result_view};
use crate::package::{Args, InfoView, PackageInfo};
use crate::path::{join, joined};
use crate::table::{stored, PathTable};
use crate::text::{
    contains, find, first_index, first_match, from_chars, is_digit, is_white, lines, lines_of,
    opt_text, parse_u32, replace, replaced, same, texts, to_chars, trim, trim_end, trimmed,
    trimmed_end, u32_value, white,
};

verus! {

/// The characters that a Debian version may have in it.
pub open spec fn is_version_char(c: char) -> bool {
    c == '-' || c == '.' || c == '+' || c == '~' || c == ':' || is_digit(c) || 'a' <= c <= 'z'
        || 'A' <= c <= 'Z'
}

/// A version that Debian accepts: only characters that a version may have, and
/// a digit at the start.
pub open spec fn debian_version(version: Seq<char>) -> Seq<char> {
    let kept = version.filter(|c: char| is_version_char(c));
    if version.len() > 0 && is_digit(version[0]) {
        kept
    } else {
        seq!['0'] + kept
    }
}

/// A release that has digits in it: one that is no number gets one at the end.
pub open spec fn debian_release(release: Seq<char>) -> Seq<char> {
    if u32_value(release) is None {
        release + "-1"@
    } else {
        release
    }
}

/// A line of a description without tabs and trailing white space.
pub open spec fn cut_line(line: Seq<char>) -> Seq<char> {
    trimmed_end(replaced(line, '\t', "        "@))
}

/// The same with a dot for an empty line.
pub open spec fn description_line(line: Seq<char>) -> Seq<char> {
    if cut_line(line).len() == 0 {
        seq!['.']
    } else {
        cut_line(line)
    }
}

/// Lines from the first that is not blank on.
pub open spec fn without_leading_blanks(all: Seq<Seq<char>>) -> Seq<Seq<char>>
    decreases all.len(),
{
    if all.len() > 0 && cut_line(all[0]).len() == 0 {
        without_leading_blanks(all.skip(1))
    } else {
        all
    }
}

/// The lines of a description, each after a space.
pub open spec fn description_lines(all: Seq<Seq<char>>) -> Seq<char>
    decreases all.len(),
{
    if all.len() == 0 {
        seq![]
    } else {
        description_lines(all.drop_last()) + (seq![' '] + description_line(all.last()) + seq!['\n'])
    }
}

/// The note at the end of a description on where the package comes from.
pub open spec fn conversion_note(format: Seq<char>, alien_version: Seq<char>) -> Seq<char> {
    " (Converted from a "@ + format + " package by alien version "@ + alien_version + ".)"@
}

/// A description as Debian has them: without leading blank lines, and with a
/// note on where the package comes from after an empty line.
pub open spec fn debian_description(
    description: Seq<char>,
    format: Seq<char>,
    alien_version: Seq<char>,
) -> Seq<char> {
    let text = description_lines(without_leading_blanks(lines(description)));
    (if text.len() > 0 {
        text + " .\n"@
    } else {
        text
    }) + conversion_note(format, alien_version)
}

/// What is known of a package, made fit for a Debian package.
pub open spec fn debian_sanitized(info: InfoView, alien_version: Seq<char>) -> InfoView {
    InfoView {
        version: debian_version(info.version),
        release: debian_release(info.release),
        description: debian_description(info.description, info.original_format, alien_version),
        ..info
    }
}

/// Whether a copy of the unpacked tree is kept.
pub open spec fn keeps_original(single: bool, generate: bool) -> bool {
    !single && !generate
}

/// Which patch is wanted, if any: the one that the user named, or one that has to
/// be looked for.
pub open spec fn patch_wanted(no_patch: bool, named: Option<Seq<u8>>) -> Option<Option<Seq<u8>>> {
    if no_patch {
        None
    } else {
        Some(named)
    }
}

/// Where the patch that makes a package a Debian package comes from.
pub enum PatchChoice {
    /// There is none.
    Unpatched,
    /// The user named one.
    Given(Vec<u8>),
    /// It has to be looked for.
    Search,
}

/// What to do before a package is made a Debian package.
pub struct Preparation {
    /// Keep a copy of the unpacked tree.
    pub keep_original: bool,
    pub patch: PatchChoice,
}

/// Why a Debian package could not be built.
pub enum DebBuildError {
    /// The package is for another architecture.
    WrongArchitecture { file: String, arch: String },
    /// The rules could not be run.
    RulesNotRun,
    /// The rules failed, and this is what they had to say.
    Failed { log: String },
}

impl DebBuildError {
    pub open spec fn text(self) -> Seq<char> {
        match self {
            DebBuildError::WrongArchitecture { file, arch } => file@ + " is for architecture "@
                + arch@ + "; the package cannot be built on this system"@,
            DebBuildError::RulesNotRun =>
                "Package build failed; could not run generated debian/rules file."@,
            DebBuildError::Failed { log } => "Package build failed. Here's the log:\n"@ + log@,
        }
    }

    /// The complaint in words.
    pub fn message(&self) -> (r: String)
        ensures
            r@ == self.text(),
    {
        match self {
            DebBuildError::WrongArchitecture { file, arch } => {
                let mut r = file.clone();
                r.append(" is for architecture ");
                r.append(arch.as_str());
                r.append("; the package cannot be built on this system");
                r
            },
            DebBuildError::RulesNotRun => {
                "Package build failed; could not run generated debian/rules file.".to_owned()
            },
            DebBuildError::Failed { log } => {
                let mut r = "Package build failed. Here's the log:\n".to_owned();
                r.append(log.as_str());
                r
            },
        }
    }
}

/// The file name of a built package.
pub open spec fn deb_name(info: InfoView) -> Seq<char> {
    info.name + "_"@ + info.version + "-"@ + info.release + "_"@ + info.arch + ".deb"@
}

/// What comes of building a package: the package, or the complaint in words.
pub open spec fn build_outcome(
    info: InfoView,
    accepted: bool,
    file: Seq<char>,
    success: bool,
    stderr: Seq<char>,
) -> Result<Seq<char>, Seq<char>> {
    if info.arch != "all"@ && !accepted {
        Err(
            file + " is for architecture "@ + info.arch
                + "; the package cannot be built on this system"@,
        )
    } else if success {
        Ok(deb_name(info))
    } else if stderr.len() == 0 {
        Err("Package build failed; could not run generated debian/rules file."@)
    } else {
        Err("Package build failed. Here's the log:\n"@ + stderr)
    }
}

fn version_char(c: char) -> (r: bool)
    ensures
        r == is_version_char(c),
{
    c == '-' || c == '.' || c == '+' || c == '~' || c == ':' || ('0' <= c && c <= '9') || ('a' <= c
        && c <= 'z') || ('A' <= c && c <= 'Z')
}

/// A version that Debian accepts.
pub fn debian_version_of(version: &str) -> (r: String)
    ensures
        r@ == debian_version(version@),
{
    let chars = to_chars(version);
    let mut r = String::new();
    if !(chars.len() > 0 && '0' <= chars[0] && chars[0] <= '9') {
        r.push('0');
    }
    let ghost start = r@;
    let ghost valid = |c: char| is_version_char(c);
    assert(chars@.take(0).filter(valid) =~= Seq::<char>::empty());
    for i in 0..chars.len()
        invariant
            valid == (|c: char| is_version_char(c)),
            r@ == start + chars@.take(i as int).filter(valid),
    {
        proof {
            assert(chars@.take(i + 1) =~= chars@.take(i as int).push(chars@[i as int]));
            chars@.take(i as int).lemma_filter_push(chars@[i as int], valid);
        }
        let ghost before = r@;
        if version_char(chars[i]) {
            r.push(chars[i]);
            assert(r@ =~= start + chars@.take(i as int).filter(valid).push(chars@[i as int]));
        }
    }
    assert(chars@.take(chars@.len() as int) =~= chars@);
    assert(r@ =~= debian_version(version@));
    r
}

/// A description as Debian has them.
pub fn debian_description_of(description: &str, format: &str, alien_version: &str) -> (r: String)
    ensures
        r@ == debian_description(description@, format@, alien_version@),
{
    let chars = to_chars(description);
    let all = lines_of(chars.as_slice());
    let ghost whole = texts(all@);
    let ghost kept = without_leading_blanks(whole);
    let mut text = String::new();
    let ghost mut dropped: int = 0;
    assert(whole.skip(0) =~= whole);
    assert(whole.skip(0).take(0) =~= Seq::<Seq<char>>::empty());
    for i in 0..all.len()
        invariant
            whole == texts(all@),
            kept == without_leading_blanks(whole),
            0 <= dropped <= i,
            dropped < i ==> kept == whole.skip(dropped),
            dropped == i ==> kept == without_leading_blanks(whole.skip(i as int)),
            text@ == description_lines(whole.skip(dropped).take(i - dropped)),
            (text@.len() == 0) == (dropped == i),
    {
        let line = to_chars(all[i].as_str());
        assert(line@ == whole[i as int]);
        let spaced = replace(line.as_slice(), '\t', "        ");
        let spaced = to_chars(spaced.as_str());
        let cut = trim_end(spaced.as_slice());
        assert(cut@ == cut_line(line@));
        assert(whole.skip(i as int)[0] == line@);
        assert(whole.skip(i as int).skip(1) =~= whole.skip(i + 1));
        if text.as_str().is_empty() && cut.len() == 0 {
            proof {
                dropped = i + 1;
                assert(whole.skip(dropped).take(0) =~= Seq::<Seq<char>>::empty());
            }
        } else {
            let ghost before = text@;
            text.push(' ');
            if cut.len() == 0 {
                text.push('.');
            } else {
                crate::text::append_chars(&mut text, cut);
            }
            text.push('\n');
            proof {
                let seen = whole.skip(dropped).take(i + 1 - dropped);
                assert(seen.drop_last() =~= whole.skip(dropped).take(i - dropped));
                assert(seen.last() == line@);
                assert(text@ =~= before + (seq![' '] + description_line(line@) + seq!['\n']));
            }
        }
    }
    proof {
        let n = whole.len() as int;
        assert(whole.skip(dropped).take(n - dropped) =~= whole.skip(dropped));
        assert(whole.skip(n) =~= Seq::<Seq<char>>::empty());
    }
    if !text.as_str().is_empty() {
        text.append(" .\n");
    }
    let ghost before = text@;
    text.append(" (Converted from a ");
    text.append(format);
    text.append(" package by alien version ");
    text.append(alien_version);
    text.append(".)");
    assert(text@ =~= before + conversion_note(format@, alien_version@));
    text
}

/// Whether a line has both an opening and a closing parenthesis.
pub open spec fn has_parentheses(line: Seq<char>) -> bool {
    first_index(line, '(') < line.len() && first_index(line, ')') < line.len()
}

/// Whether the first closing parenthesis of a line, if there is one, comes
/// after the first opening one, if there is one.
pub open spec fn parentheses_in_order(line: Seq<char>) -> bool {
    has_parentheses(line) ==> first_index(line, '(') < first_index(line, ')')
}

/// The version in the first line of a Debian changelog: what stands in
/// parentheses, without white space.
pub open spec fn version_in(line: Seq<char>) -> Option<Seq<char>> {
    if has_parentheses(line) {
        Some(
            line.subrange(first_index(line, '(') as int + 1, first_index(line, ')') as int).filter(
                |c: char| !is_white(c),
            ),
        )
    } else {
        None
    }
}

/// Whether the parentheses in a line are in order.
pub fn has_ordered_parentheses(line: &str) -> (r: bool)
    ensures
        r == parentheses_in_order(line@),
{
    let chars = to_chars(line);
    let open = find(chars.as_slice(), '(');
    let close = find(chars.as_slice(), ')');
    open >= chars.len() || close >= chars.len() || open < close
}

/// The version in the first line of a Debian changelog.
pub fn changelog_version(line: &str) -> (r: Option<String>)
    requires
        parentheses_in_order(line@),
    ensures
        opt_text(r) == version_in(line@),
{
    let chars = to_chars(line);
    let open = find(chars.as_slice(), '(');
    let close = find(chars.as_slice(), ')');
    if open >= chars.len() || close >= chars.len() {
        return None;
    }
    let inner = slice_subrange(chars.as_slice(), open + 1, close);
    let ghost visible = |c: char| !is_white(c);
    let mut r = String::new();
    assert(inner@.take(0).filter(visible) =~= Seq::<char>::empty());
    for i in 0..inner.len()
        invariant
            visible == (|c: char| !is_white(c)),
            r@ == inner@.take(i as int).filter(visible),
    {
        proof {
            assert(inner@.take(i + 1) =~= inner@.take(i as int).push(inner@[i as int]));
            inner@.take(i as int).lemma_filter_push(inner@[i as int], visible);
        }
        if !white(inner[i]) {
            r.push(inner[i]);
        }
    }
    assert(inner@.take(inner@.len() as int) =~= inner@);
    Some(r)
}

/// The lines of a row of bytes, which end as those of a text do.
pub open spec fn byte_lines(s: Seq<u8>) -> Seq<Seq<u8>>
    decreases s.len(),
{
    let n = first_index(s, 10u8) as int;
    if s.len() == 0 {
        seq![]
    } else if n >= s.len() {
        seq![s]
    } else {
        let line = if n > 0 && s[n - 1] == 13u8 {
            s.take(n - 1)
        } else {
            s.take(n)
        };
        seq![line] + byte_lines(s.skip(n + 1))
    }
}

/// Whether a line of the report of `lintian` is of interest: it is text, and
/// it is no complaint about the section.
pub open spec fn is_reported(line: Seq<u8>) -> bool {
    valid_utf8(line) && first_match(decode_utf8(line), "unknown-section alien"@) is None
}

/// The lines of the report of `lintian` that are of interest.
pub open spec fn reported(all: Seq<Seq<u8>>) -> Seq<Seq<char>>
    decreases all.len(),
{
    if all.len() == 0 {
        seq![]
    } else if is_reported(all.last()) {
        reported(all.drop_last()).push(trimmed(decode_utf8(all.last())))
    } else {
        reported(all.drop_last())
    }
}

/// What is of interest in the report of `lintian`.
pub open spec fn report_in(output: Seq<u8>) -> Seq<Seq<char>> {
    reported(byte_lines(output))
}

/// The lines of a row of bytes.
fn byte_lines_of(s: &[u8]) -> (r: Vec<Vec<u8>>)
    ensures
        Seq::new(r@.len(), |i: int| r@[i]@) == byte_lines(s@),
{
    let mut r: Vec<Vec<u8>> = Vec::new();
    let mut start: usize = 0;
    assert(s@.skip(0) =~= s@);
    assert(Seq::new(r@.len(), |i: int| r@[i]@) + byte_lines(s@) =~= byte_lines(s@));
    while start < s.len()
        invariant
            start <= s.len(),
            Seq::new(r@.len(), |i: int| r@[i]@) + byte_lines(s@.skip(start as int)) == byte_lines(
                s@,
            ),
        decreases s.len() - start,
    {
        let ghost rest = s@.skip(start as int);
        let ghost before = Seq::new(r@.len(), |i: int| r@[i]@);
        let mut end: usize = start;
        while end < s.len() && s[end] != 10
            invariant
                start <= end <= s.len(),
                rest == s@.skip(start as int),
                forall|j: int| 0 <= j < end - start ==> rest[j] != 10u8,
            decreases s.len() - end,
        {
            end = end + 1;
        }
        proof {
            crate::text::lemma_first_index(rest, 10u8, end - start);
        }
        if end == s.len() {
            r.push(vstd::slice::slice_to_vec(slice_subrange(s, start, end)));
            proof {
                assert(s@.subrange(start as int, end as int) =~= rest);
                let now = Seq::new(r@.len(), |i: int| r@[i]@);
                assert(now =~= before + seq![rest]);
                assert(s@.skip(end as int) =~= Seq::<u8>::empty());
                assert(now + byte_lines(Seq::<u8>::empty()) =~= now);
            }
            start = end;
        } else {
            let stop: usize = if end > start && s[end - 1] == 13 {
                end - 1
            } else {
                end
            };
            r.push(vstd::slice::slice_to_vec(slice_subrange(s, start, stop)));
            proof {
                assert(s@.subrange(start as int, stop as int) =~= rest.take(stop - start));
                let now = Seq::new(r@.len(), |i: int| r@[i]@);
                assert(rest.skip(end - start + 1) =~= s@.skip(end + 1));
                assert(now + byte_lines(s@.skip(end + 1)) =~= before + (seq![
                    rest.take(stop - start),
                ] + byte_lines(rest.skip(end - start + 1))));
            }
            start = end + 1;
        }
    }
    proof {
        assert(s@.skip(start as int) =~= Seq::<u8>::empty());
        let now = Seq::new(r@.len(), |i: int| r@[i]@);
        assert(now + byte_lines(Seq::<u8>::empty()) =~= now);
    }
    r
}

/// A directory of an unpacked package that may have to be moved to where the
/// hierarchy standard has it.
pub struct DirectoryMove {
    pub old: String,
    pub new: String,
    /// The directory that the new one is in.
    pub parent: String,
}

/// Whether a move is that of a directory of the package from `usr` to
/// `usr/share`.
pub open spec fn is_move(
    m: DirectoryMove,
    unpacked_dir: Seq<char>,
    old: Seq<char>,
    new: Seq<char>,
) -> bool {
    m.old@ == joined(unpacked_dir, old, '/') && m.new@ == joined(unpacked_dir, new, '/')
        && m.parent@ == joined(unpacked_dir, "usr/share"@, '/')
}

/// Where directories are moved from and to.
pub open spec fn move_views(moves: Seq<DirectoryMove>) -> Seq<(Seq<char>, Seq<char>)> {
    Seq::new(moves.len(), |i: int| (moves[i].old@, moves[i].new@))
}

fn move_to_share(unpacked_dir: &str, old: &str, new: &str) -> (r: DirectoryMove)
    ensures
        is_move(r, unpacked_dir@, old@, new@),
{
    DirectoryMove {
        old: join(unpacked_dir, old),
        new: join(unpacked_dir, new),
        parent: join(unpacked_dir, "usr/share"),
    }
}

/// The directories of a package, unpacked in the given one, that may have to
/// be moved.
pub fn fhs_moves(unpacked_dir: &str) -> (r: Vec<DirectoryMove>)
    ensures
        r@.len() == 3,
        move_views(r@) == fhs_directories(unpacked_dir@),
        is_move(r@[0], unpacked_dir@, "usr/man"@, "usr/share/man"@),
        is_move(r@[1], unpacked_dir@, "usr/info"@, "usr/share/info"@),
        is_move(r@[2], unpacked_dir@, "usr/doc"@, "usr/share/doc"@),
{
    let mut r: Vec<DirectoryMove> = Vec::new();
    r.push(move_to_share(unpacked_dir, "usr/man", "usr/share/man"));
    r.push(move_to_share(unpacked_dir, "usr/info", "usr/share/info"));
    r.push(move_to_share(unpacked_dir, "usr/doc", "usr/share/doc"));
    assert(move_views(r@) =~= fhs_directories(unpacked_dir@));
    r
}

impl DirectoryMove {
    /// Whether the directory is to be moved, given whether the old and the new
    /// one are there.
    pub fn is_wanted(&self, old_exists: bool, new_exists: bool) -> (r: bool)
        ensures
            r == (old_exists && !new_exists),
    {
        old_exists && !new_exists
    }
}

/// A Debian package in the making.
pub struct DebTarget {
    pub info: PackageInfo,
    /// The directory that the package is unpacked in.
    pub unpacked_dir: Vec<u8>,
    /// Where directories were moved to, to comply with the hierarchy standard.
    pub dir_map: PathTable<String>,
}

impl DebTarget {
    /// Makes what is known of a package fit for a Debian package.
    pub fn sanitize_info(info: &mut PackageInfo, alien_version: &str)
        ensures
            final(info)@ == debian_sanitized(old(info)@, alien_version@),
    {
        let version = debian_version_of(info.version.as_str());
        info.version = version;
        let release = to_chars(info.release.as_str());
        if parse_u32(release.as_slice()).is_none() {
            info.release.append("-1");
        }
        let description = debian_description_of(
            info.description.as_str(),
            info.original_format.name(),
            alien_version,
        );
        info.description = description;
        assert(info@ =~= debian_sanitized(old(info)@, alien_version@));
    }

    /// A Debian package to be made of an unpacked one, and what has to be done
    /// before that.
    pub fn new(
        info: PackageInfo,
        unpacked_dir: Vec<u8>,
        args: &Args,
        alien_version: &str,
    ) -> (r: (Self, Preparation))
        ensures
            r.0.info@ == debian_sanitized(info@, alien_version@),
            r.0.unpacked_dir@ == unpacked_dir@,
            r.0.dir_map@ == Seq::<(Seq<char>, Seq<char>)>::empty(),
            r.1.keep_original == keeps_original(args.single, args.generate),
            patch_wanted(
                args.nopatch,
                match args.patch {
                    Some(p) => Some(p@),
                    None => None,
                },
            ) == (match r.1.patch {
                PatchChoice::Unpatched => None,
                PatchChoice::Given(p) => Some(Some(p@)),
                PatchChoice::Search => Some(None),
            }),
            match r.1.patch {
                PatchChoice::Unpatched => args.nopatch,
                PatchChoice::Given(p) => !args.nopatch && args.patch is Some && p@
                    == args.patch.unwrap()@,
                PatchChoice::Search => !args.nopatch && args.patch is None,
            },
    {
        let mut info = info;
        Self::sanitize_info(&mut info, alien_version);
        let patch = if args.nopatch {
            PatchChoice::Unpatched
        } else {
            match &args.patch {
                Some(p) => PatchChoice::Given(vstd::slice::slice_to_vec(p.as_slice())),
                None => PatchChoice::Search,
            }
        };
        (
            DebTarget { info, unpacked_dir, dir_map: PathTable::new() },
            Preparation { keep_original: !args.single && !args.generate, patch },
        )
    }

    /// The patch that a patch file holds, to be handed to `patch`.
    pub fn patch(compressed: &[u8]) -> (r: Result<Vec<u8>, String>)
        ensures
            result_view(r) == gunzipped(compressed@),
    {
        gunzip(compressed)
    }

    /// What came of patching: it failed where it left rejected pieces.
    pub fn patch_result(has_rejects: bool) -> (r: Result<(), String>)
        ensures
            has_rejects <==> r is Err,
            r matches Err(e) ==> e@ == "Patch failed with .rej files; giving up"@,
    {
        if has_rejects {
            Err("Patch failed with .rej files; giving up".to_owned())
        } else {
            Ok(())
        }
    }

    /// Takes down that a directory was moved.
    pub fn record_move(&mut self, moved: &DirectoryMove)
        ensures
            final(self).dir_map@ == stored(old(self).dir_map@, moved.old@, moved.new@),
            final(self).info == old(self).info,
            final(self).unpacked_dir == old(self).unpacked_dir,
    {
        self.dir_map.insert(moved.old.clone(), moved.new.clone());
    }

    /// Forgets the directory that the package is unpacked in.
    pub fn clear_unpacked_dir(&mut self)
        ensures
            final(self).unpacked_dir@ == Seq::<u8>::empty(),
            final(self).info == old(self).info,
            final(self).dir_map == old(self).dir_map,
    {
        self.unpacked_dir.clear();
    }

    /// The architecture that the system has to be asked about before the
    /// package is built, unless the package is for all of them.
    pub fn architecture_to_check(&self) -> (r: Option<String>)
        ensures
            opt_text(r) == (if self.info@.arch == "all"@ {
                None
            } else {
                Some(self.info@.arch)
            }),
    {
        if same(self.info.arch.as_str(), "all") {
            None
        } else {
            Some(self.info.arch.clone())
        }
    }

    /// Whether the package can be built here, given whether the system accepts
    /// its architecture: one for all architectures can in any case. Where it
    /// cannot, the rules are not to be run.
    pub fn architecture_result(&self, accepted: bool, file: &str) -> (r: Result<(), DebBuildError>)
        ensures
            r is Ok <==> self.info@.arch == "all"@ || accepted,
            r matches Err(e) ==> (e matches DebBuildError::WrongArchitecture { file: f, arch }
                && f@ == file@ && arch@ == self.info@.arch),
    {
        if accepted || same(self.info.arch.as_str(), "all") {
            Ok(())
        } else {
            Err(
                DebBuildError::WrongArchitecture {
                    file: file.to_owned(),
                    arch: self.info.arch.clone(),
                },
            )
        }
    }

    /// What came of building the package: the package, or why there is none,
    /// given whether the system accepts its architecture, the file it was read
    /// from, and what came of running the rules.
    pub fn build(&self, accepted: bool, file: &str, success: bool, stderr: &str) -> (r: Result<
        String,
        DebBuildError,
    >)
        ensures
            r is Ok <==> (self.info@.arch == "all"@ || accepted) && success,
            match r {
                Ok(path) => build_outcome(self.info@, accepted, file@, success, stderr@) == Ok::<
                    Seq<char>,
                    Seq<char>,
                >(path@),
                Err(e) => build_outcome(self.info@, accepted, file@, success, stderr@) == Err::<
                    Seq<char>,
                    Seq<char>,
                >(e.text()),
            },
            match r {
                Ok(path) => path@ == self.info@.name + "_"@ + self.info@.version + "-"@
                    + self.info@.release + "_"@ + self.info@.arch + ".deb"@,
                Err(DebBuildError::WrongArchitecture { file: f, arch }) => self.info@.arch
                    != "all"@ && !accepted && f@ == file@ && arch@ == self.info@.arch,
                Err(DebBuildError::RulesNotRun) => (self.info@.arch == "all"@ || accepted)
                    && stderr@.len() == 0,
                Err(DebBuildError::Failed { log }) => (self.info@.arch == "all"@ || accepted)
                    && stderr@.len() > 0 && log@ == stderr@,
            },
    {
        if let Err(e) = self.architecture_result(accepted, file) {
            return Err(e);
        }
        if !success {
            if stderr.is_empty() {
                return Err(DebBuildError::RulesNotRun);
            }
            return Err(DebBuildError::Failed { log: stderr.to_owned() });
        }
        let mut r = self.info.name.clone();
        r.append("_");
        r.append(self.info.version.as_str());
        r.append("-");
        r.append(self.info.release.as_str());
        r.append("_");
        r.append(self.info.arch.as_str());
        r.append(".deb");
        Ok(r)
    }

    /// What `lintian` has to say, if it is there to say something.
    pub fn test(output: Option<&[u8]>) -> (r: Vec<String>)
        ensures
            texts(r@) == (match output {
                Some(o) => report_in(o@),
                None => seq!["lintian not available, so not testing"@],
            }),
    {
        let mut r: Vec<String> = Vec::new();
        match output {
            None => {
                r.push("lintian not available, so not testing".to_owned());
                assert(texts(r@) =~= seq!["lintian not available, so not testing"@]);
            },
            Some(o) => {
                let all = byte_lines_of(o);
                let ghost whole = Seq::new(all@.len(), |i: int| all@[i]@);
                assert(whole.take(0) =~= Seq::<Seq<u8>>::empty());
                assert(texts(r@) =~= Seq::<Seq<char>>::empty());
                for i in 0..all.len()
                    invariant
                        whole == Seq::new(all@.len(), |i: int| all@[i]@),
                        texts(r@) == reported(whole.take(i as int)),
                {
                    proof {
                        assert(whole.take(i + 1).drop_last() =~= whole.take(i as int));
                        assert(whole.take(i + 1).last() == all@[i as int]@);
                    }
                    let line = vstd::slice::slice_to_vec(all[i].as_slice());
                    let ghost before = r@;
                    if let Some(text) = decode_text(line) {
                        proof {
                            encode_utf8_decode_utf8(text@);
                        }
                        let chars = to_chars(text.as_str());
                        if !contains(chars.as_slice(), "unknown-section alien") {
                            r.push(from_chars(trim(chars.as_slice())));
                            assert(texts(r@) =~= texts(before).push(trimmed(text@)));
                        }
                    }
                }
                assert(whole.take(whole.len() as int) =~= whole);
            },
        }
        r
    }

    /// The arguments for `dpkg`, before the package file.
    pub fn install() -> (r: Vec<String>)
        ensures
            texts(r@) == seq!["--no-force-overwrite"@, "-i"@],
    {
        let mut r: Vec<String> = Vec::new();
        r.push("--no-force-overwrite".to_owned());
        r.push("-i".to_owned());
        assert(texts(r@) =~= seq!["--no-force-overwrite"@, "-i"@]);
        r
    }
}

} // verus!
