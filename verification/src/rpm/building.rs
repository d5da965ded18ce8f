//! Building and installing an RPM package.
use vstd::prelude::*;
use vstd::slice::slice_to_vec;

use crate::package::InfoView;
use crate::path::{join, join_bytes, joined};
use crate::rpm::spec_file::spec_file_name;
use crate::rpm::Rpm;
use crate::text::{
    from_chars, lines, lines_of, opt_text, split, split_at, strip_leading, strip_prefix, texts,
    to_chars, trim_start, trimmed_start, without_leading,
};

verus! {

/// The directory that a line of `rpm --showrc` names, after its label.
pub open spec fn labelled_dir(line: Seq<char>) -> Seq<char> {
    trimmed_start(without_leading(trimmed_start(line), ':'))
}

/// The directory that built packages go to, as the first line that is labelled
/// `rpmdir` has it.
pub open spec fn rpmdir_in(all: Seq<Seq<char>>) -> Option<Seq<char>>
    decreases all.len(),
{
    if all.len() == 0 {
        None
    } else if "rpmdir"@.is_prefix_of(all[0]) {
        Some(labelled_dir(all[0].skip("rpmdir"@.len() as int)))
    } else {
        rpmdir_in(all.skip(1))
    }
}

/// The file name of a built package.
pub open spec fn package_name(info: InfoView) -> Seq<char> {
    info.name + "-"@ + info.version + "-"@ + info.release + "."@ + info.arch + ".rpm"@
}

/// Where a built package is found. Old versions of `rpm` put it into a
/// directory for its architecture, newer ones where they were started.
pub open spec fn package_path(info: InfoView, rpmdir: Option<Seq<char>>) -> Seq<char> {
    match rpmdir {
        Some(dir) => joined(joined(dir, info.arch, '/'), package_name(info), '/'),
        None => package_name(info),
    }
}

/// The arguments for the build: the build root, what to build, the
/// architecture, under the option that the version of `rpm` has for it, the
/// options that the user set, separated by spaces, and the spec file.
pub open spec fn build_arguments(
    info: InfoView,
    build_root: Seq<char>,
    rpmdir: Option<Seq<char>>,
    options: Option<Seq<char>>,
) -> Seq<Seq<char>> {
    let flag = if rpmdir is Some {
        "--buildarch"@
    } else {
        "--target"@
    };
    seq!["--buildroot"@, build_root, "-bb"@, flag, info.arch] + (match options {
        Some(o) => split(o, ' '),
        None => seq![],
    }) + seq![spec_file_name(info)]
}

/// How to build a package.
pub struct BuildPlan {
    /// The program that builds the package.
    pub program: String,
    /// Where the package will be.
    pub rpm: String,
    /// All arguments. The last is the spec file.
    pub arguments: Vec<String>,
}

/// What is built is what was prepared: the last argument is the spec file.
pub proof fn lemma_prepared_spec_is_built(
    info: InfoView,
    build_root: Seq<char>,
    rpmdir: Option<Seq<char>>,
    options: Option<Seq<char>>,
)
    ensures
        build_arguments(info, build_root, rpmdir, options).last() == spec_file_name(info),
{
}

/// The directory that built packages go to, in the output of `rpm --showrc`.
pub fn find_rpmdir(showrc: &str) -> (r: Option<String>)
    ensures
        opt_text(r) == rpmdir_in(lines(showrc@)),
{
    let chars = to_chars(showrc);
    let all = lines_of(chars.as_slice());
    let ghost whole = texts(all@);
    assert(whole.skip(0) =~= whole);
    for i in 0..all.len()
        invariant
            whole == texts(all@),
            whole == lines(showrc@),
            rpmdir_in(whole) == rpmdir_in(whole.skip(i as int)),
    {
        let line = to_chars(all[i].as_str());
        assert(whole.skip(i as int)[0] == line@);
        if let Some(rest) = strip_prefix(line.as_slice(), "rpmdir") {
            return Some(from_chars(trim_start(strip_leading(trim_start(rest), ':'))));
        }
        assert(whole.skip(i as int).skip(1) =~= whole.skip(i + 1));
    }
    None
}

/// The complaint about a build that failed.
pub open spec fn failure_text(command: Seq<char>, log: Seq<char>) -> Seq<char> {
    "Package build failed. Here's the log of the command ("@ + command + "):\n"@ + log
}

/// The file that is installed, after the options that the user set, which are put
/// before it as a directory would be.
pub open spec fn installed_file(options: Option<Seq<u8>>, file_name: Seq<u8>) -> Seq<u8> {
    match options {
        Some(o) => joined(o, file_name, 47u8),
        None => file_name,
    }
}

/// What came of a build: the package, or the complaint with the command and
/// what it printed.
pub fn build_result(rpm: String, success: bool, command: &str, log: &str) -> (r: Result<
    String,
    String,
>)
    ensures
        success ==> (r matches Ok(path) && path@ == rpm@),
        !success ==> (r matches Err(e) && e@ == failure_text(command@, log@)),
{
    if success {
        Ok(rpm)
    } else {
        let mut e = "Package build failed. Here's the log of the command (".to_owned();
        e.append(command);
        e.append("):\n");
        e.append(log);
        Err(e)
    }
}

impl Rpm {
    /// How to build the package with a program, in the directory that it is
    /// unpacked in, given the build root, what `rpm --showrc` prints and the
    /// options that the user set.
    pub fn build_with(
        &self,
        program: &str,
        build_root: &str,
        showrc: &str,
        options: Option<&str>,
    ) -> (r: BuildPlan)
        ensures
            r.program@ == program@,
            r.rpm@ == package_path(self.info@, rpmdir_in(lines(showrc@))),
            texts(r.arguments@) == build_arguments(
                self.info@,
                build_root@,
                rpmdir_in(lines(showrc@)),
                match options {
                    Some(o) => Some(o@),
                    None => None,
                },
            ),
    {
        let info = &self.info;
        let mut name = info.name.clone();
        name.append("-");
        name.append(info.version.as_str());
        name.append("-");
        name.append(info.release.as_str());
        name.append(".");
        name.append(info.arch.as_str());
        name.append(".rpm");
        let mut arguments: Vec<String> = Vec::new();
        arguments.push("--buildroot".to_owned());
        arguments.push(build_root.to_owned());
        arguments.push("-bb".to_owned());
        let rpm = match find_rpmdir(showrc) {
            Some(dir) => {
                arguments.push("--buildarch".to_owned());
                let dir = join(dir.as_str(), info.arch.as_str());
                join(dir.as_str(), name.as_str())
            },
            None => {
                arguments.push("--target".to_owned());
                name
            },
        };
        arguments.push(info.arch.clone());
        let ghost first = texts(arguments@);
        if let Some(o) = options {
            let o = to_chars(o);
            let mut more = split_at(o.as_slice(), ' ');
            let ghost rest = texts(more@);
            arguments.append(&mut more);
            assert(texts(arguments@) =~= first + rest);
        }
        arguments.push(self.spec_file());
        assert(texts(arguments@) =~= build_arguments(
            self.info@,
            build_root@,
            rpmdir_in(lines(showrc@)),
            match options {
                Some(o) => Some(o@),
                None => None,
            },
        ));
        BuildPlan { program: program.to_owned(), rpm, arguments }
    }

    /// How to build the package.
    pub fn build(&self, build_root: &str, showrc: &str, options: Option<&str>) -> (r: BuildPlan)
        ensures
            r.program@ == "rpmbuild"@,
            r.rpm@ == package_path(self.info@, rpmdir_in(lines(showrc@))),
            texts(r.arguments@) == build_arguments(
                self.info@,
                build_root@,
                rpmdir_in(lines(showrc@)),
                match options {
                    Some(o) => Some(o@),
                    None => None,
                },
            ),
    {
        self.build_with("rpmbuild", build_root, showrc, options)
    }

    /// The arguments for the installation of a package file. The options that
    /// the user set are put before the file name as a directory would be.
    pub fn install(&self, file_name: &[u8], options: Option<&[u8]>) -> (r: (String, Vec<u8>))
        ensures
            r.0@ == "-ivh"@,
            r.1@ == installed_file(
                match options {
                    Some(o) => Some(o@),
                    None => None,
                },
                file_name@,
            ),
    {
        let file = match options {
            Some(o) => join_bytes(o, file_name),
            None => slice_to_vec(file_name),
        };
        ("-ivh".to_owned(), file)
    }
}

} // verus!
