//! What holds of maintainer scripts on their way out of and into RPM packages.
use vstd::prelude::*;

use crate::laws::text::{all_white, lemma_blank_start, lemma_trimmed_start, starts_visible};
use crate::outside::base64_text;
use crate::package::InfoView;
use crate::rpm::script::{
    carrier, for_bash, for_shell, has_interpreter, interpreter, is_blank, is_shell_script,
    with_bash,
};
use crate::rpm::{rpm_arch, rpm_sanitized};
use crate::text::{is_one_line, lemma_first_index, stands_in};

verus! {

/// Whether one text ends in another.
pub open spec fn ends_in(s: Seq<char>, end: Seq<char>) -> bool {
    end.len() <= s.len() && s.skip(s.len() - end.len()) == end
}

/// Whether one text starts with another.
pub open spec fn begins_with(s: Seq<char>, start: Seq<char>) -> bool {
    start.len() <= s.len() && s.take(start.len() as int) == start
}

/// Whether a script starts with `#!`.
pub open spec fn has_mark(s: Seq<char>) -> bool {
    s.len() >= 2 && s[0] == '#' && s[1] == '!'
}

proof fn lemma_mark(s: Seq<char>)
    ensures
        "#!"@.len() == 2,
        "#!"@ == seq!['#', '!'],
        "#!"@.is_prefix_of(s) == has_mark(s),
{
    reveal_strlit("#!");
    assert("#!"@ =~= seq!['#', '!']);
    if has_mark(s) {
        assert("#!"@ =~= s.subrange(0, 2));
    }
}

/// What comes of a script that does not start by naming an interpreter: it is
/// kept whole, at the end, under a line that calls for bash, and with nothing
/// else unless the package can be relocated.
pub proof fn lemma_unmarked_script(prefix: Seq<char>, script: Seq<char>)
    requires
        !has_mark(script),
    ensures
        for_bash(None, Some(script)) == "#!/bin/bash\n"@ + script,
        for_bash(None, None) == "#!/bin/bash\n"@,
        begins_with(for_bash(Some(prefix), Some(script)), "#!/bin/bash\n"@),
        begins_with(for_bash(Some(prefix), None), "#!/bin/bash\n"@),
        ends_in(for_bash(Some(prefix), Some(script)), script),
{
    lemma_mark(script);
    let bash = "#!/bin/bash\n"@;
    assert(for_bash(None, Some(script)) =~= bash + script);
    assert(for_bash(None, None) =~= bash);
    let whole = for_bash(Some(prefix), Some(script));
    assert(whole.skip(whole.len() - script.len()) =~= script);
    assert(whole.take(bash.len() as int) =~= bash);
    assert(for_bash(Some(prefix), None).take(bash.len() as int) =~= bash);
}

/// What is told of the prefix in such a script: nothing but an empty line, the
/// two lines that set it, and the end of the last.
pub proof fn lemma_prefix_in_unmarked_script(prefix: Seq<char>, script: Seq<char>)
    requires
        !has_mark(script),
    ensures
        ({
            let told = "#!/bin/bash\n"@ + "\nRPM_INSTALL_PREFIX="@ + prefix
                + "\nexport RPM_INSTALL_PREFIX"@;
            &&& for_bash(Some(prefix), None) == told
            &&& script.len() > 0 && script[0] != '\n' ==> for_bash(Some(prefix), Some(script))
                == told + seq!['\n'] + script
            &&& script.len() == 0 || script[0] == '\n' ==> for_bash(Some(prefix), Some(script))
                == told + script
        }),
{
    lemma_mark(script);
    let told = "#!/bin/bash\n"@ + "\nRPM_INSTALL_PREFIX="@ + prefix
        + "\nexport RPM_INSTALL_PREFIX"@;
    assert(for_bash(Some(prefix), None) =~= told);
    if script.len() > 0 && script[0] != '\n' {
        assert(for_bash(Some(prefix), Some(script)) =~= told + seq!['\n'] + script);
    } else {
        assert(for_bash(Some(prefix), Some(script)) =~= told + script);
    }
}

proof fn lemma_marked(blank: Seq<char>, path: Seq<char>)
    requires
        all_white(blank),
        path.len() > 0,
        path[0] == '/',
    ensures
        has_interpreter(seq!['#', '!'] + blank + path),
        interpreter(seq!['#', '!'] + blank + path) == path,
{
    let script = seq!['#', '!'] + blank + path;
    lemma_mark(script);
    assert(script.skip(2) =~= blank + path);
    lemma_trimmed_start(blank, path);
}

/// What comes of a script that names its interpreter: the shell becomes bash,
/// with whatever follows it kept, and any other interpreter stays.
pub proof fn lemma_marked_script(blank: Seq<char>, path: Seq<char>, tail: Seq<char>)
    requires
        all_white(blank),
        path.len() > 0,
        path[0] == '/',
    ensures
        path == "/bin/sh"@ + tail ==> for_bash(None, Some(seq!['#', '!'] + blank + path))
            == "#!/bin/bash"@ + tail,
        !begins_with(path, "/bin/sh"@) ==> for_bash(None, Some(seq!['#', '!'] + blank + path))
            == seq!['#', '!'] + path,
{
    let script = seq!['#', '!'] + blank + path;
    let sh = "/bin/sh"@;
    lemma_marked(blank, path);
    lemma_mark(script);
    assert(for_bash(None, Some(script)) =~= with_bash(script));
    if path == sh + tail {
        assert(sh =~= path.subrange(0, sh.len() as int));
        assert(path.skip(sh.len() as int) =~= tail);
        reveal_strlit("#!/bin/bash");
        reveal_strlit("/bin/bash");
        assert("#!/bin/bash"@ =~= seq!['#', '!'] + "/bin/bash"@);
        assert(with_bash(script) =~= "#!/bin/bash"@ + tail);
    }
    if !begins_with(path, sh) {
        if sh.is_prefix_of(path) {
            assert(path.take(sh.len() as int) =~= path.subrange(0, sh.len() as int));
        }
    }
}

/// A script whose mark is followed by no absolute path is put under a line that
/// calls for bash, whole.
pub proof fn lemma_marked_without_path(prefix: Seq<char>, blank: Seq<char>, rest: Seq<char>)
    requires
        all_white(blank),
        starts_visible(rest),
        rest.len() == 0 || rest[0] != '/',
    ensures
        for_bash(None, Some(seq!['#', '!'] + blank + rest)) == "#!/bin/bash\n"@ + (seq!['#', '!']
            + blank + rest),
        for_bash(Some(prefix), Some(seq!['#', '!'] + blank + rest)) == "#!/bin/bash\n"@
            + "\nRPM_INSTALL_PREFIX="@ + prefix + "\nexport RPM_INSTALL_PREFIX"@ + seq!['\n'] + (seq![
            '#',
            '!',
        ] + blank + rest),
{
    let script = seq!['#', '!'] + blank + rest;
    lemma_mark(script);
    assert(script.skip(2) =~= blank + rest);
    lemma_trimmed_start(blank, rest);
    assert(for_bash(None, Some(script)) =~= "#!/bin/bash\n"@ + script);
    assert(script[0] == '#');
    assert(for_bash(Some(prefix), Some(script)) =~= "#!/bin/bash\n"@ + "\nRPM_INSTALL_PREFIX="@
        + prefix + "\nexport RPM_INSTALL_PREFIX"@ + seq!['\n'] + script);
}

/// What is told of the prefix in a script that names its interpreter: two lines
/// that set it come between its first line and the rest, and everything else is
/// as it would be without. A script that is only a first line is told nothing.
pub proof fn lemma_prefix_in_marked_script(
    prefix: Seq<char>,
    blank: Seq<char>,
    line: Seq<char>,
    rest: Seq<char>,
)
    requires
        all_white(blank),
        line.len() > 0,
        line[0] == '/',
        is_one_line(line),
    ensures
        for_bash(Some(prefix), Some(seq!['#', '!'] + blank + (line + seq!['\n'] + rest)))
            == for_bash(None, Some(seq!['#', '!'] + blank + line)) + "\nRPM_INSTALL_PREFIX="@
            + prefix + "\nexport RPM_INSTALL_PREFIX"@ + seq!['\n'] + rest,
        for_bash(Some(prefix), Some(seq!['#', '!'] + blank + line)) == for_bash(
            None,
            Some(seq!['#', '!'] + blank + line),
        ),
{
    let path = line + seq!['\n'] + rest;
    let short = seq!['#', '!'] + blank + line;
    let script = seq!['#', '!'] + blank + path;
    let sh = "/bin/sh"@;
    lemma_marked(blank, line);
    lemma_marked(blank, path);
    lemma_mark(script);
    reveal_strlit("/bin/sh");
    reveal_strlit("/bin/bash");
    let base = with_bash(short);
    assert(sh.is_prefix_of(line) == sh.is_prefix_of(path)) by {
        if sh.is_prefix_of(line) {
            assert(sh =~= path.subrange(0, 7));
        }
        if sh.is_prefix_of(path) {
            assert forall|i: int| 0 <= i < 7 implies path[i] != '\n' by {
                assert(path[i] == sh[i]);
            }
            if line.len() < 7 {
                assert(path[line.len() as int] == '\n');
            }
            assert(sh =~= line.subrange(0, 7)) by {
                assert forall|i: int| 0 <= i < 7 implies sh[i] == line[i] by {
                    assert(path[i] == line[i]);
                }
            }
        }
    }
    assert(is_one_line(base)) by {
        if sh.is_prefix_of(line) {
            let tail = line.skip(7);
            assert forall|i: int| 0 <= i < base.len() implies #[trigger] base[i] != '\n' by {
                if i >= 11 {
                    assert(base[i] == tail[i - 11]);
                    assert(tail[i - 11] == line[i - 11 + 7]);
                }
            }
        }
    }
    assert(with_bash(script) =~= base + seq!['\n'] + rest) by {
        if sh.is_prefix_of(line) {
            assert(path.skip(7) =~= line.skip(7) + seq!['\n'] + rest);
        }
    }
    let n = base.len() as int;
    let whole = with_bash(script);
    assert(whole[n] == '\n');
    assert forall|j: int| 0 <= j < n implies whole[j] != '\n' by {
        assert(whole[j] == base[j]);
    }
    lemma_first_index(whole, '\n', n);
    lemma_first_index(base, '\n', n);
    assert(whole.take(n) =~= base);
    assert(whole.skip(n) =~= seq!['\n'] + rest);
    assert(for_bash(None, Some(short)) =~= base);
    assert(for_bash(Some(prefix), Some(script)) =~= base + "\nRPM_INSTALL_PREFIX="@ + prefix
        + "\nexport RPM_INSTALL_PREFIX"@ + seq!['\n'] + rest);
}

/// Whether a script calls for the shell in so many words: a mark, white space, and
/// the path of the shell.
pub open spec fn calls_shell(s: Seq<char>) -> bool {
    has_mark(s) && exists|n: int|
        2 <= n && n + 7 <= s.len() && all_white(s.subrange(2, n)) && #[trigger] s.subrange(n, n + 7)
            == seq!['/', 'b', 'i', 'n', '/', 's', 'h']
}

proof fn lemma_calls_shell(s: Seq<char>)
    ensures
        is_shell_script(s) == calls_shell(s),
{
    let sh = seq!['/', 'b', 'i', 'n', '/', 's', 'h'];
    reveal_strlit("/bin/sh");
    assert("/bin/sh"@ =~= sh);
    lemma_mark(s);
    if has_mark(s) {
        let rest = s.skip(2);
        let k = lemma_blank_start(rest);
        if sh.is_prefix_of(interpreter(s)) {
            let n = k + 2;
            assert(s.subrange(2, n) =~= rest.take(k));
            assert(s.subrange(n, n + 7) =~= interpreter(s).subrange(0, 7));
            assert(calls_shell(s));
        }
        if calls_shell(s) {
            let n = choose|n: int|
                2 <= n && n + 7 <= s.len() && all_white(s.subrange(2, n)) && #[trigger] s.subrange(
                    n,
                    n + 7,
                ) == sh;
            let path = s.skip(n);
            assert(rest =~= s.subrange(2, n) + path);
            assert(path[0] == s.subrange(n, n + 7)[0]);
            lemma_trimmed_start(s.subrange(2, n), path);
            assert(sh =~= path.subrange(0, 7));
        }
    }
}

/// A script that carries another calls for the shell, and has what it carries
/// between quotes. Nothing else in it depends on what it carries.
pub proof fn lemma_carrier(a: Seq<char>, b: Seq<char>)
    ensures
        calls_shell(carrier(a)),
        stands_in(seq!['\''] + a + seq!['\''], carrier(a)),
        exists|n: int|
            0 <= n <= carrier(b).len() - b.len() && carrier(a) == #[trigger] carrier(b).take(n) + a
                + carrier(b).skip(n + b.len()),
{
    let head = crate::rpm::script::wrapper_head();
    let tail = crate::rpm::script::wrapper_tail();
    reveal_strlit("#!/bin/sh\nset -e\nmkdir /tmp/alien.$$\necho '");
    reveal_strlit(
        "' | base64 -d > /tmp/alien.$$/script\nchmod 755 /tmp/alien.$$/script\n/tmp/alien.$$/script \"$@\"\nrm -f /tmp/alien.$$/script\nrmdir /tmp/alien.$$\n",
    );
    let whole = carrier(a);
    let n = head.len() as int;
    assert(forall|i: int| 0 <= i < n ==> whole[i] == head[i]);
    assert(whole.subrange(2, 2int + 7) =~= seq!['/', 'b', 'i', 'n', '/', 's', 'h']);
    assert(all_white(whole.subrange(2, 2)));
    let quoted = seq!['\''] + a + seq!['\''];
    assert(head.last() == '\'' && tail[0] == '\'');
    assert(whole.subrange(n - 1, n - 1 + quoted.len()) =~= quoted);
    assert(carrier(b).take(n) =~= head);
    assert(carrier(b).skip(n + b.len()) =~= tail);
}

/// Every script that is not blank comes out calling for the shell, and a script
/// comes out as it was exactly if it is blank or called for the shell already.
/// What had to be carried stands in what carries it.
pub proof fn lemma_made_for_shell(script: Seq<char>)
    ensures
        !all_white(script) ==> calls_shell(for_shell(script)),
        for_shell(script) == script <==> all_white(script) || calls_shell(script),
        !all_white(script) && !calls_shell(script) ==> stands_in(
            seq!['\''] + base64_text(script) + seq!['\''],
            for_shell(script),
        ),
{
    lemma_calls_shell(script);
    assert(is_blank(script) == all_white(script));
    lemma_carrier(base64_text(script), base64_text(script));
}

/// Whether one script is another made fit for the shell.
pub open spec fn is_made_for_shell(before: Option<Seq<char>>, after: Option<Seq<char>>) -> bool {
    match (before, after) {
        (None, None) => true,
        (Some(s), Some(r)) => if all_white(s) || calls_shell(s) {
            r == s
        } else {
            calls_shell(r) && stands_in(seq!['\''] + base64_text(s) + seq!['\''], r)
        },
        _ => false,
    }
}

/// What is made of a package to be fit for RPM: a version of the same length,
/// with an underscore for every hyphen, every script fit for the shell, each in
/// its own place, another name for the architecture, and nothing else.
pub proof fn lemma_made_fit_for_rpm(info: InfoView)
    ensures
        ({
            let r = rpm_sanitized(info);
            &&& r.version.len() == info.version.len()
            &&& forall|i: int|
                0 <= i < info.version.len() ==> #[trigger] r.version[i] == (if info.version[i]
                    == '-' {
                    '_'
                } else {
                    info.version[i]
                })
            &&& r.arch == rpm_arch(info.arch)
            &&& is_made_for_shell(info.preinst, r.preinst)
            &&& is_made_for_shell(info.postinst, r.postinst)
            &&& is_made_for_shell(info.prerm, r.prerm)
            &&& is_made_for_shell(info.postrm, r.postrm)
            &&& r == InfoView {
                version: r.version,
                preinst: r.preinst,
                postinst: r.postinst,
                prerm: r.prerm,
                postrm: r.postrm,
                arch: r.arch,
                ..info
            }
        }),
{
    reveal_strlit("_");
    assert("_"@ =~= seq!['_']);
    crate::laws::text::lemma_replaced_one_for_one(info.version, '-', '_');
    if let Some(s) = info.preinst {
        lemma_made_for_shell(s);
    }
    if let Some(s) = info.postinst {
        lemma_made_for_shell(s);
    }
    if let Some(s) = info.prerm {
        lemma_made_for_shell(s);
    }
    if let Some(s) = info.postrm {
        lemma_made_for_shell(s);
    }
}

} // verus!
