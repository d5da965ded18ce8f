//! Maintainer scripts on their way out of and into RPM packages.
use vstd::prelude::*;
use vstd::slice::slice_subrange;
use vstd::utf8::encode_utf8;

use crate::outside::{base64_encode, base64_len, base64_text, is_base64_char};
use crate::text::{
    append_chars, find, first_index, from_chars, is_one_line, is_white, lemma_first_index,
    lemma_first_index_is, lemma_lines_after, lemma_single_line, lines, opt_text, starts_with,
    strip_prefix, to_chars, trim_start, trimmed_start, white,
};

verus! {

/// The lines that tell the scripts of a relocatable package where it was
/// installed, in place of `rpm`, which would do so at run time.
pub open spec fn prefix_code(prefixes: Option<Seq<char>>) -> Seq<char> {
    match prefixes {
        Some(p) => "\nRPM_INSTALL_PREFIX="@ + p + "\nexport RPM_INSTALL_PREFIX"@,
        None => seq![],
    }
}

/// What ends those lines before a script: a line feed, unless the script, if
/// there is anything in it, starts with one.
pub open spec fn prefix_end(prefixes: Option<Seq<char>>, script: Seq<char>) -> Seq<char> {
    if prefixes is Some && script.len() > 0 && script[0] != '\n' {
        seq!['\n']
    } else {
        seq![]
    }
}

/// A script under a line that calls for bash.
pub open spec fn under_bash(prefixes: Option<Seq<char>>, script: Seq<char>) -> Seq<char> {
    "#!/bin/bash\n"@ + prefix_code(prefixes) + prefix_end(prefixes, script) + script
}

/// What follows `#!` and white space at the start of a script.
pub open spec fn interpreter(script: Seq<char>) -> Seq<char> {
    trimmed_start(script.skip("#!"@.len() as int))
}

/// Whether a script names its interpreter by an absolute path.
pub open spec fn has_interpreter(script: Seq<char>) -> bool {
    "#!"@.is_prefix_of(script) && interpreter(script).len() > 0 && interpreter(script)[0] == '/'
}

/// `s` with `code` at the end of its first line, if that line ends at all.
pub open spec fn after_first_line(s: Seq<char>, code: Seq<char>) -> Seq<char> {
    let end = first_index(s, '\n') as int;
    if end < s.len() {
        s.take(end) + code + s.skip(end)
    } else {
        s
    }
}

/// A script that names its interpreter, with bash for the shell.
pub open spec fn with_bash(script: Seq<char>) -> Seq<char> {
    let t = interpreter(script);
    "#!"@ + (if "/bin/sh"@.is_prefix_of(t) {
        "/bin/bash"@ + t.skip("/bin/sh"@.len() as int)
    } else {
        t
    })
}

/// A maintainer script of an RPM package as `dpkg` can run it. A script that
/// names no interpreter gets a line that calls for bash, and one that calls
/// for the shell is run by bash, on which it may rely. Any other interpreter
/// stays. Where the package was installed, if it can be relocated, is told
/// after the first line.
pub open spec fn for_bash(prefixes: Option<Seq<char>>, script: Option<Seq<char>>) -> Seq<char> {
    match script {
        Some(s) if has_interpreter(s) => after_first_line(with_bash(s), prefix_code(prefixes)),
        Some(s) => under_bash(prefixes, s),
        None => under_bash(prefixes, seq![]),
    }
}

/// A maintainer script of an RPM package as `dpkg` can run it.
pub fn sanitize_script(prefixes: &Option<String>, script: Option<String>) -> (r: Option<String>)
    ensures
        r is Some,
        opt_text(r) == Some(for_bash(opt_text(*prefixes), opt_text(script))),
{
    let mut code = String::new();
    if let Some(p) = prefixes {
        code = "\nRPM_INSTALL_PREFIX=".to_owned();
        code.append(p.as_str());
        code.append("\nexport RPM_INSTALL_PREFIX");
    }
    assert(code@ =~= prefix_code(opt_text(*prefixes)));
    if let Some(s) = &script {
        let chars = to_chars(s.as_str());
        if let Some(t) = strip_prefix(chars.as_slice(), "#!") {
            let t = trim_start(t);
            if t.len() > 0 && t[0] == '/' {
                let mut u = "#!".to_owned();
                match strip_prefix(t, "/bin/sh") {
                    Some(rest) => {
                        u.append("/bin/bash");
                        append_chars(&mut u, rest);
                    },
                    None => append_chars(&mut u, t),
                }
                assert(u@ =~= with_bash(s@));
                let u_chars = to_chars(u.as_str());
                let end = find(u_chars.as_slice(), '\n');
                if end < u_chars.len() {
                    let mut r = from_chars(slice_subrange(u_chars.as_slice(), 0, end));
                    r.append(code.as_str());
                    append_chars(
                        &mut r,
                        slice_subrange(u_chars.as_slice(), end, u_chars.len()),
                    );
                    return Some(r);
                }
                return Some(u);
            }
        }
    }
    let mut r = "#!/bin/bash\n".to_owned();
    r.append(code.as_str());
    if let Some(s) = &script {
        let chars = to_chars(s.as_str());
        if prefixes.is_some() && chars.len() > 0 && chars[0] != '\n' {
            r.push('\n');
        }
        r.append(s.as_str());
    }
    assert(r@ =~= for_bash(opt_text(*prefixes), opt_text(script)));
    Some(r)
}

/// Whether a script has nothing in it but white space.
pub open spec fn is_blank(script: Seq<char>) -> bool {
    forall|i: int| 0 <= i < script.len() ==> is_white(#[trigger] script[i])
}

/// Whether a script is run by the shell as it is.
pub open spec fn is_shell_script(script: Seq<char>) -> bool {
    "#!"@.is_prefix_of(script) && "/bin/sh"@.is_prefix_of(interpreter(script))
}

/// The part of a wrapped script before what it carries.
pub open spec fn wrapper_head() -> Seq<char> {
    "#!/bin/sh\nset -e\nmkdir /tmp/alien.$$\necho '"@
}

/// The part of a wrapped script after what it carries.
pub open spec fn wrapper_tail() -> Seq<char> {
    "' | base64 -d > /tmp/alien.$$/script\nchmod 755 /tmp/alien.$$/script\n/tmp/alien.$$/script \"$@\"\nrm -f /tmp/alien.$$/script\nrmdir /tmp/alien.$$\n"@
}

/// The shell script that carries another, given its encoding.
pub open spec fn carrier(encoded: Seq<char>) -> Seq<char> {
    wrapper_head() + encoded + wrapper_tail()
}

/// Whether a script has to be carried by another.
pub open spec fn is_carried(script: Seq<char>) -> bool {
    !is_blank(script) && !is_shell_script(script)
}

/// A maintainer script as `rpm` can run it. It runs shell scripts only, so any
/// other script is carried, encoded, by a shell script that unpacks and runs it.
pub open spec fn for_shell(script: Seq<char>) -> Seq<char> {
    if is_carried(script) {
        carrier(base64_text(script))
    } else {
        script
    }
}

/// The same for a script that may be missing.
pub open spec fn opt_for_shell(script: Option<Seq<char>>) -> Option<Seq<char>> {
    match script {
        Some(s) => Some(for_shell(s)),
        None => None,
    }
}

/// Whether a script can be carried by another: its encoding fits into memory.
pub open spec fn encodable(script: Option<String>) -> bool {
    script matches Some(s) ==> base64_len(encode_utf8(s@).len()) <= isize::MAX
}

/// Whether a script can be carried by another.
pub fn fits_encoded(script: &Option<String>) -> (r: bool)
    ensures
        r == encodable(*script),
{
    match script {
        Some(s) => {
            let n = s.as_str().as_bytes().len();
            n <= usize::MAX - 2 && (n + 2) / 3 <= isize::MAX as usize / 4
        },
        None => true,
    }
}

/// Whether what a wrapped script carries is carried safely: there is no quote
/// in it that would end it early, and it stands for no other script.
pub open spec fn carried_safely(script: Seq<char>) -> bool {
    &&& forall|i: int|
        0 <= i < base64_text(script).len() ==> is_base64_char(#[trigger] base64_text(script)[i])
    &&& forall|other: Seq<char>| #[trigger]
        base64_text(other) == base64_text(script) ==> other == script
}

/// The shell script that carries another, given its encoding.
pub fn carrier_of(encoded: &str) -> (r: String)
    ensures
        r@ == carrier(encoded@),
{
    let mut r = "#!/bin/sh\nset -e\nmkdir /tmp/alien.$$\necho '".to_owned();
    r.append(encoded);
    r.append(
        "' | base64 -d > /tmp/alien.$$/script\nchmod 755 /tmp/alien.$$/script\n/tmp/alien.$$/script \"$@\"\nrm -f /tmp/alien.$$/script\nrmdir /tmp/alien.$$\n",
    );
    r
}

/// Turns a maintainer script into one that `rpm` can run. Nothing of a script
/// that another has to carry is lost.
pub fn script_helper(script: &mut Option<String>)
    requires
        encodable(*old(script)),
    ensures
        opt_text(*final(script)) == opt_for_shell(opt_text(*old(script))),
        opt_text(*old(script)) matches Some(s) ==> is_carried(s) ==> carried_safely(s),
{
    let patched = match script {
        None => {
            return ;
        },
        Some(s) => {
            let chars = to_chars(s.as_str());
            let mut blank = true;
            for i in 0..chars.len()
                invariant
                    blank == forall|j: int| 0 <= j < i ==> is_white(#[trigger] chars@[j]),
            {
                if !white(chars[i]) {
                    blank = false;
                }
            }
            if blank {
                return ;
            }
            if let Some(t) = strip_prefix(chars.as_slice(), "#!") {
                let t = trim_start(t);
                let sh = to_chars("/bin/sh");
                if starts_with(t, sh.as_slice()) {
                    return ;
                }
            }
            let encoded = base64_encode(s.as_str());
            carrier_of(encoded.as_str())
        },
    };
    *script = Some(patched);
}

/// Every script starts by naming an interpreter.
pub proof fn lemma_names_interpreter(prefixes: Option<Seq<char>>, script: Option<Seq<char>>)
    ensures
        "#!"@.is_prefix_of(for_bash(prefixes, script)),
{
    reveal_strlit("#!");
    reveal_strlit("#!/bin/bash\n");
    let whole = for_bash(prefixes, script);
    if let Some(s) = script {
        if has_interpreter(s) {
            let t = with_bash(s);
            assert(t[0] == '#' && t[1] == '!');
            lemma_first_index_is(t, '\n');
        }
    }
    assert("#!"@ =~= whole.subrange(0, 2));
}

/// A script that names its interpreter, other than the shell, goes on being run
/// by it: nothing but the white space before its name is lost.
pub proof fn lemma_interpreter_stays(script: Seq<char>)
    requires
        has_interpreter(script),
        !"/bin/sh"@.is_prefix_of(interpreter(script)),
    ensures
        for_bash(None, Some(script)) == "#!"@ + interpreter(script),
{
    assert(for_bash(None, Some(script)) =~= with_bash(script));
}

/// Two lines after the first line of a text are two more lines.
proof fn lemma_two_lines_added(s: Seq<char>, a: Seq<char>, b: Seq<char>)
    requires
        first_index(s, '\n') < s.len(),
        is_one_line(a),
        is_one_line(b),
        a.len() > 0 ==> a.last() != '\r',
        b.len() > 0 ==> b.last() != '\r',
    ensures
        lines(after_first_line(s, seq!['\n'] + a + seq!['\n'] + b)) == lines(s).take(1) + seq![
            a,
            b,
        ] + lines(s).skip(1),
{
    let code = seq!['\n'] + a + seq!['\n'] + b;
    let whole = after_first_line(s, code);
    let end = first_index(s, '\n') as int;
    let rest = s.skip(end + 1);
    lemma_first_index_is(s, '\n');
    assert(whole[end] == '\n');
    assert forall|j: int| 0 <= j < end implies whole[j] != '\n' by {
        assert(whole[j] == s[j]);
    }
    lemma_first_index(whole, '\n', end);
    assert(whole.take(end) =~= s.take(end));
    assert(whole.skip(end + 1) =~= a + seq!['\n'] + (b + seq!['\n'] + rest));
    lemma_lines_after(a, b + seq!['\n'] + rest);
    lemma_lines_after(b, rest);
    assert(lines(whole) =~= lines(s).take(1) + seq![a, b] + lines(s).skip(1));
}

/// The lines that set the prefix are lines.
proof fn lemma_prefix_lines(prefix: Seq<char>)
    requires
        is_one_line(prefix),
        prefix.len() > 0 ==> prefix.last() != '\r',
    ensures
        ({
            let first = "RPM_INSTALL_PREFIX="@ + prefix;
            let second = "export RPM_INSTALL_PREFIX"@;
            &&& is_one_line(first) && first.len() > 0 && first.last() != '\r'
            &&& is_one_line(second) && second.len() > 0 && second.last() != '\r'
            &&& prefix_code(Some(prefix)) == seq!['\n'] + first + seq!['\n'] + second
        }),
{
    reveal_strlit("RPM_INSTALL_PREFIX=");
    reveal_strlit("\nRPM_INSTALL_PREFIX=");
    reveal_strlit("export RPM_INSTALL_PREFIX");
    reveal_strlit("\nexport RPM_INSTALL_PREFIX");
    let first = "RPM_INSTALL_PREFIX="@ + prefix;
    let second = "export RPM_INSTALL_PREFIX"@;
    assert("\nRPM_INSTALL_PREFIX="@ =~= seq!['\n'] + "RPM_INSTALL_PREFIX="@);
    assert("\nexport RPM_INSTALL_PREFIX"@ =~= seq!['\n'] + second);
    assert(prefix_code(Some(prefix)) =~= seq!['\n'] + first + seq!['\n'] + second);
}

/// The scripts of a relocatable package that name their interpreter say where
/// it was installed: two lines that set the prefix follow the first line, and
/// all other lines are as they would be without. The exception is a script that
/// is nothing but a first line that does not end, and so has nothing to tell.
pub proof fn lemma_prefix_is_set(prefix: Seq<char>, script: Seq<char>)
    requires
        is_one_line(prefix),
        prefix.len() > 0 ==> prefix.last() != '\r',
        has_interpreter(script),
        !is_one_line(with_bash(script)),
    ensures
        lines(for_bash(Some(prefix), Some(script))) == lines(with_bash(script)).take(1) + seq![
            "RPM_INSTALL_PREFIX="@ + prefix,
            "export RPM_INSTALL_PREFIX"@,
        ] + lines(with_bash(script)).skip(1),
{
    lemma_prefix_lines(prefix);
    lemma_first_index_is(with_bash(script), '\n');
    lemma_two_lines_added(
        with_bash(script),
        "RPM_INSTALL_PREFIX="@ + prefix,
        "export RPM_INSTALL_PREFIX"@,
    );
}

/// `s` without the line feed that it may start with.
pub open spec fn without_first_feed(s: Seq<char>) -> Seq<char> {
    if s.len() > 0 && s[0] == '\n' {
        s.skip(1)
    } else {
        s
    }
}

/// The other scripts of a relocatable package say so too: an empty line and two
/// lines that set the prefix follow the line that calls for bash, and the lines
/// of the script follow them. A line feed that the script starts with ends the
/// last of them.
pub proof fn lemma_prefix_is_set_under_bash(prefix: Seq<char>, script: Seq<char>)
    requires
        is_one_line(prefix),
        prefix.len() > 0 ==> prefix.last() != '\r',
    ensures
        lines(under_bash(Some(prefix), script)) == seq![
            "#!/bin/bash"@,
            seq![],
            "RPM_INSTALL_PREFIX="@ + prefix,
            "export RPM_INSTALL_PREFIX"@,
        ] + lines(without_first_feed(script)),
{
    let bash = "#!/bin/bash"@;
    let none = Seq::<char>::empty();
    let first = "RPM_INSTALL_PREFIX="@ + prefix;
    let second = "export RPM_INSTALL_PREFIX"@;
    let rest = without_first_feed(script);
    let last = second + prefix_end(Some(prefix), script) + script;
    let whole = under_bash(Some(prefix), script);
    lemma_prefix_lines(prefix);
    assert("#!/bin/bash\n"@ =~= bash + seq!['\n'] && is_one_line(bash) && bash.last() != '\r')
        by {
        reveal_strlit("#!/bin/bash");
        reveal_strlit("#!/bin/bash\n");
    }
    let tail = first + seq!['\n'] + last;
    assert(whole =~= bash + seq!['\n'] + (none + seq!['\n'] + tail));
    lemma_lines_after(bash, none + seq!['\n'] + tail);
    lemma_lines_after(none, tail);
    lemma_lines_after(first, last);
    if script.len() == 0 {
        assert(last =~= second);
        lemma_single_line(second);
        assert(lines(rest) =~= seq![]);
    } else {
        assert(last =~= second + seq!['\n'] + rest);
        lemma_lines_after(second, rest);
    }
    assert(lines(whole) =~= seq![bash, none, first, second] + lines(rest));
}

/// A script that names no interpreter, or the shell, is run by bash.
pub proof fn lemma_run_by_bash(prefixes: Option<Seq<char>>, script: Option<Seq<char>>)
    requires
        script matches Some(s) ==> !has_interpreter(s) || "/bin/sh"@.is_prefix_of(interpreter(s)),
    ensures
        "#!/bin/bash"@.is_prefix_of(for_bash(prefixes, script)),
{
    reveal_strlit("#!");
    reveal_strlit("/bin/bash");
    reveal_strlit("#!/bin/bash");
    reveal_strlit("#!/bin/bash\n");
    let bash = "#!/bin/bash"@;
    let whole = for_bash(prefixes, script);
    if let Some(s) = script {
        if has_interpreter(s) {
            let t = with_bash(s);
            assert("#!"@ + "/bin/bash"@ =~= bash);
            assert(forall|i: int| 0 <= i < bash.len() ==> t[i] == bash[i]);
            assert(forall|i: int| 0 <= i < bash.len() ==> bash[i] != '\n');
            lemma_first_index_is(t, '\n');
            assert(first_index(t, '\n') >= bash.len());
        }
    }
    assert(bash =~= whole.subrange(0, bash.len() as int));
}

/// A script that `rpm` can run stays as it is: doing the same again changes
/// nothing.
pub proof fn lemma_for_shell_idempotent(script: Seq<char>)
    ensures
        for_shell(for_shell(script)) == for_shell(script),
{
    if is_carried(script) {
        let wrapped = for_shell(script);
        reveal_strlit("#!");
        reveal_strlit("/bin/sh");
        reveal_strlit("#!/bin/sh\nset -e\nmkdir /tmp/alien.$$\necho '");
        let head = wrapper_head();
        assert(wrapped.len() >= head.len());
        assert(forall|i: int| 0 <= i < head.len() ==> wrapped[i] == head[i]);
        assert("#!"@ =~= wrapped.subrange(0, 2));
        let rest = wrapped.skip(2);
        assert(rest[0] == '/');
        assert(interpreter(wrapped) == rest);
        assert("/bin/sh"@ =~= rest.subrange(0, 7));
    }
}

/// What a wrapped script carries can be read back out of it: the result for a
/// script that is carried determines the script.
pub proof fn lemma_carried_script_recovered(script: Seq<char>, other: Seq<char>)
    requires
        is_carried(script),
        is_carried(other),
        carried_safely(script),
        for_shell(script) == for_shell(other),
    ensures
        script == other,
{
    let n = wrapper_head().len() as int;
    let end = for_shell(script).len() - wrapper_tail().len();
    assert(for_shell(script).subrange(n, end) =~= base64_text(script));
    assert(for_shell(other).subrange(n, end) =~= base64_text(other));
}

} // verus!
