//! Text: the string operations the conversions are made of, over sequences of
//! characters.
use vstd::prelude::*;
use vstd::slice::slice_subrange;

verus! {

/// The texts that a sequence of strings holds.
pub open spec fn texts(v: Seq<String>) -> Seq<Seq<char>> {
    Seq::new(v.len(), |i: int| v[i]@)
}

/// The text that an optional string holds.
pub open spec fn opt_text(s: Option<String>) -> Option<Seq<char>> {
    match s {
        Some(t) => Some(t@),
        None => None,
    }
}

/// The characters with the Unicode property `White_Space`.
pub open spec fn is_white(c: char) -> bool {
    ||| '\u{9}' <= c <= '\u{d}'
    ||| c == ' '
    ||| c == '\u{85}'
    ||| c == '\u{a0}'
    ||| c == '\u{1680}'
    ||| '\u{2000}' <= c <= '\u{200a}'
    ||| c == '\u{2028}'
    ||| c == '\u{2029}'
    ||| c == '\u{202f}'
    ||| c == '\u{205f}'
    ||| c == '\u{3000}'
}

/// `s` without its leading white space.
pub open spec fn trimmed_start(s: Seq<char>) -> Seq<char>
    decreases s.len(),
{
    if s.len() > 0 && is_white(s[0]) {
        trimmed_start(s.skip(1))
    } else {
        s
    }
}

/// `s` without its trailing white space.
pub open spec fn trimmed_end(s: Seq<char>) -> Seq<char>
    decreases s.len(),
{
    if s.len() > 0 && is_white(s.last()) {
        trimmed_end(s.drop_last())
    } else {
        s
    }
}

/// `s` without white space at either end.
pub open spec fn trimmed(s: Seq<char>) -> Seq<char> {
    trimmed_end(trimmed_start(s))
}

/// `s` up to the first white space in it.
pub open spec fn first_word(s: Seq<char>) -> Seq<char>
    decreases s.len(),
{
    if s.len() == 0 || is_white(s[0]) {
        seq![]
    } else {
        seq![s[0]] + first_word(s.skip(1))
    }
}

/// `s` without the copies of `c` that it starts with.
pub open spec fn without_leading(s: Seq<char>, c: char) -> Seq<char>
    decreases s.len(),
{
    if s.len() > 0 && s[0] == c {
        without_leading(s.skip(1), c)
    } else {
        s
    }
}

/// The position of the first `c` in `s`, or the length of `s` if there is none.
pub open spec fn first_index<T>(s: Seq<T>, c: T) -> nat
    decreases s.len(),
{
    if s.len() == 0 || s[0] == c {
        0
    } else {
        1 + first_index(s.skip(1), c)
    }
}

/// A line without the carriage return it may end in.
pub open spec fn without_cr(s: Seq<char>) -> Seq<char> {
    if s.len() > 0 && s.last() == '\r' {
        s.drop_last()
    } else {
        s
    }
}

/// The lines of `s`. A line ends at a line feed or at a carriage return and a
/// line feed, and neither belongs to it; the last line need not end in one.
pub open spec fn lines(s: Seq<char>) -> Seq<Seq<char>>
    decreases s.len(),
{
    let n = first_index(s, '\n') as int;
    if s.len() == 0 {
        seq![]
    } else if n >= s.len() {
        seq![s]
    } else {
        seq![without_cr(s.take(n))] + lines(s.skip(n + 1))
    }
}

/// The pieces of `s` between the separators.
pub open spec fn split<T>(s: Seq<T>, sep: T) -> Seq<Seq<T>>
    decreases s.len(),
{
    let n = first_index(s, sep) as int;
    if n >= s.len() {
        seq![s]
    } else {
        seq![s.take(n)] + split(s.skip(n + 1), sep)
    }
}

/// `s` with every `c` replaced by `with`.
pub open spec fn replaced(s: Seq<char>, c: char, with: Seq<char>) -> Seq<char>
    decreases s.len(),
{
    if s.len() == 0 {
        seq![]
    } else {
        replaced(s.drop_last(), c, with) + (if s.last() == c {
            with
        } else {
            seq![s.last()]
        })
    }
}

/// Where `pattern` first occurs in `s`.
pub open spec fn first_match(s: Seq<char>, pattern: Seq<char>) -> Option<nat>
    decreases s.len(),
{
    if pattern.is_prefix_of(s) {
        Some(0)
    } else if s.len() == 0 {
        None
    } else {
        match first_match(s.skip(1), pattern) {
            Some(i) => Some(i + 1),
            None => None,
        }
    }
}

/// Whether there is no line feed in a text.
pub open spec fn is_one_line(s: Seq<char>) -> bool {
    forall|i: int| 0 <= i < s.len() ==> #[trigger] s[i] != '\n'
}

/// Whether one text stands in another.
pub open spec fn stands_in(part: Seq<char>, whole: Seq<char>) -> bool {
    exists|i: int|
        0 <= i && i + part.len() <= whole.len() && #[trigger] whole.subrange(
            i,
            i + part.len(),
        ) == part
}

/// The decimal digit with the value `d`.
pub open spec fn digit(d: nat) -> char {
    (48 + d) as char
}

/// `n` in decimal.
pub open spec fn decimal(n: nat) -> Seq<char>
    decreases n,
{
    if n < 10 {
        seq![digit(n)]
    } else {
        decimal(n / 10).push(digit(n % 10))
    }
}

/// The ASCII letter in lower case; any other character as it is.
pub open spec fn ascii_lower(c: char) -> char {
    if 'A' <= c <= 'Z' {
        (c as u8 + 32) as char
    } else {
        c
    }
}

/// Whether two texts differ at most in the case of ASCII letters.
pub open spec fn same_ignoring_case(a: Seq<char>, b: Seq<char>) -> bool {
    a.len() == b.len() && forall|i: int|
        0 <= i < a.len() ==> ascii_lower(#[trigger] a[i]) == ascii_lower(b[i])
}

pub open spec fn is_digit(c: char) -> bool {
    '0' <= c <= '9'
}

/// The number that a row of decimal digits stands for.
pub open spec fn number(s: Seq<char>) -> nat
    decreases s.len(),
{
    if s.len() == 0 {
        0
    } else {
        10 * number(s.drop_last()) + (s.last() as nat - 48) as nat
    }
}

/// `s` without the plus sign it may start with.
pub open spec fn without_plus(s: Seq<char>) -> Seq<char> {
    if s.len() > 0 && s[0] == '+' {
        s.skip(1)
    } else {
        s
    }
}

pub open spec fn all_digits(s: Seq<char>) -> bool {
    forall|i: int| 0 <= i < s.len() ==> is_digit(#[trigger] s[i])
}

/// What `s` means as a 32-bit unsigned number: digits, after a plus sign at
/// most, with a value that fits. Anything else is no such number.
pub open spec fn u32_value(s: Seq<char>) -> Option<u32> {
    let digits = without_plus(s);
    if digits.len() > 0 && all_digits(digits) && number(digits) <= u32::MAX {
        Some(number(digits) as u32)
    } else {
        None
    }
}

/// The characters of `s`, one by one.
pub(crate) fn to_chars(s: &str) -> (r: Vec<char>)
    ensures
        r@ == s@,
{
    let mut r: Vec<char> = Vec::new();
    for c in it: s.chars()
        invariant
            r@ == it.seq().take(it.index() as int),
            it.seq() == s@,
    {
        r.push(c);
    }
    r
}

/// The string made of the given characters.
pub(crate) fn from_chars(v: &[char]) -> (r: String)
    ensures
        r@ == v@,
{
    let mut r = String::new();
    for i in 0..v.len()
        invariant
            r@ == v@.take(i as int),
    {
        r.push(v[i]);
    }
    r
}

/// Whether two strings hold the same text.
pub(crate) fn same(a: &str, b: &str) -> (r: bool)
    ensures
        r == (a@ == b@),
{
    let x = to_chars(a);
    let y = to_chars(b);
    if x.len() != y.len() {
        return false;
    }
    for i in 0..x.len()
        invariant
            x.len() == y.len(),
            x@ == a@,
            y@ == b@,
            forall|j: int| 0 <= j < i ==> x[j] == y[j],
    {
        if x[i] != y[i] {
            return false;
        }
    }
    assert(a@ =~= b@);
    true
}

/// Whether `c` has the Unicode property `White_Space`.
pub(crate) fn white(c: char) -> (r: bool)
    ensures
        r == is_white(c),
{
    ('\u{9}' <= c && c <= '\u{d}') || c == ' ' || c == '\u{85}' || c == '\u{a0}' || c == '\u{1680}'
        || ('\u{2000}' <= c && c <= '\u{200a}') || c == '\u{2028}' || c == '\u{2029}' || c
        == '\u{202f}' || c == '\u{205f}' || c == '\u{3000}'
}

/// `s` without its leading white space.
pub(crate) fn trim_start(s: &[char]) -> (r: &[char])
    ensures
        r@ == trimmed_start(s@),
{
    let mut i: usize = 0;
    assert(s@.skip(0) =~= s@);
    while i < s.len() && white(s[i])
        invariant
            i <= s.len(),
            trimmed_start(s@) == trimmed_start(s@.skip(i as int)),
        decreases s.len() - i,
    {
        assert(s@.skip(i as int).skip(1) =~= s@.skip(i + 1));
        i = i + 1;
    }
    slice_subrange(s, i, s.len())
}

/// `s` without its trailing white space.
pub(crate) fn trim_end(s: &[char]) -> (r: &[char])
    ensures
        r@ == trimmed_end(s@),
{
    let mut n: usize = s.len();
    assert(s@.take(n as int) =~= s@);
    while n > 0 && white(s[n - 1])
        invariant
            n <= s.len(),
            trimmed_end(s@) == trimmed_end(s@.take(n as int)),
        decreases n,
    {
        assert(s@.take(n as int).drop_last() =~= s@.take(n - 1));
        n = n - 1;
    }
    slice_subrange(s, 0, n)
}

/// `s` without white space at either end.
pub(crate) fn trim(s: &[char]) -> (r: &[char])
    ensures
        r@ == trimmed(s@),
{
    trim_end(trim_start(s))
}

/// `s` up to the first white space in it.
pub(crate) fn first_word_of(s: &[char]) -> (r: String)
    ensures
        r@ == first_word(s@),
{
    let mut r = String::new();
    assert(s@.skip(0) =~= s@);
    assert(r@ + first_word(s@) =~= first_word(s@));
    for i in 0..s.len()
        invariant
            first_word(s@) == r@ + first_word(s@.skip(i as int)),
    {
        let ghost rest = s@.skip(i as int);
        let ghost before = r@;
        if white(s[i]) {
            assert(r@ + first_word(rest) =~= r@);
            return r;
        }
        r.push(s[i]);
        assert(rest.skip(1) =~= s@.skip(i + 1));
        assert(r@ + first_word(rest.skip(1)) =~= before + first_word(rest));
    }
    assert(r@ + first_word(s@.skip(s@.len() as int)) =~= r@);
    r
}

/// `s` without the copies of `c` that it starts with.
pub(crate) fn strip_leading(s: &[char], c: char) -> (r: &[char])
    ensures
        r@ == without_leading(s@, c),
{
    let mut i: usize = 0;
    assert(s@.skip(0) =~= s@);
    while i < s.len() && s[i] == c
        invariant
            i <= s.len(),
            without_leading(s@, c) == without_leading(s@.skip(i as int), c),
        decreases s.len() - i,
    {
        assert(s@.skip(i as int).skip(1) =~= s@.skip(i + 1));
        i = i + 1;
    }
    slice_subrange(s, i, s.len())
}

/// A position before which there is no `c`, and at which there is one unless
/// it is the end, is the first.
pub(crate) proof fn lemma_first_index<T>(s: Seq<T>, c: T, i: int)
    requires
        0 <= i <= s.len(),
        forall|j: int| 0 <= j < i ==> s[j] != c,
        i < s.len() ==> s[i] == c,
    ensures
        first_index(s, c) == i,
    decreases s.len(),
{
    if i > 0 {
        let t = s.skip(1);
        assert forall|j: int| 0 <= j < i - 1 implies t[j] != c by {
            assert(s[j + 1] != c);
        }
        lemma_first_index(t, c, i - 1);
    }
}

/// What `first_index` finds: no `c` before it, and `c` at it unless it is the end.
pub(crate) proof fn lemma_first_index_is<T>(s: Seq<T>, c: T)
    ensures
        first_index(s, c) <= s.len(),
        forall|j: int| 0 <= j < first_index(s, c) ==> s[j] != c,
        first_index(s, c) < s.len() ==> s[first_index(s, c) as int] == c,
    decreases s.len(),
{
    if s.len() != 0 && s[0] != c {
        lemma_first_index_is(s.skip(1), c);
        assert forall|j: int| 0 <= j < first_index(s, c) implies s[j] != c by {
            if j > 0 {
                assert(s.skip(1)[j - 1] == s[j]);
            }
        }
    }
}

/// A text up to a line feed is the first of the lines.
pub(crate) proof fn lemma_lines_after(a: Seq<char>, rest: Seq<char>)
    requires
        is_one_line(a),
        a.len() > 0 ==> a.last() != '\r',
    ensures
        lines(a + seq!['\n'] + rest) == seq![a] + lines(rest),
{
    let s = a + seq!['\n'] + rest;
    let n = a.len() as int;
    assert(s[n] == '\n');
    assert forall|j: int| 0 <= j < n implies s[j] != '\n' by {
        assert(s[j] == a[j]);
    }
    lemma_first_index(s, '\n', n);
    assert(s.take(n) =~= a);
    assert(s.skip(n + 1) =~= rest);
}

/// A text without a line feed is a single line.
pub(crate) proof fn lemma_single_line(a: Seq<char>)
    requires
        is_one_line(a),
        a.len() > 0,
    ensures
        lines(a) == seq![a],
{
    lemma_first_index(a, '\n', a.len() as int);
}

/// The position of the first `c`, or the length of `s` if there is none.
pub(crate) fn find(s: &[char], c: char) -> (r: usize)
    ensures
        r == first_index(s@, c),
        r <= s.len(),
{
    let mut i: usize = 0;
    while i < s.len() && s[i] != c
        invariant
            i <= s.len(),
            forall|j: int| 0 <= j < i ==> s[j] != c,
        decreases s.len() - i,
    {
        i = i + 1;
    }
    proof {
        lemma_first_index(s@, c, i as int);
    }
    i
}

/// Whether `s` starts with `prefix`.
pub(crate) fn starts_with(s: &[char], prefix: &[char]) -> (r: bool)
    ensures
        r == prefix@.is_prefix_of(s@),
{
    if prefix.len() > s.len() {
        return false;
    }
    for i in 0..prefix.len()
        invariant
            prefix.len() <= s.len(),
            forall|j: int| 0 <= j < i ==> prefix[j] == s[j],
    {
        if prefix[i] != s[i] {
            assert(s@.subrange(0, prefix@.len() as int)[i as int] == s[i as int]);
            return false;
        }
    }
    assert(prefix@ =~= s@.subrange(0, prefix@.len() as int));
    true
}

/// What follows `prefix` in `s`, if `s` starts with it.
pub(crate) fn strip_prefix<'a>(s: &'a [char], prefix: &str) -> (r: Option<&'a [char]>)
    ensures
        r is Some <==> prefix@.is_prefix_of(s@),
        r matches Some(t) ==> t@ == s@.skip(prefix@.len() as int),
{
    let p = to_chars(prefix);
    if starts_with(s, p.as_slice()) {
        Some(slice_subrange(s, p.len(), s.len()))
    } else {
        None
    }
}

proof fn lemma_texts_push(v: Seq<String>, s: String)
    ensures
        texts(v.push(s)) == texts(v).push(s@),
{
    assert(texts(v.push(s)) =~= texts(v).push(s@));
}

/// The lines of `s`.
pub(crate) fn lines_of(s: &[char]) -> (r: Vec<String>)
    ensures
        texts(r@) == lines(s@),
{
    let mut r: Vec<String> = Vec::new();
    let mut start: usize = 0;
    assert(s@.skip(0) =~= s@);
    assert(texts(r@) + lines(s@) =~= lines(s@));
    while start < s.len()
        invariant
            start <= s.len(),
            texts(r@) + lines(s@.skip(start as int)) == lines(s@),
        decreases s.len() - start,
    {
        let rest = slice_subrange(s, start, s.len());
        let n = find(rest, '\n');
        let ghost before = r@;
        if n >= rest.len() {
            r.push(from_chars(rest));
            proof {
                lemma_texts_push(before, r@.last());
                assert(texts(r@) =~= texts(before) + seq![rest@]);
                assert(s@.skip(s@.len() as int) =~= Seq::<char>::empty());
                assert(texts(r@) + lines(Seq::<char>::empty()) =~= texts(r@));
            }
            start = s.len();
        } else {
            let end: usize = if n > 0 && rest[n - 1] == '\r' {
                n - 1
            } else {
                n
            };
            r.push(from_chars(slice_subrange(rest, 0, end)));
            proof {
                lemma_texts_push(before, r@.last());
                if n > 0 {
                    assert(rest@.take(n as int).drop_last() =~= rest@.take(n - 1));
                }
                assert(r@.last()@ == without_cr(rest@.take(n as int)));
                assert(rest@.skip(n + 1) =~= s@.skip(start + n + 1));
                assert(texts(r@) + lines(s@.skip(start + n + 1)) =~= texts(before) + (
                seq![r@.last()@] + lines(rest@.skip(n + 1))));
            }
            start = start + n + 1;
        }
    }
    assert(s@.skip(start as int) =~= Seq::<char>::empty());
    assert(texts(r@) + lines(Seq::<char>::empty()) =~= texts(r@));
    r
}

/// The pieces of `s` between the separators.
pub(crate) fn split_at(s: &[char], sep: char) -> (r: Vec<String>)
    ensures
        texts(r@) == split(s@, sep),
        r.len() > 0,
{
    let mut r: Vec<String> = Vec::new();
    let mut start: usize = 0;
    assert(s@.skip(0) =~= s@);
    assert(texts(r@) + split(s@, sep) =~= split(s@, sep));
    loop
        invariant_except_break
            start <= s.len(),
            texts(r@) + split(s@.skip(start as int), sep) == split(s@, sep),
        ensures
            texts(r@) == split(s@, sep),
            r.len() > 0,
        decreases s.len() - start,
    {
        let rest = slice_subrange(s, start, s.len());
        let n = find(rest, sep);
        let ghost before = r@;
        r.push(from_chars(slice_subrange(rest, 0, n)));
        proof {
            lemma_texts_push(before, r@.last());
        }
        if n >= rest.len() {
            assert(rest@.take(n as int) =~= rest@);
            assert(texts(r@) =~= texts(before) + seq![rest@]);
            break ;
        }
        proof {
            assert(rest@.skip(n + 1) =~= s@.skip(start + n + 1));
            assert(texts(r@) + split(s@.skip(start + n + 1), sep) =~= texts(before) + (
            seq![rest@.take(n as int)] + split(rest@.skip(n + 1), sep)));
        }
        start = start + n + 1;
    }
    r
}

/// `s` with every `c` replaced by `with`.
pub(crate) fn replace(s: &[char], c: char, with: &str) -> (r: String)
    ensures
        r@ == replaced(s@, c, with@),
{
    let mut r = String::new();
    assert(s@.take(0) =~= Seq::<char>::empty());
    for i in 0..s.len()
        invariant
            r@ == replaced(s@.take(i as int), c, with@),
    {
        let ghost before = r@;
        assert(s@.take(i + 1).drop_last() =~= s@.take(i as int));
        if s[i] == c {
            r.append(with);
        } else {
            r.push(s[i]);
            assert(r@ =~= before + seq![s[i as int]]);
        }
    }
    assert(s@.take(s@.len() as int) =~= s@);
    r
}

/// A position before which `pattern` does not occur, and at which it does, is
/// where it first occurs.
pub(crate) proof fn lemma_first_match(s: Seq<char>, pattern: Seq<char>, i: int)
    requires
        0 <= i <= s.len(),
        forall|j: int| 0 <= j < i ==> !pattern.is_prefix_of(#[trigger] s.skip(j)),
    ensures
        pattern.is_prefix_of(s.skip(i)) ==> first_match(s, pattern) == Some(i as nat),
        i == s.len() && !pattern.is_prefix_of(s.skip(i)) ==> first_match(s, pattern) is None,
    decreases s.len(),
{
    if i > 0 {
        let t = s.skip(1);
        assert(s.skip(0) =~= s);
        assert forall|j: int| 0 <= j < i - 1 implies !pattern.is_prefix_of(#[trigger] t.skip(j)) by {
            assert(t.skip(j) =~= s.skip(j + 1));
        }
        lemma_first_match(t, pattern, i - 1);
        assert(t.skip(i - 1) =~= s.skip(i));
    } else {
        assert(s.skip(0) =~= s);
    }
}

/// Where `pattern` first occurs in `s`.
pub(crate) fn find_text(s: &[char], pattern: &[char]) -> (r: Option<usize>)
    ensures
        match r {
            Some(i) => first_match(s@, pattern@) == Some(i as nat) && i + pattern.len() <= s.len(),
            None => first_match(s@, pattern@) is None,
        },
{
    let mut i: usize = 0;
    while i < s.len()
        invariant
            i <= s.len(),
            forall|j: int| 0 <= j < i ==> !pattern@.is_prefix_of(#[trigger] s@.skip(j)),
        decreases s.len() - i,
    {
        if starts_with(slice_subrange(s, i, s.len()), pattern) {
            proof {
                lemma_first_match(s@, pattern@, i as int);
            }
            return Some(i);
        }
        i = i + 1;
    }
    proof {
        lemma_first_match(s@, pattern@, i as int);
        assert(s@.skip(i as int) =~= Seq::<char>::empty());
        if pattern@.len() == 0 {
            assert(Seq::<char>::empty().subrange(0, 0) =~= pattern@);
        }
    }
    if pattern.len() == 0 {
        Some(i)
    } else {
        None
    }
}

/// Whether `pattern` occurs in `s`.
pub(crate) fn contains(s: &[char], pattern: &str) -> (r: bool)
    ensures
        r == (first_match(s@, pattern@) is Some),
{
    let p = to_chars(pattern);
    find_text(s, p.as_slice()).is_some()
}

/// Appends the given characters.
pub(crate) fn append_chars(out: &mut String, s: &[char])
    ensures
        final(out)@ == old(out)@ + s@,
{
    let t = from_chars(s);
    out.append(t.as_str());
}

/// Appends `n` in decimal.
pub(crate) fn append_decimal(out: &mut String, n: u32)
    ensures
        final(out)@ == old(out)@ + decimal(n as nat),
    decreases n,
{
    let ghost before = out@;
    if n >= 10 {
        append_decimal(out, n / 10);
    }
    let d: u8 = 48 + (n % 10) as u8;
    let ghost middle = out@;
    out.push(d as char);
    proof {
        assert(d as char == digit((n % 10) as nat));
        if n >= 10 {
            assert(out@ =~= before + decimal((n / 10) as nat).push(digit((n % 10) as nat)));
        } else {
            assert(out@ =~= before + seq![digit(n as nat)]);
        }
    }
}

/// `n` in decimal.
pub(crate) fn decimal_of(n: u32) -> (r: String)
    ensures
        r@ == decimal(n as nat),
{
    let mut r = String::new();
    append_decimal(&mut r, n);
    assert(r@ =~= decimal(n as nat));
    r
}

/// More digits do not make a number smaller.
proof fn lemma_number_grows(s: Seq<char>, n: int)
    requires
        0 <= n <= s.len(),
        all_digits(s),
    ensures
        number(s.take(n)) <= number(s),
    decreases s.len() - n,
{
    if n < s.len() {
        lemma_number_grows(s.drop_last(), n);
        assert(s.drop_last().take(n) =~= s.take(n));
    } else {
        assert(s.take(n) =~= s);
    }
}

/// What `s` means as a 32-bit unsigned number.
pub(crate) fn parse_u32(s: &[char]) -> (r: Option<u32>)
    ensures
        r == u32_value(s@),
{
    let digits = if s.len() > 0 && s[0] == '+' {
        slice_subrange(s, 1, s.len())
    } else {
        s
    };
    if digits.len() == 0 {
        return None;
    }
    let mut value: u64 = 0;
    let mut fits = true;
    assert(digits@.take(0) =~= Seq::<char>::empty());
    for i in 0..digits.len()
        invariant
            digits@ == without_plus(s@),
            forall|j: int| 0 <= j < i ==> is_digit(#[trigger] digits@[j]),
            value <= u32::MAX,
            fits ==> value == number(digits@.take(i as int)),
            !fits ==> exists|n: int|
                0 <= n <= i && #[trigger] number(digits@.take(n)) > u32::MAX,
    {
        let c = digits[i];
        if !('0' <= c && c <= '9') {
            assert(!is_digit(digits@[i as int]));
            return None;
        }
        assert(digits@.take(i + 1).drop_last() =~= digits@.take(i as int));
        if fits {
            let next: u64 = 10 * value + (c as u32 - 48) as u64;
            assert(next == number(digits@.take(i + 1)));
            if next > 0xffff_ffff {
                fits = false;
            } else {
                value = next;
            }
        }
    }
    assert(digits@.take(digits@.len() as int) =~= digits@);
    if fits {
        Some(value as u32)
    } else {
        proof {
            let n = choose|n: int|
                0 <= n <= digits@.len() && #[trigger] number(digits@.take(n)) > u32::MAX;
            lemma_number_grows(digits@, n);
        }
        None
    }
}

/// The ASCII letter in lower case; any other character as it is.
fn lower(c: char) -> (r: char)
    ensures
        r == ascii_lower(c),
{
    if 'A' <= c && c <= 'Z' {
        (c as u8 + 32) as char
    } else {
        c
    }
}

/// Whether two texts differ at most in the case of ASCII letters.
pub(crate) fn equal_ignoring_case(a: &[char], b: &str) -> (r: bool)
    ensures
        r == same_ignoring_case(a@, b@),
{
    let y = to_chars(b);
    if a.len() != y.len() {
        return false;
    }
    for i in 0..a.len()
        invariant
            a.len() == y.len(),
            y@ == b@,
            forall|j: int| 0 <= j < i ==> ascii_lower(#[trigger] a@[j]) == ascii_lower(y@[j]),
    {
        if lower(a[i]) != lower(y[i]) {
            assert(ascii_lower(a@[i as int]) != ascii_lower(y@[i as int]));
            return false;
        }
    }
    true
}

/// Where every `c` was replaced by a text without `c`, there is none left.
pub(crate) proof fn lemma_replaced_gone(s: Seq<char>, c: char, with: Seq<char>)
    requires
        !with.contains(c),
    ensures
        !replaced(s, c, with).contains(c),
    decreases s.len(),
{
    if s.len() > 0 {
        lemma_replaced_gone(s.drop_last(), c, with);
        let head = replaced(s.drop_last(), c, with);
        let tail = if s.last() == c {
            with
        } else {
            seq![s.last()]
        };
        assert forall|i: int| 0 <= i < (head + tail).len() implies (head + tail)[i] != c by {
            if i < head.len() {
                assert((head + tail)[i] == head[i]);
                assert(head.contains(head[i]));
            } else {
                assert((head + tail)[i] == tail[i - head.len()]);
                assert(tail.contains(tail[i - head.len()]));
            }
        }
    }
}

/// Where there is no `c`, there is nothing to replace.
pub(crate) proof fn lemma_replaced_nothing(s: Seq<char>, c: char, with: Seq<char>)
    requires
        !s.contains(c),
    ensures
        replaced(s, c, with) == s,
    decreases s.len(),
{
    if s.len() > 0 {
        assert(s.contains(s.last()));
        assert forall|x: char| s.drop_last().contains(x) implies s.contains(x) by {
            let i = choose|i: int| 0 <= i < s.drop_last().len() && s.drop_last()[i] == x;
            assert(s[i] == x);
        }
        lemma_replaced_nothing(s.drop_last(), c, with);
        assert(s.drop_last() + seq![s.last()] =~= s);
    } else {
        assert(replaced(s, c, with) =~= s);
    }
}

} // verus!
