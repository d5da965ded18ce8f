//! What holds of the operations on text.
use vstd::prelude::*;

use crate::text::{
    all_digits, ascii_lower, decimal, digit, first_index, first_match, first_word, is_digit,
    is_one_line, is_white, lemma_first_index, lemma_first_index_is, lines, number, replaced,
    same_ignoring_case, split, stands_in, trimmed, trimmed_end, trimmed_start, u32_value,
    without_leading, without_plus,
};

verus! {

/// Whether there is nothing but white space in a text.
pub open spec fn all_white(s: Seq<char>) -> bool {
    forall|i: int| 0 <= i < s.len() ==> is_white(#[trigger] s[i])
}

/// Whether a text does not start with white space.
pub open spec fn starts_visible(s: Seq<char>) -> bool {
    s.len() > 0 ==> !is_white(s[0])
}

/// Whether a text does not end in white space.
pub open spec fn ends_visible(s: Seq<char>) -> bool {
    s.len() > 0 ==> !is_white(s.last())
}

/// White space before a text is what trimming its start takes away.
pub proof fn lemma_trimmed_start(blank: Seq<char>, s: Seq<char>)
    requires
        all_white(blank),
        starts_visible(s),
    ensures
        trimmed_start(blank + s) == s,
    decreases blank.len(),
{
    let whole = blank + s;
    if blank.len() > 0 {
        assert(whole[0] == blank[0]);
        assert(whole.skip(1) =~= blank.skip(1) + s);
        lemma_trimmed_start(blank.skip(1), s);
    } else {
        assert(whole =~= s);
    }
}

/// White space after a text is what trimming its end takes away.
pub proof fn lemma_trimmed_end(s: Seq<char>, blank: Seq<char>)
    requires
        all_white(blank),
        ends_visible(s),
    ensures
        trimmed_end(s + blank) == s,
    decreases blank.len(),
{
    let whole = s + blank;
    if blank.len() > 0 {
        assert(whole.last() == blank.last());
        assert(whole.drop_last() =~= s + blank.drop_last());
        lemma_trimmed_end(s, blank.drop_last());
    } else {
        assert(whole =~= s);
    }
}

/// White space around a text is what trimming takes away.
pub proof fn lemma_trimmed(before: Seq<char>, s: Seq<char>, after: Seq<char>)
    requires
        all_white(before),
        all_white(after),
        starts_visible(s),
        ends_visible(s),
    ensures
        trimmed(before + s + after) == s,
{
    if s.len() == 0 {
        let blank = before + after;
        assert(before + s + after =~= blank + s);
        assert forall|i: int| 0 <= i < blank.len() implies is_white(#[trigger] blank[i]) by {
            if i < before.len() {
                assert(blank[i] == before[i]);
            } else {
                assert(blank[i] == after[i - before.len()]);
            }
        }
        lemma_trimmed_start(blank, s);
        assert(s + s =~= s);
        lemma_trimmed_end(s, s);
    } else {
        assert(before + s + after =~= before + (s + after));
        lemma_trimmed_start(before, s + after);
        lemma_trimmed_end(s, after);
    }
}

/// Where the white space at the start of a text ends.
pub proof fn lemma_blank_start(s: Seq<char>) -> (n: int)
    ensures
        0 <= n <= s.len(),
        all_white(s.take(n)),
        trimmed_start(s) == s.skip(n),
        starts_visible(s.skip(n)),
    decreases s.len(),
{
    if s.len() > 0 && is_white(s[0]) {
        let m = lemma_blank_start(s.skip(1));
        assert(s.skip(1).skip(m) =~= s.skip(m + 1));
        assert forall|i: int| 0 <= i < m + 1 implies is_white(#[trigger] s.take(m + 1)[i]) by {
            if i > 0 {
                assert(s.take(m + 1)[i] == s.skip(1).take(m)[i - 1]);
            }
        }
        m + 1
    } else {
        assert(s.skip(0) =~= s);
        0
    }
}

/// The first word of a text goes as far as there is no white space.
pub proof fn lemma_first_word(word: Seq<char>, rest: Seq<char>)
    requires
        forall|i: int| 0 <= i < word.len() ==> !is_white(#[trigger] word[i]),
        rest.len() > 0 ==> is_white(rest[0]),
    ensures
        first_word(word + rest) == word,
    decreases word.len(),
{
    let whole = word + rest;
    if word.len() > 0 {
        assert(whole[0] == word[0]);
        assert(whole.skip(1) =~= word.skip(1) + rest);
        lemma_first_word(word.skip(1), rest);
        assert(seq![word[0]] + word.skip(1) =~= word);
    } else {
        assert(whole =~= rest);
    }
}

/// All copies of a character before a text are taken away.
pub proof fn lemma_without_leading(copies: Seq<char>, c: char, s: Seq<char>)
    requires
        forall|i: int| 0 <= i < copies.len() ==> #[trigger] copies[i] == c,
        s.len() > 0 ==> s[0] != c,
    ensures
        without_leading(copies + s, c) == s,
    decreases copies.len(),
{
    let whole = copies + s;
    if copies.len() > 0 {
        assert(whole[0] == copies[0]);
        assert(whole.skip(1) =~= copies.skip(1) + s);
        lemma_without_leading(copies.skip(1), c, s);
    } else {
        assert(whole =~= s);
    }
}

/// A text without a separator is one piece.
pub proof fn lemma_one_piece<T>(s: Seq<T>, sep: T)
    requires
        !s.contains(sep),
    ensures
        split(s, sep) == seq![s],
{
    assert forall|j: int| 0 <= j < s.len() implies s[j] != sep by {
        assert(s.contains(s[j]));
    }
    lemma_first_index(s, sep, s.len() as int);
}

/// The pieces of two texts with a separator between them are those of the one
/// and those of the other.
pub proof fn lemma_pieces_add_up<T>(a: Seq<T>, sep: T, b: Seq<T>)
    ensures
        split(a + seq![sep] + b, sep) == split(a, sep) + split(b, sep),
    decreases a.len(),
{
    let whole = a + seq![sep] + b;
    let n = first_index(a, sep) as int;
    lemma_first_index_is(a, sep);
    assert forall|j: int| 0 <= j < n implies whole[j] != sep by {
        assert(whole[j] == a[j]);
    }
    assert(whole[n] == sep);
    lemma_first_index(whole, sep, n);
    assert(whole.take(n) =~= a.take(n));
    if n < a.len() {
        let rest = a.skip(n + 1);
        assert(whole.skip(n + 1) =~= rest + seq![sep] + b);
        lemma_pieces_add_up(rest, sep, b);
        assert(split(whole, sep) =~= split(a, sep) + split(b, sep));
    } else {
        assert(a.take(n) =~= a);
        assert(whole.skip(n + 1) =~= b);
    }
}

/// A line ends at a line feed, or at a carriage return before one, and the
/// lines of what follows come after it. What does not end is a line too, unless
/// it is empty.
pub proof fn lemma_lines(line: Seq<char>, rest: Seq<char>)
    requires
        is_one_line(line),
    ensures
        lines(Seq::<char>::empty()) == Seq::<Seq<char>>::empty(),
        line.len() > 0 ==> lines(line) == seq![line],
        line.len() > 0 && line.last() == '\r' ==> lines(line + seq!['\n'] + rest) == seq![
            line.drop_last(),
        ] + lines(rest),
        line.len() == 0 || line.last() != '\r' ==> lines(line + seq!['\n'] + rest) == seq![line]
            + lines(rest),
{
    let whole = line + seq!['\n'] + rest;
    let n = line.len() as int;
    assert(whole[n] == '\n');
    assert forall|j: int| 0 <= j < n implies whole[j] != '\n' && line[j] != '\n' by {
        assert(whole[j] == line[j]);
    }
    lemma_first_index(whole, '\n', n);
    lemma_first_index(line, '\n', n);
    assert(whole.take(n) =~= line);
    assert(whole.skip(n + 1) =~= rest);
}

/// Replacing a character goes through a text piece by piece, and touches no
/// other character.
pub proof fn lemma_replaced(a: Seq<char>, b: Seq<char>, c: char, d: char, with: Seq<char>)
    ensures
        replaced(a + b, c, with) == replaced(a, c, with) + replaced(b, c, with),
        replaced(seq![c], c, with) == with,
        d != c ==> replaced(seq![d], c, with) == seq![d],
        replaced(Seq::<char>::empty(), c, with) == Seq::<char>::empty(),
    decreases b.len(),
{
    let none = Seq::<char>::empty();
    assert(seq![c].drop_last() =~= none);
    assert(seq![d].drop_last() =~= none);
    assert(none + with =~= with);
    assert(none + seq![d] =~= seq![d]);
    assert(replaced(none, c, with) == none);
    if b.len() > 0 {
        lemma_replaced(a, b.drop_last(), c, d, with);
        assert((a + b).drop_last() =~= a + b.drop_last());
        assert((a + b).last() == b.last());
        assert(replaced(a + b, c, with) =~= replaced(a, c, with) + replaced(b, c, with));
    } else {
        assert(a + b =~= a);
        assert(replaced(a, c, with) + replaced(b, c, with) =~= replaced(a, c, with));
    }
}

/// Replacing one character by another keeps every place: the one stands where
/// the other stood, and everything else stays.
pub proof fn lemma_replaced_one_for_one(s: Seq<char>, c: char, d: char)
    ensures
        replaced(s, c, seq![d]).len() == s.len(),
        forall|i: int|
            0 <= i < s.len() ==> #[trigger] replaced(s, c, seq![d])[i] == (if s[i] == c {
                d
            } else {
                s[i]
            }),
    decreases s.len(),
{
    if s.len() > 0 {
        lemma_replaced_one_for_one(s.drop_last(), c, d);
    }
}

/// A pattern is found exactly where it stands in a text for the first time.
pub proof fn lemma_first_match(s: Seq<char>, pattern: Seq<char>)
    ensures
        match first_match(s, pattern) {
            Some(i) => i + pattern.len() <= s.len() && s.subrange(i as int, i as int + pattern.len())
                == pattern && forall|j: int|
                0 <= j < i && j + pattern.len() <= s.len() ==> #[trigger] s.subrange(
                    j,
                    j + pattern.len(),
                ) != pattern,
            None => !stands_in(pattern, s),
        },
    decreases s.len(),
{
    let n = pattern.len() as int;
    if pattern.is_prefix_of(s) {
        assert(s.subrange(0, 0 + n) =~= pattern);
    } else if s.len() == 0 {
        assert(n > 0) by {
            if n == 0 {
                assert(pattern =~= s.subrange(0, n));
            }
        }
    } else {
        let t = s.skip(1);
        lemma_first_match(t, pattern);
        if let Some(i) = first_match(t, pattern) {
            assert(s.subrange(i as int + 1, i + 1 + n) =~= t.subrange(i as int, i + n));
            assert forall|j: int|
                0 <= j < i + 1 && j + pattern.len() <= s.len() implies #[trigger] s.subrange(
                j,
                j + pattern.len(),
            ) != pattern by {
                if j > 0 {
                    assert(s.subrange(j, j + n) =~= t.subrange(j - 1, j - 1 + pattern.len()));
                } else {
                    if s.subrange(0, n) == pattern {
                        assert(pattern.is_prefix_of(s));
                    }
                }
            }
        } else {
            if stands_in(pattern, s) {
                let j = choose|j: int|
                    0 <= j && j + pattern.len() <= s.len() && #[trigger] s.subrange(
                        j,
                        j + pattern.len(),
                    ) == pattern;
                if j > 0 {
                    assert(s.subrange(j, j + n) =~= t.subrange(j - 1, j - 1 + pattern.len()));
                    assert(stands_in(pattern, t));
                } else {
                    assert(s.subrange(0, n) == pattern);
                    assert(pattern.is_prefix_of(s));
                }
            }
        }
    }
}

/// A number in decimal is a row of digits without needless zeros that stands
/// for the number.
pub proof fn lemma_decimal(n: nat)
    ensures
        decimal(n).len() > 0,
        all_digits(decimal(n)),
        number(decimal(n)) == n,
        decimal(n).len() > 1 ==> decimal(n)[0] != '0',
        n > 0 ==> decimal(n)[0] != '0',
    decreases n,
{
    if n < 10 {
        let s = seq![digit(n)];
        assert(decimal(n) == s);
        assert(s.drop_last() =~= Seq::<char>::empty());
        assert(number(s.drop_last()) == 0);
        assert(s.last() as nat == 48 + n);
    } else {
        let before = decimal(n / 10);
        let s = before.push(digit(n % 10));
        lemma_decimal(n / 10);
        assert(s.drop_last() =~= before);
        assert(s.last() as nat == 48 + n % 10);
        assert(s[0] == before[0]);
    }
}

/// A number that fits is read back from its decimal digits, with or without a
/// plus sign before them and zeros among those.
pub proof fn lemma_u32_read_back(n: u32)
    ensures
        u32_value(decimal(n as nat)) == Some(n),
        u32_value(seq!['+'] + decimal(n as nat)) == Some(n),
        u32_value(seq!['0'] + decimal(n as nat)) == Some(n),
{
    let s = decimal(n as nat);
    lemma_decimal(n as nat);
    assert(is_digit(s[0]));
    assert(without_plus(seq!['+'] + s) =~= s);
    let padded = seq!['0'] + s;
    assert(without_plus(padded) == padded);
    assert forall|i: int| 0 <= i < padded.len() implies is_digit(#[trigger] padded[i]) by {
        if i > 0 {
            assert(padded[i] == s[i - 1]);
        }
    }
    lemma_number_with_zero(s);
}

proof fn lemma_number_with_zero(s: Seq<char>)
    ensures
        number(seq!['0'] + s) == number(s),
    decreases s.len(),
{
    let padded = seq!['0'] + s;
    if s.len() > 0 {
        lemma_number_with_zero(s.drop_last());
        assert(padded.drop_last() =~= seq!['0'] + s.drop_last());
        assert(padded.last() == s.last());
    } else {
        assert(padded.drop_last() =~= Seq::<char>::empty());
        assert(number(padded.drop_last()) == 0);
    }
}

/// What is read as a number has digits in it, and nothing else but a plus sign
/// at the start. What is too large for the type is not read.
pub proof fn lemma_u32_has_digits(s: Seq<char>, i: int)
    requires
        u32_value(s) is Some,
        0 <= i < s.len(),
    ensures
        '0' <= s[i] <= '9' || (i == 0 && s[0] == '+' && s.len() > 1),
{
    let digits = without_plus(s);
    if s[0] == '+' {
        if i > 0 {
            assert(digits[i - 1] == s[i]);
            assert(is_digit(digits[i - 1]));
        }
    } else {
        assert(is_digit(digits[i]));
    }
}

/// A number too large for the type is not read.
pub proof fn lemma_too_large_is_not_read(n: nat)
    requires
        n > u32::MAX,
    ensures
        u32_value(decimal(n)) is None,
{
    lemma_decimal(n);
    assert(is_digit(decimal(n)[0]));
    assert(without_plus(decimal(n)) == decimal(n));
}

/// Letters are the same in both cases, and nothing else is the same as another
/// character.
pub proof fn lemma_case(a: char, b: char)
    requires
        ascii_lower(a) == ascii_lower(b),
    ensures
        a == b || ('a' <= a <= 'z' && b as int + 32 == a as int) || ('a' <= b <= 'z' && a as int + 32
            == b as int),
{
}

/// A letter is the same as itself in the other case.
pub proof fn lemma_other_case(a: char, b: char)
    requires
        'a' <= a <= 'z',
        b as int + 32 == a as int,
    ensures
        ascii_lower(a) == ascii_lower(b),
        same_ignoring_case(seq![a], seq![b]),
{
}

/// Digits are a number as long as it fits, and one more digit makes ten times as
/// much and the digit.
pub proof fn lemma_u32_of_digits(s: Seq<char>, d: char)
    requires
        s.len() > 0,
        forall|i: int| 0 <= i < s.len() ==> '0' <= #[trigger] s[i] <= '9',
        '0' <= d <= '9',
    ensures
        u32_value(s) matches Some(n) ==> n as int * 10 + (d as int - 48) <= u32::MAX ==> u32_value(
            s.push(d),
        ) == Some((n as int * 10 + (d as int - 48)) as u32),
        u32_value(s) matches Some(n) ==> n as int * 10 + (d as int - 48) > u32::MAX ==> u32_value(
            s.push(d),
        ) is None,
        u32_value(s) is None ==> u32_value(s.push(d)) is None,
        u32_value(seq![d]) == Some((d as int - 48) as u32),
        u32_value(seq!['+'] + s) == u32_value(s),
        u32_value(Seq::<char>::empty()) is None,
{
    let t = s.push(d);
    assert(is_digit(s[0]) && all_digits(s));
    assert(t.drop_last() =~= s);
    assert(t[0] == s[0]);
    assert forall|i: int| 0 <= i < t.len() implies is_digit(#[trigger] t[i]) by {
        if i < s.len() {
            assert(t[i] == s[i]);
        }
    }
    let one = seq![d];
    assert(one.drop_last() =~= Seq::<char>::empty());
    assert(number(one.drop_last()) == 0);
    assert(one[0] == d);
    assert(without_plus(seq!['+'] + s) =~= s);
}

/// Texts are the same but for case only if they are as long as each other and the
/// same but for case at every place.
pub proof fn lemma_case_of_texts(a: Seq<char>, b: Seq<char>, x: char, y: char)
    ensures
        same_ignoring_case(a, b) ==> a.len() == b.len(),
        same_ignoring_case(a.push(x), b.push(y)) == (same_ignoring_case(a, b) && ascii_lower(x)
            == ascii_lower(y)),
        same_ignoring_case(a, a),
        same_ignoring_case(a, b) == same_ignoring_case(b, a),
{
    let (s, t) = (a.push(x), b.push(y));
    if same_ignoring_case(s, t) {
        assert(ascii_lower(s[a.len() as int]) == ascii_lower(t[a.len() as int]));
        assert forall|i: int| 0 <= i < a.len() implies ascii_lower(#[trigger] a[i]) == ascii_lower(
            b[i],
        ) by {
            assert(ascii_lower(s[i]) == ascii_lower(t[i]));
        }
    }
    if same_ignoring_case(a, b) {
        assert forall|i: int| 0 <= i < b.len() implies ascii_lower(#[trigger] b[i]) == ascii_lower(
            a[i],
        ) by {
            assert(ascii_lower(a[i]) == ascii_lower(b[i]));
        }
    }
    if same_ignoring_case(b, a) {
        assert forall|i: int| 0 <= i < a.len() implies ascii_lower(#[trigger] a[i]) == ascii_lower(
            b[i],
        ) by {
            assert(ascii_lower(b[i]) == ascii_lower(a[i]));
        }
    }
}

} // verus!
