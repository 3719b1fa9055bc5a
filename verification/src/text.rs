//! Characters, words and numbers: the text level below the lexer.
//!
//! Everything here is stated over sequences of characters, the view of a
//! string.

use vstd::prelude::*;
use vstd::string::*;
use vstd::utf8::*;

verus! {

/// The five ASCII white-space characters that separate the tokens of a line:
/// space, tab, line feed, form feed and carriage return.
pub open spec fn is_space(c: char) -> bool {
    c == ' ' || c == '\t' || c == '\n' || c == '\x0C' || c == '\r'
}

/// Length of the longest prefix of `s` that holds no white space.
pub open spec fn word_len(s: Seq<char>) -> nat
    decreases s.len(),
{
    if s.len() == 0 || is_space(s[0]) {
        0
    } else {
        1 + word_len(s.drop_first())
    }
}

/// The words of `s`: its maximal runs of characters other than white space,
/// from left to right.
pub open spec fn words(s: Seq<char>) -> Seq<Seq<char>>
    decreases s.len(),
{
    if s.len() == 0 {
        Seq::empty()
    } else if is_space(s[0]) {
        words(s.drop_first())
    } else {
        proof {
            lemma_word_len_bounds(s);
        }
        let n = word_len(s) as int;
        seq![s.take(n)] + words(s.skip(n))
    }
}

/// `s` without the white space at its start.
pub open spec fn trim_start(s: Seq<char>) -> Seq<char>
    decreases s.len(),
{
    if s.len() > 0 && is_space(s[0]) {
        trim_start(s.drop_first())
    } else {
        s
    }
}

/// The index of the first colon of `s`, or the length of `s` where it holds
/// no colon: the length of the text before the colon.
pub open spec fn colon_index(s: Seq<char>) -> nat
    decreases s.len(),
{
    if s.len() == 0 || s[0] == ':' {
        0
    } else {
        1 + colon_index(s.drop_first())
    }
}

/// A decimal digit.
pub open spec fn is_digit(c: char) -> bool {
    '0' as u32 <= c as u32 <= '9' as u32
}

/// The value of a decimal digit, and 0 for any other character.
pub open spec fn digit_value(c: char) -> nat {
    if is_digit(c) {
        (c as u32 - '0' as u32) as nat
    } else {
        0
    }
}

/// The number that a sequence of decimal digits writes, most significant
/// digit first. The empty sequence writes 0.
pub open spec fn decimal(s: Seq<char>) -> nat
    decreases s.len(),
{
    if s.len() == 0 {
        0
    } else {
        decimal(s.drop_last()) * 10 + digit_value(s.last())
    }
}

/// Every character of `s` is a decimal digit.
pub open spec fn all_digits(s: Seq<char>) -> bool {
    forall|i: int| 0 <= i < s.len() ==> is_digit(#[trigger] s[i])
}

/// `s` without its leading plus sign, if it has one.
pub open spec fn unsigned_part(s: Seq<char>) -> Seq<char> {
    if s.len() > 0 && s[0] == '+' {
        s.skip(1)
    } else {
        s
    }
}

/// The unsigned 64-bit number that `s` writes, if it writes one: an optional
/// plus sign, then one or more decimal digits whose value fits in 64 bits.
/// Leading zeros are allowed; anything else in `s` (a minus sign, white
/// space, an underscore) means that `s` is no number.
pub open spec fn number(s: Seq<char>) -> Option<u64> {
    let digits = unsigned_part(s);
    if digits.len() > 0 && all_digits(digits) && decimal(digits) <= u64::MAX {
        Some(decimal(digits) as u64)
    } else {
        None
    }
}

/// A word is never longer than the text it starts, and is not empty where the
/// text starts with something other than white space.
pub proof fn lemma_word_len_bounds(s: Seq<char>)
    ensures
        word_len(s) <= s.len(),
        s.len() > 0 && !is_space(s[0]) ==> word_len(s) >= 1,
    decreases s.len(),
{
    if s.len() != 0 && !is_space(s[0]) {
        lemma_word_len_bounds(s.drop_first());
    }
}

/// A run of `n` characters without white space that ends the text, or is
/// followed by white space, is the first word.
pub proof fn lemma_word_len_is(s: Seq<char>, n: int)
    requires
        0 <= n <= s.len(),
        forall|k: int| 0 <= k < n ==> !is_space(#[trigger] s[k]),
        n == s.len() || is_space(s[n]),
    ensures
        word_len(s) == n,
    decreases n,
{
    if n > 0 {
        let t = s.drop_first();
        assert forall|k: int| 0 <= k < n - 1 implies !is_space(#[trigger] t[k]) by {
            assert(t[k] == s[k + 1]);
        }
        lemma_word_len_is(t, n - 1);
    }
}

/// No word is empty and no word holds white space.
pub proof fn lemma_words_are_solid(s: Seq<char>)
    ensures
        forall|i: int, k: int|
            0 <= i < words(s).len() && 0 <= k < words(s)[i].len() ==> !is_space(
                #[trigger] words(s)[i][k],
            ),
        forall|i: int| 0 <= i < words(s).len() ==> (#[trigger] words(s)[i]).len() > 0,
    decreases s.len(),
{
    if s.len() == 0 {
        assert(words(s).len() == 0);
    } else if is_space(s[0]) {
        lemma_words_are_solid(s.drop_first());
        assert(words(s) == words(s.drop_first()));
    } else {
        lemma_word_len_bounds(s);
        let n = word_len(s) as int;
        lemma_words_are_solid(s.skip(n));
        lemma_word_has_no_space(s);
        let rest = words(s.skip(n));
        assert(words(s) == seq![s.take(n)] + rest);
        assert forall|i: int, k: int|
            0 <= i < words(s).len() && 0 <= k < words(s)[i].len() implies !is_space(
            #[trigger] words(s)[i][k],
        ) by {
            if i > 0 {
                assert(words(s)[i] == rest[i - 1]);
            } else {
                assert(words(s)[0] == s.take(n));
                assert(s.take(n)[k] == s[k]);
            }
        }
        assert forall|i: int| 0 <= i < words(s).len() implies (#[trigger] words(s)[i]).len()
            > 0 by {
            if i > 0 {
                assert(words(s)[i] == rest[i - 1]);
            } else {
                assert(words(s)[0] == s.take(n));
            }
        }
    }
}

/// The first word of a text holds no white space.
pub proof fn lemma_word_has_no_space(s: Seq<char>)
    ensures
        forall|k: int| 0 <= k < word_len(s) ==> !is_space(#[trigger] s[k]),
    decreases s.len(),
{
    lemma_word_len_bounds(s);
    if s.len() != 0 && !is_space(s[0]) {
        let t = s.drop_first();
        lemma_word_has_no_space(t);
        assert forall|k: int| 0 <= k < word_len(s) implies !is_space(#[trigger] s[k]) by {
            if k > 0 {
                assert(s[k] == t[k - 1]);
            }
        }
    }
}

/// Dropping `n` leading white-space characters, where the next character is
/// none, trims the start.
pub proof fn lemma_trim_start_is(s: Seq<char>, n: int)
    requires
        0 <= n <= s.len(),
        forall|k: int| 0 <= k < n ==> is_space(#[trigger] s[k]),
        n == s.len() || !is_space(s[n]),
    ensures
        trim_start(s) == s.skip(n),
    decreases n,
{
    if n > 0 {
        let t = s.drop_first();
        assert forall|k: int| 0 <= k < n - 1 implies is_space(#[trigger] t[k]) by {
            assert(t[k] == s[k + 1]);
        }
        lemma_trim_start_is(t, n - 1);
        assert(t.skip(n - 1) =~= s.skip(n));
    } else {
        assert(s.skip(0) =~= s);
    }
}

/// The first word of a text starts where its leading white space ends.
pub proof fn lemma_first_word(s: Seq<char>)
    requires
        words(s).len() > 0,
    ensures
        trim_start(s).len() > 0,
        !is_space(trim_start(s)[0]),
        words(s)[0] == trim_start(s).take(word_len(trim_start(s)) as int),
        words(s)[0].len() > 0,
        words(s)[0][0] == trim_start(s)[0],
    decreases s.len(),
{
    if s.len() > 0 && is_space(s[0]) {
        lemma_first_word(s.drop_first());
    } else {
        lemma_word_len_bounds(s);
    }
}

/// Trimming the start of a text removes white space only.
pub proof fn lemma_trim_start_keeps(s: Seq<char>, c: char)
    requires
        !is_space(c),
    ensures
        s.contains(c) <==> trim_start(s).contains(c),
    decreases s.len(),
{
    if s.len() > 0 && is_space(s[0]) {
        let t = s.drop_first();
        lemma_trim_start_keeps(t, c);
        if s.contains(c) {
            let i = choose|i: int| 0 <= i < s.len() && s[i] == c;
            assert(t[i - 1] == c);
        }
        if t.contains(c) {
            let i = choose|i: int| 0 <= i < t.len() && t[i] == c;
            assert(s[i + 1] == c);
        }
    }
}

/// The first colon of a text is where a colon stands with none before it.
pub proof fn lemma_colon_index_is(s: Seq<char>, n: int)
    requires
        0 <= n <= s.len(),
        forall|k: int| 0 <= k < n ==> #[trigger] s[k] != ':',
        n == s.len() || s[n] == ':',
    ensures
        colon_index(s) == n,
    decreases n,
{
    if n > 0 {
        let t = s.drop_first();
        assert forall|k: int| 0 <= k < n - 1 implies #[trigger] t[k] != ':' by {
            assert(t[k] == s[k + 1]);
        }
        lemma_colon_index_is(t, n - 1);
    }
}

/// The index of the first colon lies within the text, and at it stands a
/// colon where the text holds one. No colon stands before it.
pub proof fn lemma_colon_index(s: Seq<char>)
    ensures
        colon_index(s) <= s.len(),
        s.contains(':') <==> colon_index(s) < s.len(),
        colon_index(s) < s.len() ==> s[colon_index(s) as int] == ':',
        forall|k: int| 0 <= k < colon_index(s) ==> #[trigger] s[k] != ':',
    decreases s.len(),
{
    if s.len() > 0 && s[0] != ':' {
        let t = s.drop_first();
        lemma_colon_index(t);
        if s.contains(':') {
            let i = choose|i: int| 0 <= i < s.len() && s[i] == ':';
            assert(t[i - 1] == ':');
        }
        if colon_index(t) < t.len() {
            assert(s[colon_index(t) as int + 1] == t[colon_index(t) as int]);
        }
        assert forall|k: int| 0 <= k < colon_index(s) implies #[trigger] s[k] != ':' by {
            if k > 0 {
                assert(s[k] == t[k - 1]);
            }
        }
    } else if s.len() > 0 {
        assert(s[0] == ':');
    }
}

/// Appending a character to a digit string multiplies by ten and adds.
pub proof fn lemma_decimal_step(s: Seq<char>, k: int)
    requires
        0 <= k < s.len(),
    ensures
        decimal(s.take(k + 1)) == decimal(s.take(k)) * 10 + digit_value(s[k]),
{
    assert(s.take(k + 1).drop_last() =~= s.take(k));
}

/// A prefix of a digit string never writes a larger number than the whole.
pub proof fn lemma_decimal_prefix(s: Seq<char>, k: int)
    requires
        0 <= k <= s.len(),
    ensures
        decimal(s.take(k)) <= decimal(s),
    decreases s.len() - k,
{
    if k == s.len() {
        assert(s.take(k) =~= s);
    } else {
        lemma_decimal_step(s, k);
        lemma_decimal_prefix(s, k + 1);
    }
}

/// Tests a character for white space.
pub fn is_space_char(c: char) -> (r: bool)
    ensures
        r == is_space(c),
{
    c == ' ' || c == '\t' || c == '\n' || c == '\x0C' || c == '\r'
}

/// The characters of a string, one by one.
pub fn chars_of(s: &str) -> (v: Vec<char>)
    ensures
        v@ == s@,
{
    let mut v: Vec<char> = Vec::new();
    for c in it: s.chars()
        invariant
            v@ == s@.take(it.index() as int),
            it.seq() == s@,
    {
        v.push(c);
    }
    v
}

/// Counts the white space at the start of a text.
pub fn skip_spaces(chars: &Vec<char>) -> (n: usize)
    ensures
        n <= chars@.len(),
        trim_start(chars@) == chars@.skip(n as int),
        forall|k: int| 0 <= k < n ==> is_space(#[trigger] chars@[k]),
        n == chars@.len() || !is_space(chars@[n as int]),
{
    let mut n: usize = 0;
    while n < chars.len() && is_space_char(chars[n])
        invariant
            n <= chars@.len(),
            forall|k: int| 0 <= k < n ==> is_space(#[trigger] chars@[k]),
        decreases chars@.len() - n,
    {
        n += 1;
    }
    proof {
        lemma_trim_start_is(chars@, n as int);
    }
    n
}

/// Finds the first colon of a text.
///
/// Returns its index, or the length of the text where it holds no colon.
pub fn find_colon(chars: &Vec<char>) -> (n: usize)
    ensures
        n == colon_index(chars@),
        n <= chars@.len(),
        forall|k: int| 0 <= k < n ==> #[trigger] chars@[k] != ':',
        n < chars@.len() ==> chars@[n as int] == ':',
        n < chars@.len() <==> chars@.contains(':'),
{
    let mut n: usize = 0;
    while n < chars.len() && chars[n] != ':'
        invariant
            n <= chars@.len(),
            forall|k: int| 0 <= k < n ==> #[trigger] chars@[k] != ':',
        decreases chars@.len() - n,
    {
        n += 1;
    }
    proof {
        lemma_colon_index_is(chars@, n as int);
        if chars@.contains(':') {
            let k = choose|k: int| 0 <= k < chars@.len() && chars@[k] == ':';
            assert(chars@[k] == ':');
        }
    }
    n
}

/// Tests two strings for holding the same characters.
///
/// The strings are compared byte by byte in their UTF-8 encoding, which
/// determines the characters.
pub fn same_text(a: &str, b: &str) -> (r: bool)
    ensures
        r == (a@ == b@),
{
    let x = a.as_bytes();
    let y = b.as_bytes();
    proof {
        encode_utf8_decode_utf8(a@);
        encode_utf8_decode_utf8(b@);
    }
    if x.len() != y.len() {
        return false;
    }
    let n = x.len();
    let mut i: usize = 0;
    while i < n
        invariant
            x@ == a.spec_bytes(),
            y@ == b.spec_bytes(),
            n == x@.len(),
            n == y@.len(),
            i <= n,
            x@.take(i as int) == y@.take(i as int),
        decreases n - i,
    {
        if x[i] != y[i] {
            return false;
        }
        assert(x@.take(i + 1) =~= x@.take(i as int).push(x@[i as int]));
        assert(y@.take(i + 1) =~= y@.take(i as int).push(y@[i as int]));
        i += 1;
    }
    assert(x@ =~= x@.take(n as int));
    assert(y@ =~= y@.take(n as int));
    true
}

/// Splits a line at white space.
///
/// The result holds the words of the line in order; it is empty for a line
/// that is empty or all white space.
pub fn split_words(line: &str) -> (out: Vec<String>)
    ensures
        out.deep_view() == words(line@),
{
    let cs = chars_of(line);
    let n = cs.len();
    let mut out: Vec<String> = Vec::new();
    let mut i: usize = 0;
    assert(line@.skip(0) =~= line@);
    assert(out.deep_view() =~= Seq::<Seq<char>>::empty());
    while i < n
        invariant
            cs@ == line@,
            n == cs.len(),
            i <= n,
            out.deep_view() + words(line@.skip(i as int)) == words(line@),
        decreases n - i,
    {
        if is_space_char(cs[i]) {
            assert(line@.skip(i as int).drop_first() =~= line@.skip(i + 1));
            i += 1;
        } else {
            let start = i;
            let mut j: usize = i + 1;
            while j < n && !is_space_char(cs[j])
                invariant
                    cs@ == line@,
                    n == cs.len(),
                    start < j <= n,
                    forall|k: int| start <= k < j ==> !is_space(#[trigger] cs@[k]),
                decreases n - j,
            {
                j += 1;
            }
            let word = line.substring_char(start, j).to_owned();
            proof {
                let rest = line@.skip(start as int);
                lemma_word_len_is(rest, j - start);
                assert(rest.take(j - start) =~= line@.subrange(start as int, j as int));
                assert(rest.skip(j - start) =~= line@.skip(j as int));
                assert(words(rest) == seq![word@] + words(line@.skip(j as int)));
                assert(out.deep_view().push(word@) + words(line@.skip(j as int))
                    =~= out.deep_view() + words(rest));
            }
            let ghost before = out.deep_view();
            out.push(word);
            assert(out.deep_view() =~= before.push(word@));
            i = j;
        }
    }
    assert(line@.skip(n as int) =~= Seq::<char>::empty());
    assert(out.deep_view() + Seq::<Seq<char>>::empty() =~= out.deep_view());
    out
}

/// Reads an unsigned 64-bit number.
///
/// Returns the number that the token writes, or `None` where it writes none:
/// where it is empty, holds anything but digits after an optional plus sign,
/// or writes a number too large for 64 bits.
pub fn parse_number(token: &str) -> (r: Option<u64>)
    ensures
        r == number(token@),
{
    let cs = chars_of(token);
    let n = cs.len();
    let start: usize = if n > 0 && cs[0] == '+' {
        1
    } else {
        0
    };
    if start == n {
        return None;
    }
    let ghost digits = unsigned_part(token@);
    assert(digits =~= token@.skip(start as int));
    let mut value: u64 = 0;
    let mut i: usize = start;
    assert(digits.take(0) =~= Seq::<char>::empty());
    while i < n
        invariant
            cs@ == token@,
            n == cs.len(),
            start <= i <= n,
            digits == unsigned_part(token@),
            digits == token@.skip(start as int),
            all_digits(digits.take(i - start)),
            value == decimal(digits.take(i - start)),
        decreases n - i,
    {
        let c = cs[i];
        let ghost k = i - start;
        assert(digits[k] == c);
        let code: u32 = c as u32;
        if code < '0' as u32 || code > '9' as u32 {
            assert(!is_digit(digits[k]));
            return None;
        }
        let digit: u64 = (code - '0' as u32) as u64;
        assert(digit == digit_value(c));
        proof {
            lemma_decimal_step(digits, k);
            lemma_decimal_prefix(digits, k + 1);
        }
        let next = match value.checked_mul(10) {
            Some(tens) => tens.checked_add(digit),
            None => None,
        };
        match next {
            Some(v) => {
                value = v;
            },
            None => {
                return None;
            },
        }
        assert forall|m: int| 0 <= m < k + 1 implies is_digit(#[trigger] digits.take(k + 1)[m]) by {
            if m < k {
                assert(digits.take(k + 1)[m] == digits.take(k)[m]);
            }
        }
        i += 1;
    }
    assert(digits.take(n - start) =~= digits);
    Some(value)
}

} // verus!
