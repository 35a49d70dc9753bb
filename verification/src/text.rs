//! Reading text: the characters of a string, its whitespace-separated
//! fields, and decimal integers.

use vstd::prelude::*;
use vstd::string::StrSliceExecFns;
use crate::error::ErrorKind;

verus! {

/// Whether `c` separates fields: a character with Unicode's `White_Space`
/// property.
pub open spec fn is_space(c: char) -> bool {
    ('\u{9}' <= c && c <= '\u{d}') || c == ' ' || c == '\u{85}' || c == '\u{a0}' || c
        == '\u{1680}' || ('\u{2000}' <= c && c <= '\u{200a}') || c == '\u{2028}' || c
        == '\u{2029}' || c == '\u{202f}' || c == '\u{205f}' || c == '\u{3000}'
}

/// How many characters stand at the head of `s` before its first separator.
pub open spec fn word_len(s: Seq<char>) -> nat
    decreases s.len(),
{
    if s.len() == 0 || is_space(s[0]) {
        0
    } else {
        1 + word_len(s.drop_first())
    }
}

/// The fields of `s`: its maximal runs of characters that are no
/// separators, from left to right.
pub open spec fn fields(s: Seq<char>) -> Seq<Seq<char>>
    decreases s.len(),
    via fields_terminates
{
    if s.len() == 0 {
        Seq::empty()
    } else if is_space(s[0]) {
        fields(s.drop_first())
    } else {
        seq![s.take(word_len(s) as int)] + fields(s.skip(word_len(s) as int))
    }
}

#[via_fn]
proof fn fields_terminates(s: Seq<char>) {
    lemma_word_len_bounds(s);
}

/// A word is no longer than the text it heads, it holds no separator, and a
/// separator or the end of the text follows it.
pub proof fn lemma_word_len_bounds(s: Seq<char>)
    ensures
        word_len(s) <= s.len(),
        s.len() > 0 && !is_space(s[0]) ==> word_len(s) >= 1,
        forall|i: int| 0 <= i < word_len(s) ==> !is_space(#[trigger] s[i]),
        word_len(s) < s.len() ==> is_space(s[word_len(s) as int]),
    decreases s.len(),
{
    if s.len() == 0 || is_space(s[0]) {
    } else {
        let t = s.drop_first();
        lemma_word_len_bounds(t);
        assert forall|i: int| 0 <= i < word_len(s) implies !is_space(#[trigger] s[i]) by {
            if i > 0 {
                assert(s[i] == t[i - 1]);
            }
        }
        if word_len(s) < s.len() {
            assert(s[word_len(s) as int] == t[word_len(t) as int]);
        }
    }
}

/// The word at the head of `s` ends at `n` where no separator stands before
/// `n` and one stands at `n`, or the text ends there.
pub proof fn lemma_word_len_is(s: Seq<char>, n: int)
    requires
        0 <= n <= s.len(),
        forall|i: int| 0 <= i < n ==> !is_space(#[trigger] s[i]),
        n < s.len() ==> is_space(s[n]),
    ensures
        word_len(s) == n,
    decreases s.len(),
{
    if n == 0 {
    } else {
        let t = s.drop_first();
        assert forall|i: int| 0 <= i < n - 1 implies !is_space(#[trigger] t[i]) by {
            assert(t[i] == s[i + 1]);
        }
        lemma_word_len_is(t, n - 1);
    }
}

/// Whether `c` is a decimal digit.
pub open spec fn is_digit(c: char) -> bool {
    '0' <= c && c <= '9'
}

/// The number that a decimal digit stands for.
pub open spec fn digit_value(c: char) -> int {
    c as int - '0' as int
}

/// The number that a run of decimal digits stands for (0 for the empty run).
pub open spec fn decimal_value(s: Seq<char>) -> int
    decreases s.len(),
{
    if s.len() == 0 {
        0
    } else {
        10 * decimal_value(s.drop_last()) + digit_value(s.last())
    }
}

/// Whether `s` begins with a sign.
pub open spec fn has_sign(s: Seq<char>) -> bool {
    s.len() > 0 && (s[0] == '+' || s[0] == '-')
}

/// What follows the sign of `s`, or all of `s` where it has none.
pub open spec fn unsigned_part(s: Seq<char>) -> Seq<char> {
    if has_sign(s) {
        s.drop_first()
    } else {
        s
    }
}

/// The integer that `s` writes in decimal: an optional `+` or `-`, then one
/// digit or more, and nothing else.
pub open spec fn integer_of(s: Seq<char>) -> Option<int> {
    let digits = unsigned_part(s);
    if digits.len() > 0 && (forall|i: int| 0 <= i < digits.len() ==> is_digit(#[trigger] digits[i])) {
        if s[0] == '-' {
            Some(-decimal_value(digits))
        } else {
            Some(decimal_value(digits))
        }
    } else {
        None
    }
}

/// The move counter that `s` writes: its integer where it writes one that
/// fits in 32 bits with a sign.
pub open spec fn counter_of(s: Seq<char>) -> Result<i32, ErrorKind> {
    match integer_of(s) {
        Some(v) if i32::MIN <= v <= i32::MAX => Ok(v as i32),
        _ => Err(ErrorKind::UnparsableInteger),
    }
}

/// Whether `c` separates fields.
pub fn is_separator(c: char) -> (r: bool)
    ensures
        r == is_space(c),
{
    ('\u{9}' <= c && c <= '\u{d}') || c == ' ' || c == '\u{85}' || c == '\u{a0}' || c
        == '\u{1680}' || ('\u{2000}' <= c && c <= '\u{200a}') || c == '\u{2028}' || c
        == '\u{2029}' || c == '\u{202f}' || c == '\u{205f}' || c == '\u{3000}'
}

/// The characters of `s`, in order.
pub fn chars_of(s: &str) -> (v: Vec<char>)
    ensures
        v@ == s@,
{
    let mut v: Vec<char> = Vec::new();
    for c in it: s.chars()
        invariant
            it.seq() == s@,
            v@ == s@.take(it.index() as int),
    {
        v.push(c);
        assert(s@.take(it.index() + 1) == s@.take(it.index() as int).push(c));
    }
    assert(s@.take(s@.len() as int) == s@);
    v
}

/// The first `limit` fields of `s`, or all of them where it has fewer.
pub fn leading_fields<'a>(s: &'a str, limit: usize) -> (out: Vec<&'a str>)
    ensures
        out@.len() == if limit <= fields(s@).len() { limit as nat } else { fields(s@).len() },
        forall|k: int| 0 <= k < out@.len() ==> (#[trigger] out@[k])@ == fields(s@)[k],
{
    let cs = chars_of(s);
    let n = cs.len();
    let mut out: Vec<&'a str> = Vec::new();
    let ghost mut found: Seq<Seq<char>> = Seq::empty();
    let mut i: usize = 0;
    proof {
        assert(s@.skip(0) == s@);
    }
    while i < n && out.len() < limit
        invariant
            cs@ == s@,
            n == cs@.len(),
            i <= n,
            out@.len() <= limit,
            found.len() == out@.len(),
            forall|k: int| 0 <= k < out@.len() ==> (#[trigger] out@[k])@ == found[k],
            fields(s@) == found + fields(s@.skip(i as int)),
        decreases n - i,
    {
        let ghost rest = s@.skip(i as int);
        if is_separator(cs[i]) {
            proof {
                assert(rest.drop_first() == s@.skip(i + 1));
            }
            i = i + 1;
        } else {
            let start = i;
            let mut j = i + 1;
            while j < n && !is_separator(cs[j])
                invariant
                    cs@ == s@,
                    n == cs@.len(),
                    start < j <= n,
                    forall|k: int| start <= k < j ==> !is_space(#[trigger] cs@[k]),
                decreases n - j,
            {
                j = j + 1;
            }
            let word = s.substring_char(start, j);
            proof {
                lemma_word_len_is(rest, j - start);
                assert(rest.take(j - start) == s@.subrange(start as int, j as int));
                assert(rest.skip(j - start) == s@.skip(j as int));
                let ghost grown = found.push(word@);
                assert(found + (seq![word@] + fields(s@.skip(j as int))) == grown + fields(
                    s@.skip(j as int),
                ));
                found = grown;
            }
            out.push(word);
            i = j;
        }
    }
    proof {
        if i == n {
            assert(fields(s@.skip(i as int)) == Seq::<Seq<char>>::empty());
            assert(found + Seq::<Seq<char>>::empty() == found);
        }
    }
    out
}

/// Reads a move counter: a decimal integer, with or without a sign, that
/// fits in 32 bits.
pub fn parse_counter(s: &str) -> (r: Result<i32, ErrorKind>)
    ensures
        r == counter_of(s@),
{
    let cs = chars_of(s);
    let n = cs.len();
    if n == 0 {
        return Err(ErrorKind::UnparsableInteger);
    }
    let negative = cs[0] == '-';
    let start: usize = if cs[0] == '+' || cs[0] == '-' {
        1
    } else {
        0
    };
    if start == n {
        return Err(ErrorKind::UnparsableInteger);
    }
    let ghost digits = unsigned_part(s@);
    let bound: i64 = 2147483648;
    let mut magnitude: i64 = 0;
    let mut i: usize = start;
    proof {
        assert(digits == s@.skip(start as int));
        assert(digits.take(0) == Seq::<char>::empty());
    }
    while i < n
        invariant
            cs@ == s@,
            n == cs@.len(),
            start <= i <= n,
            bound == 2147483648,
            digits == s@.skip(start as int),
            digits == unsigned_part(s@),
            forall|k: int| 0 <= k < i - start ==> is_digit(#[trigger] digits[k]),
            0 <= decimal_value(digits.take(i - start)),
            magnitude == if decimal_value(digits.take(i - start)) > bound {
                bound + 1
            } else {
                decimal_value(digits.take(i - start))
            },
        decreases n - i,
    {
        let c = cs[i];
        if !('0' <= c && c <= '9') {
            proof {
                assert(digits.len() == n - start);
                assert(digits[i - start] == c);
                assert(!is_digit(digits[i - start]));
            }
            return Err(ErrorKind::UnparsableInteger);
        }
        let digit: i64 = (c as u32 - '0' as u32) as i64;
        proof {
            let ghost longer = digits.take(i + 1 - start);
            assert(longer.drop_last() == digits.take(i - start));
            assert(longer.last() == c);
        }
        if magnitude <= bound {
            magnitude = magnitude * 10 + digit;
            if magnitude > bound {
                magnitude = bound + 1;
            }
        }
        i = i + 1;
    }
    proof {
        assert(digits.take(n - start) == digits);
    }
    if negative {
        if magnitude <= bound {
            Ok((-magnitude) as i32)
        } else {
            Err(ErrorKind::UnparsableInteger)
        }
    } else {
        if magnitude < bound {
            Ok(magnitude as i32)
        } else {
            Err(ErrorKind::UnparsableInteger)
        }
    }
}

} // verus!
