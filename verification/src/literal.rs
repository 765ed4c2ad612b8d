//! The grammar of number literals.
//!
//! A literal is an optional sign followed by `inf`, `infinity`, `nan` (in any
//! mix of upper and lower case) or by a decimal number: digits with at most
//! one point among them, at least one digit in all, and an optional exponent
//! `e` or `E` with an optional sign and at least one digit.

use vstd::prelude::*;
use crate::text::{char_is_digit, is_digit};

verus! {

/// `+` or `-`.
pub open spec fn is_sign(c: char) -> bool {
    c == '+' || c == '-'
}

/// Whether `s` spells a word of which `lower` and `upper` are the lower-case
/// and the upper-case form: each position holds the letter in one of its two
/// cases.
pub open spec fn spells(s: Seq<char>, lower: Seq<char>, upper: Seq<char>) -> bool {
    &&& s.len() == lower.len()
    &&& forall|i: int| 0 <= i < s.len() ==> #[trigger] s[i] == lower[i] || s[i] == upper[i]
}

/// One of the three words that name a number which is no decimal: `inf`,
/// `infinity` and `nan`.
pub open spec fn is_special(s: Seq<char>) -> bool {
    ||| spells(s, seq!['i', 'n', 'f'], seq!['I', 'N', 'F'])
    ||| spells(
        s,
        seq!['i', 'n', 'f', 'i', 'n', 'i', 't', 'y'],
        seq!['I', 'N', 'F', 'I', 'N', 'I', 'T', 'Y'],
    )
    ||| spells(s, seq!['n', 'a', 'n'], seq!['N', 'A', 'N'])
}

/// Where the run of digits that starts at `from` ends: the first position at
/// or after `from` that holds no digit.
pub open spec fn digits_end(s: Seq<char>, from: int) -> int
    decreases s.len() - from,
{
    if 0 <= from < s.len() && is_digit(s[from]) {
        digits_end(s, from + 1)
    } else {
        from
    }
}

/// Whether `s`, from position `at` to its end, is an exponent: `e` or `E`,
/// an optional sign, and one digit or more.
pub open spec fn is_exponent(s: Seq<char>, at: int) -> bool {
    let digits = if at + 1 < s.len() && is_sign(s[at + 1]) {
        at + 2
    } else {
        at + 1
    };
    &&& 0 <= at < s.len()
    &&& (s[at] == 'e' || s[at] == 'E')
    &&& digits < s.len()
    &&& digits_end(s, digits) == s.len()
}

/// Whether `s` is an unsigned decimal number.
pub open spec fn is_decimal(s: Seq<char>) -> bool {
    let whole = digits_end(s, 0);
    let pointed = whole < s.len() && s[whole] == '.';
    let mantissa = if pointed {
        digits_end(s, whole + 1)
    } else {
        whole
    };
    let digits = if pointed {
        mantissa - 1
    } else {
        mantissa
    };
    &&& digits >= 1
    &&& (mantissa == s.len() || is_exponent(s, mantissa))
}

/// `s` without its sign, if it has one.
pub open spec fn unsigned(s: Seq<char>) -> Seq<char> {
    if s.len() > 0 && is_sign(s[0]) {
        s.skip(1)
    } else {
        s
    }
}

/// Whether `s` is a number literal.
pub open spec fn is_number_literal(s: Seq<char>) -> bool {
    is_special(unsigned(s)) || is_decimal(unsigned(s))
}

/// Whether `s` holds digits only. The empty text does.
pub open spec fn all_digits(s: Seq<char>) -> bool {
    forall|i: int| 0 <= i < s.len() ==> is_digit(#[trigger] s[i])
}

/// A mantissa, as the grammar has it: one digit or more, or digits before
/// and after one point, one digit at least among them.
pub open spec fn is_mantissa(s: Seq<char>) -> bool {
    ||| s.len() >= 1 && all_digits(s)
    ||| exists|p: int|
        {
            &&& 0 <= p < s.len()
            &&& #[trigger] s[p] == '.'
            &&& all_digits(s.take(p))
            &&& all_digits(s.skip(p + 1))
            &&& s.len() >= 2
        }
}

/// An exponent, as the grammar has it: `e` or `E`, then digits with or
/// without a sign before them, one digit at least.
pub open spec fn is_exponent_part(s: Seq<char>) -> bool {
    &&& s.len() >= 1
    &&& (s[0] == 'e' || s[0] == 'E')
    &&& unsigned(s.skip(1)).len() >= 1
    &&& all_digits(unsigned(s.skip(1)))
}

/// A decimal number, as the grammar has it: a mantissa, with or without an
/// exponent after it.
pub open spec fn is_mantissa_and_exponent(s: Seq<char>) -> bool {
    exists|k: int|
        0 <= k <= s.len() && #[trigger] is_mantissa(s.take(k)) && (k == s.len()
            || is_exponent_part(s.skip(k)))
}

/// The run of digits from `from` stays within `s`, holds digits only, and
/// ends before what is no digit.
proof fn lemma_digits_end(s: Seq<char>, from: int)
    requires
        0 <= from <= s.len(),
    ensures
        from <= digits_end(s, from) <= s.len(),
        forall|k: int| from <= k < digits_end(s, from) ==> is_digit(#[trigger] s[k]),
        digits_end(s, from) < s.len() ==> !is_digit(s[digits_end(s, from)]),
    decreases s.len() - from,
{
    if from < s.len() && is_digit(s[from]) {
        lemma_digits_end(s, from + 1);
    }
}

/// Digits from `from` up to `to`, and none at `to`, make the run from `from`
/// end at `to`.
proof fn lemma_digits_run(s: Seq<char>, from: int, to: int)
    requires
        0 <= from <= to <= s.len(),
        forall|k: int| from <= k < to ==> is_digit(#[trigger] s[k]),
        to < s.len() ==> !is_digit(s[to]),
    ensures
        digits_end(s, from) == to,
    decreases to - from,
{
    if from < to {
        lemma_digits_run(s, from + 1, to);
    }
}

/// The decimal numbers are those of the grammar: `is_decimal`, which reads a
/// text from left to right, accepts a text if and only if it is a mantissa
/// with or without an exponent.
pub proof fn lemma_decimal_grammar(s: Seq<char>)
    ensures
        is_decimal(s) <==> is_mantissa_and_exponent(s),
{
    let whole = digits_end(s, 0);
    lemma_digits_end(s, 0);
    let pointed = whole < s.len() && s[whole] == '.';
    if pointed {
        lemma_digits_end(s, whole + 1);
    }
    let mantissa = if pointed {
        digits_end(s, whole + 1)
    } else {
        whole
    };
    if is_decimal(s) {
        let m = s.take(mantissa);
        if pointed {
            assert(m[whole] == '.');
            assert(all_digits(m.take(whole)));
            assert(all_digits(m.skip(whole + 1)));
        } else {
            assert(all_digits(m));
        }
        assert(is_mantissa(m));
        if mantissa < s.len() {
            let e = s.skip(mantissa);
            let digits = if mantissa + 1 < s.len() && is_sign(s[mantissa + 1]) {
                mantissa + 2
            } else {
                mantissa + 1
            };
            lemma_digits_end(s, digits);
            assert(e.skip(1) =~= s.skip(mantissa + 1));
            assert(unsigned(e.skip(1)) =~= s.skip(digits));
            assert(is_exponent_part(e));
        }
    }
    if is_mantissa_and_exponent(s) {
        let k = choose|k: int|
            0 <= k <= s.len() && #[trigger] is_mantissa(s.take(k)) && (k == s.len()
                || is_exponent_part(s.skip(k)));
        let m = s.take(k);
        assert(k < s.len() ==> !is_digit(s[k]) && s[k] != '.') by {
            if k < s.len() {
                assert(s.skip(k)[0] == s[k]);
            }
        }
        if m.len() >= 1 && all_digits(m) {
            assert forall|i: int| 0 <= i < k implies is_digit(#[trigger] s[i]) by {
                assert(m[i] == s[i]);
            }
            lemma_digits_run(s, 0, k);
        } else {
            let p = choose|p: int|
                {
                    &&& 0 <= p < m.len()
                    &&& #[trigger] m[p] == '.'
                    &&& all_digits(m.take(p))
                    &&& all_digits(m.skip(p + 1))
                    &&& m.len() >= 2
                };
            assert forall|i: int| 0 <= i < p implies is_digit(#[trigger] s[i]) by {
                assert(m.take(p)[i] == s[i]);
            }
            assert(s[p] == m[p]);
            lemma_digits_run(s, 0, p);
            assert forall|i: int| p + 1 <= i < k implies is_digit(#[trigger] s[i]) by {
                assert(m.skip(p + 1)[i - (p + 1)] == s[i]);
            }
            lemma_digits_run(s, p + 1, k);
        }
        assert(mantissa == k);
        if k < s.len() {
            let e = s.skip(k);
            let digits = if k + 1 < s.len() && is_sign(s[k + 1]) {
                k + 2
            } else {
                k + 1
            };
            assert(e.skip(1) =~= s.skip(k + 1));
            assert(unsigned(e.skip(1)) =~= s.skip(digits));
            assert forall|i: int| digits <= i < s.len() implies is_digit(#[trigger] s[i]) by {
                assert(s.skip(digits)[i - digits] == s[i]);
            }
            lemma_digits_run(s, digits, s.len() as int);
            assert(is_exponent(s, k));
        }
    }
}

fn spells_word(chars: &[char], lower: &[char], upper: &[char]) -> (r: bool)
    requires
        lower.len() == upper.len(),
    ensures
        r == spells(chars@, lower@, upper@),
{
    if chars.len() != lower.len() {
        return false;
    }
    let mut i: usize = 0;
    while i < chars.len()
        invariant
            i <= chars.len(),
            chars.len() == lower.len(),
            lower.len() == upper.len(),
            forall|k: int| 0 <= k < i ==> #[trigger] chars@[k] == lower@[k] || chars@[k] == upper@[k],
        decreases chars.len() - i,
    {
        if !(chars[i] == lower[i] || chars[i] == upper[i]) {
            return false;
        }
        i = i + 1;
    }
    true
}

fn scan_digits(chars: &[char], from: usize) -> (r: usize)
    requires
        from <= chars.len(),
    ensures
        r == digits_end(chars@, from as int),
        from <= r <= chars.len(),
{
    let mut i: usize = from;
    while i < chars.len() && char_is_digit(chars[i])
        invariant
            from <= i <= chars.len(),
            digits_end(chars@, i as int) == digits_end(chars@, from as int),
        decreases chars.len() - i,
    {
        i = i + 1;
    }
    i
}

fn exponent_at(chars: &[char], at: usize) -> (r: bool)
    requires
        at < chars.len(),
    ensures
        r == is_exponent(chars@, at as int),
{
    let c = chars[at];
    if !(c == 'e' || c == 'E') {
        return false;
    }
    let mut digits: usize = at + 1;
    if digits < chars.len() && (chars[digits] == '+' || chars[digits] == '-') {
        digits = digits + 1;
    }
    if digits >= chars.len() {
        return false;
    }
    scan_digits(chars, digits) == chars.len()
}

fn decimal(chars: &[char]) -> (r: bool)
    ensures
        r == is_decimal(chars@),
{
    let whole = scan_digits(chars, 0);
    let pointed = whole < chars.len() && chars[whole] == '.';
    let mantissa = if pointed {
        scan_digits(chars, whole + 1)
    } else {
        whole
    };
    let digits = if pointed {
        mantissa - 1
    } else {
        mantissa
    };
    if digits < 1 {
        return false;
    }
    mantissa == chars.len() || exponent_at(chars, mantissa)
}

/// Whether `chars` is a number literal.
pub fn number_literal(chars: &[char]) -> (r: bool)
    ensures
        r == is_number_literal(chars@),
{
    let body = if chars.len() > 0 && (chars[0] == '+' || chars[0] == '-') {
        &chars[1..chars.len()]
    } else {
        chars
    };
    assert(body@ == unsigned(chars@));
    let inf = (['i', 'n', 'f'], ['I', 'N', 'F']);
    let infinity = (['i', 'n', 'f', 'i', 'n', 'i', 't', 'y'], ['I', 'N', 'F', 'I', 'N', 'I', 'T', 'Y']);
    let nan = (['n', 'a', 'n'], ['N', 'A', 'N']);
    assert(inf.0@ =~= seq!['i', 'n', 'f'] && inf.1@ =~= seq!['I', 'N', 'F']);
    assert(infinity.0@ =~= seq!['i', 'n', 'f', 'i', 'n', 'i', 't', 'y']);
    assert(infinity.1@ =~= seq!['I', 'N', 'F', 'I', 'N', 'I', 'T', 'Y']);
    assert(nan.0@ =~= seq!['n', 'a', 'n'] && nan.1@ =~= seq!['N', 'A', 'N']);
    spells_word(body, &inf.0, &inf.1) || spells_word(body, &infinity.0, &infinity.1)
        || spells_word(body, &nan.0, &nan.1) || decimal(body)
}

} // verus!
