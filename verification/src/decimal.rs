//! Decimal text of integers.

use vstd::prelude::*;

verus! {

/// The decimal digits of `n` in ASCII, most significant first, without
/// leading zeros.
pub open spec fn digits(n: nat) -> Seq<u8>
    decreases n,
{
    if n < 10 {
        seq![(0x30 + n) as u8]
    } else {
        digits(n / 10).push((0x30 + n % 10) as u8)
    }
}

/// The decimal text of `v` in ASCII: a minus sign where `v` is negative, then
/// the digits of its magnitude.
pub open spec fn decimal(v: int) -> Seq<u8> {
    if v < 0 {
        seq![0x2Du8] + digits((-v) as nat)
    } else {
        digits(v as nat)
    }
}

/// The digits in `rev`, last pushed first.
pub open spec fn backwards(rev: Seq<u8>) -> Seq<u8> {
    Seq::new(rev.len(), |i: int| rev[rev.len() - 1 - i])
}

/// The decimal text of `v`, as `format!("{}", v)` would write it.
pub fn decimal_bytes(v: i64) -> (r: Vec<u8>)
    ensures
        r@ == decimal(v as int),
{
    let negative = v < 0;
    let magnitude: u64 = if negative {
        (-(v + 1)) as u64 + 1
    } else {
        v as u64
    };
    let mut rev: Vec<u8> = Vec::new();
    let mut rest: u64 = magnitude;
    while rest >= 10
        invariant
            digits(magnitude as nat) == digits(rest as nat) + backwards(rev@),
        decreases rest,
    {
        let digit: u8 = 0x30 + (rest % 10) as u8;
        proof {
            let d = digits((rest / 10) as nat);
            assert(digits(rest as nat) == d.push(digit));
            assert(d.push(digit) + backwards(rev@) =~= d + backwards(rev@.push(digit)));
        }
        rev.push(digit);
        rest = rest / 10;
    }
    let mut out: Vec<u8> = Vec::new();
    if negative {
        out.push(0x2D);
    }
    out.push(0x30 + rest as u8);
    let ghost head = out@;
    let mut i: usize = rev.len();
    while i > 0
        invariant
            i <= rev@.len(),
            out@ == head + backwards(rev@).take(rev@.len() - i),
        decreases i,
    {
        i = i - 1;
        out.push(rev[i]);
        assert(out@ =~= head + backwards(rev@).take(rev@.len() - i));
    }
    assert(out@ =~= head + backwards(rev@));
    assert(head =~= if negative {
        seq![0x2Du8] + digits(rest as nat)
    } else {
        digits(rest as nat)
    });
    assert(out@ =~= decimal(v as int));
    out
}

/// Whether `b` is an ASCII digit.
pub open spec fn is_digit(b: u8) -> bool {
    0x30 <= b <= 0x39
}

/// An ASCII capital letter as its small letter, any other byte as itself.
pub open spec fn lower(b: u8) -> u8 {
    if 0x41 <= b <= 0x5A {
        (b + 0x20) as u8
    } else {
        b
    }
}

/// Index of the first byte of `s` at or behind `from` that is no digit, or
/// the length of `s` where only digits follow.
pub open spec fn digits_end(s: Seq<u8>, from: int) -> int
    decreases s.len() - from,
{
    if 0 <= from < s.len() && is_digit(s[from]) {
        digits_end(s, from + 1)
    } else {
        from
    }
}

/// Index behind the sign that may stand at `from`.
pub open spec fn sign_end(s: Seq<u8>, from: int) -> int {
    if 0 <= from < s.len() && (s[from] == 0x2B || s[from] == 0x2D) {
        from + 1
    } else {
        from
    }
}

/// Whether `s` from `from` to its end is `word`, letter case aside.
pub open spec fn is_word(s: Seq<u8>, from: int, word: Seq<u8>) -> bool {
    &&& s.len() - from == word.len()
    &&& forall|i: int| 0 <= i < word.len() ==> lower(#[trigger] s[from + i]) == word[i]
}

/// Whether `s` from `from` to its end is a number: digits with at most one
/// point among them and at least one digit in all, then, if anything
/// follows, the letter `e`, a sign or none, and at least one digit.
pub open spec fn is_number(s: Seq<u8>, from: int) -> bool {
    let whole = digits_end(s, from);
    let point = whole < s.len() && s[whole] == 0x2E;
    let mantissa = if point {
        digits_end(s, whole + 1)
    } else {
        whole
    };
    let count = if point {
        mantissa - from - 1
    } else {
        mantissa - from
    };
    if count <= 0 {
        false
    } else if mantissa == s.len() {
        true
    } else if lower(s[mantissa]) != 0x65 {
        false
    } else {
        let exponent = sign_end(s, mantissa + 1);
        exponent < digits_end(s, exponent) == s.len()
    }
}

/// Whether `s` is the text of a floating-point number: a sign or none, then
/// `inf`, `infinity` or `nan` in any letter case, or a number.
pub open spec fn is_decimal_float(s: Seq<u8>) -> bool {
    let from = sign_end(s, 0);
    ||| is_word(s, from, seq![0x69u8, 0x6E, 0x66])
    ||| is_word(s, from, seq![0x69u8, 0x6E, 0x66, 0x69, 0x6E, 0x69, 0x74, 0x79])
    ||| is_word(s, from, seq![0x6Eu8, 0x61, 0x6E])
    ||| is_number(s, from)
}

/// Whether the bytes of `s` from `from` up to `to` are digits.
pub open spec fn all_digits(s: Seq<u8>, from: int, to: int) -> bool {
    forall|i: int| from <= i < to ==> is_digit(#[trigger] s[i])
}

/// Whether the bytes of `s` from `from` up to `to` are a mantissa: digits
/// only, or digits before and behind one point, with at least one digit.
pub open spec fn is_mantissa(s: Seq<u8>, from: int, to: int) -> bool {
    exists|point: int|
        {
            &&& from <= point <= to
            &&& #[trigger] all_digits(s, from, point)
            &&& if point == to {
                from < to
            } else {
                s[point] == 0x2E && all_digits(s, point + 1, to) && from + 1 < to
            }
        }
}

/// Whether `s` from `from` to its end is an exponent: the letter `e`, a sign
/// or none, and at least one digit.
pub open spec fn is_exponent(s: Seq<u8>, from: int) -> bool {
    &&& from < s.len()
    &&& lower(s[from]) == 0x65
    &&& sign_end(s, from + 1) < s.len()
    &&& all_digits(s, sign_end(s, from + 1), s.len() as int)
}

/// Whether `s` from `from` to its end is a mantissa and, if anything
/// follows it, an exponent.
pub open spec fn is_mantissa_and_exponent(s: Seq<u8>, from: int) -> bool {
    exists|to: int|
        {
            &&& from <= to <= s.len()
            &&& #[trigger] is_mantissa(s, from, to)
            &&& to == s.len() || is_exponent(s, to)
        }
}

/// The digits that start at `from` run up to the first byte that is none.
pub proof fn lemma_digits_end(s: Seq<u8>, from: int)
    requires
        0 <= from <= s.len(),
    ensures
        from <= digits_end(s, from) <= s.len(),
        all_digits(s, from, digits_end(s, from)),
        digits_end(s, from) < s.len() ==> !is_digit(s[digits_end(s, from)]),
    decreases s.len() - from,
{
    if from < s.len() && is_digit(s[from]) {
        lemma_digits_end(s, from + 1);
    }
}

/// A run of digits that ends before a byte that is none, or at the end of
/// `s`, is the run that `digits_end` finds.
pub proof fn lemma_digits_run(s: Seq<u8>, from: int, to: int)
    requires
        0 <= from <= to <= s.len(),
        all_digits(s, from, to),
        to < s.len() ==> !is_digit(s[to]),
    ensures
        digits_end(s, from) == to,
    decreases to - from,
{
    if from < to {
        assert(is_digit(s[from]));
        lemma_digits_run(s, from + 1, to);
    }
}

/// The grammar of numbers. What `is_number` accepts is a mantissa with an
/// exponent or without one, and nothing else.
pub proof fn number_grammar(s: Seq<u8>, from: int)
    requires
        0 <= from <= s.len(),
    ensures
        is_number(s, from) <==> is_mantissa_and_exponent(s, from),
{
    let whole = digits_end(s, from);
    lemma_digits_end(s, from);
    let point = whole < s.len() && s[whole] == 0x2E;
    let mantissa = if point {
        digits_end(s, whole + 1)
    } else {
        whole
    };
    if point {
        lemma_digits_end(s, whole + 1);
    }
    if is_number(s, from) {
        assert(all_digits(s, from, whole));
        assert(is_mantissa(s, from, mantissa));
        if mantissa < s.len() {
            let exponent = sign_end(s, mantissa + 1);
            lemma_digits_end(s, exponent);
        }
        assert(is_mantissa_and_exponent(s, from));
    }
    if is_mantissa_and_exponent(s, from) {
        let to = choose|to: int|
            {
                &&& from <= to <= s.len()
                &&& #[trigger] is_mantissa(s, from, to)
                &&& to == s.len() || is_exponent(s, to)
            };
        let p = choose|p: int|
            {
                &&& from <= p <= to
                &&& #[trigger] all_digits(s, from, p)
                &&& if p == to {
                    from < to
                } else {
                    s[p] == 0x2E && all_digits(s, p + 1, to) && from + 1 < to
                }
            };
        lemma_digits_run(s, from, p);
        if p < to {
            lemma_digits_run(s, p + 1, to);
        }
        assert(mantissa == to);
        if to < s.len() {
            let exponent = sign_end(s, to + 1);
            lemma_digits_run(s, exponent, s.len() as int);
        }
    }
}

/// Whether `b` is an ASCII digit.
pub fn is_digit_byte(b: u8) -> (r: bool)
    ensures
        r == is_digit(b),
{
    0x30 <= b && b <= 0x39
}

/// A byte as its small letter.
fn to_lower(b: u8) -> (r: u8)
    ensures
        r == lower(b),
{
    if 0x41 <= b && b <= 0x5A {
        b + 0x20
    } else {
        b
    }
}

/// Index of the first byte at or behind `from` that is no digit.
fn skip_digits(s: &[u8], from: usize) -> (r: usize)
    requires
        from <= s@.len(),
    ensures
        r == digits_end(s@, from as int),
        from <= r <= s@.len(),
{
    let mut at: usize = from;
    while at < s.len() && is_digit_byte(s[at])
        invariant
            from <= at <= s@.len(),
            digits_end(s@, from as int) == digits_end(s@, at as int),
        decreases s@.len() - at,
    {
        at = at + 1;
    }
    at
}

/// Index behind the sign that may stand at `from`.
fn skip_sign(s: &[u8], from: usize) -> (r: usize)
    requires
        from <= s@.len(),
    ensures
        r == sign_end(s@, from as int),
        from <= r <= s@.len(),
{
    if from < s.len() && (s[from] == 0x2B || s[from] == 0x2D) {
        from + 1
    } else {
        from
    }
}

/// Whether `s` from `from` to its end is `word`, letter case aside.
fn matches_word(s: &[u8], from: usize, word: &[u8]) -> (r: bool)
    requires
        from <= s@.len(),
    ensures
        r == is_word(s@, from as int, word@),
{
    if s.len() - from != word.len() {
        return false;
    }
    let mut i: usize = 0;
    while i < word.len()
        invariant
            i <= word@.len(),
            from <= s@.len() <= usize::MAX,
            s@.len() - from == word@.len(),
            forall|j: int| 0 <= j < i ==> lower(#[trigger] s@[from + j]) == word@[j],
        decreases word@.len() - i,
    {
        if to_lower(s[from + i]) != word[i] {
            return false;
        }
        i = i + 1;
    }
    true
}

/// Whether `s` from `from` to its end is a number.
fn matches_number(s: &[u8], from: usize) -> (r: bool)
    requires
        from <= s@.len(),
    ensures
        r == is_number(s@, from as int),
{
    let whole = skip_digits(s, from);
    let point = whole < s.len() && s[whole] == 0x2E;
    let mantissa = if point {
        skip_digits(s, whole + 1)
    } else {
        whole
    };
    let count = if point {
        mantissa - from - 1
    } else {
        mantissa - from
    };
    if count == 0 {
        return false;
    }
    if mantissa == s.len() {
        return true;
    }
    if to_lower(s[mantissa]) != 0x65 {
        return false;
    }
    let exponent = skip_sign(s, mantissa + 1);
    let end = skip_digits(s, exponent);
    exponent < end && end == s.len()
}

/// Whether `s` is the text of a floating-point number.
pub fn is_float_text(s: &[u8]) -> (r: bool)
    ensures
        r == is_decimal_float(s@),
{
    let from = skip_sign(s, 0);
    let inf: [u8; 3] = [0x69, 0x6E, 0x66];
    let infinity: [u8; 8] = [0x69, 0x6E, 0x66, 0x69, 0x6E, 0x69, 0x74, 0x79];
    let nan: [u8; 3] = [0x6E, 0x61, 0x6E];
    assert(inf@ =~= seq![0x69u8, 0x6E, 0x66]);
    assert(infinity@ =~= seq![0x69u8, 0x6E, 0x66, 0x69, 0x6E, 0x69, 0x74, 0x79]);
    assert(nan@ =~= seq![0x6Eu8, 0x61, 0x6E]);
    matches_word(s, from, inf.as_slice()) || matches_word(s, from, infinity.as_slice())
        || matches_word(s, from, nan.as_slice()) || matches_number(s, from)
}

} // verus!
