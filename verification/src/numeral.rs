//! Decimal numerals on the wire: the digits of an integer and the integer
//! of a run of digits.

use crate::text::{lower, lowered};
use vstd::prelude::*;

verus! {

/// ASCII `0`.
pub const ZERO: u8 = 48;

/// ASCII `+`.
pub const PLUS: u8 = 43;

/// ASCII `-`.
pub const MINUS: u8 = 45;

/// Whether `b` is one of the ASCII digits `0` to `9`.
pub open spec fn is_digit(b: u8) -> bool {
    48 <= b <= 57
}

/// Whether every byte of `s` is an ASCII digit.
pub open spec fn all_digits(s: Seq<u8>) -> bool {
    forall|i: int| 0 <= i < s.len() ==> is_digit(#[trigger] s[i])
}

/// The number that a run of decimal digits denotes, most significant first.
pub open spec fn digits_value(s: Seq<u8>) -> nat
    decreases s.len(),
{
    if s.len() == 0 {
        0
    } else {
        (digits_value(s.drop_last()) * 10 + (s.last() - 48)) as nat
    }
}

/// The shortest decimal numeral of `n`: no sign, no leading zero but for `0`
/// itself.
pub open spec fn decimal_digits(n: nat) -> Seq<u8>
    decreases n,
{
    if n < 10 {
        seq![(48 + n) as u8]
    } else {
        decimal_digits(n / 10).push((48 + n % 10) as u8)
    }
}

/// Whether `s` begins with a sign.
pub open spec fn has_sign(s: Seq<u8>) -> bool {
    s.len() > 0 && (s[0] == 43 || s[0] == 45)
}

/// The digits of a numeral: `s` without its sign, if it has one.
pub open spec fn unsigned_part(s: Seq<u8>) -> Seq<u8> {
    if has_sign(s) {
        s.subrange(1, s.len() as int)
    } else {
        s
    }
}

/// Whether `s` is a decimal numeral: an optional sign, then one digit or more.
pub open spec fn is_numeral(s: Seq<u8>) -> bool {
    unsigned_part(s).len() > 0 && all_digits(unsigned_part(s))
}

/// The integer that the numeral `s` denotes.
pub open spec fn numeral_value(s: Seq<u8>) -> int {
    if s.len() > 0 && s[0] == 45 {
        -(digits_value(unsigned_part(s)) as int)
    } else {
        digits_value(unsigned_part(s)) as int
    }
}

/// The 64-bit signed integer written in `s`, if `s` is a numeral whose value
/// fits.
pub open spec fn parse_i64(s: Seq<u8>) -> Option<i64> {
    if is_numeral(s) && i64::MIN <= numeral_value(s) <= i64::MAX {
        Some(numeral_value(s) as i64)
    } else {
        None
    }
}

/// The numeral of `v` with its sign always written: `+` for zero and above,
/// `-` below.
pub open spec fn signed_digits(v: i64) -> Seq<u8> {
    if v < 0 {
        seq![45u8] + decimal_digits((-(v as int)) as nat)
    } else {
        seq![43u8] + decimal_digits(v as nat)
    }
}

/// A run of digits never denotes less when a digit is appended.
pub proof fn lemma_digits_value_push(s: Seq<u8>, d: u8)
    requires
        is_digit(d),
    ensures
        digits_value(s.push(d)) == digits_value(s) * 10 + (d - 48),
{
    assert(s.push(d).drop_last() =~= s);
}

/// The numeral of `n` is made of digits, is not empty, and denotes `n`.
pub proof fn lemma_decimal_digits(n: nat)
    ensures
        decimal_digits(n).len() >= 1,
        all_digits(decimal_digits(n)),
        digits_value(decimal_digits(n)) == n,
    decreases n,
{
    if n < 10 {
        let s = decimal_digits(n);
        assert(s.drop_last() =~= Seq::<u8>::empty());
        assert(digits_value(s.drop_last()) == 0);
    } else {
        lemma_decimal_digits(n / 10);
        lemma_digits_value_push(decimal_digits(n / 10), (48 + n % 10) as u8);
    }
}

/// Reading back the signed numeral of `v` gives `v`.
pub proof fn lemma_parse_signed_digits(v: i64)
    ensures
        parse_i64(signed_digits(v)) == Some(v),
{
    let s = signed_digits(v);
    let m: nat = if v < 0 { (-(v as int)) as nat } else { v as nat };
    lemma_decimal_digits(m);
    assert(unsigned_part(s) =~= decimal_digits(m));
}

/// Reading back the unsigned numeral of `n` gives `n`.
pub proof fn lemma_parse_decimal_digits(n: nat)
    requires
        n <= i64::MAX,
    ensures
        parse_i64(decimal_digits(n)) == Some(n as i64),
{
    lemma_decimal_digits(n);
    let s = decimal_digits(n);
    assert(is_digit(s[0]));
    assert(!has_sign(s));
}

/// Appends the shortest decimal numeral of `n` to `out`.
pub fn push_decimal(out: &mut Vec<u8>, n: u64)
    ensures
        final(out)@ == old(out)@ + decimal_digits(n as nat),
    decreases n,
{
    if n < 10 {
        let d: u8 = 48 + (n as u8);
        out.push(d);
        assert(final(out)@ =~= old(out)@ + decimal_digits(n as nat));
    } else {
        push_decimal(out, n / 10);
        let d: u8 = 48 + ((n % 10) as u8);
        out.push(d);
        assert(out@ =~= old(out)@ + decimal_digits(n as nat));
    }
}

/// Appends the numeral of `v` with its sign written out.
pub fn push_signed(out: &mut Vec<u8>, v: i64)
    ensures
        final(out)@ == old(out)@ + signed_digits(v),
{
    if v < 0 {
        out.push(45u8);
        let m: u64 = if v == i64::MIN {
            9223372036854775808u64
        } else {
            (-v) as u64
        };
        push_decimal(out, m);
        assert(out@ =~= old(out)@ + signed_digits(v));
    } else {
        out.push(43u8);
        push_decimal(out, v as u64);
        assert(out@ =~= old(out)@ + signed_digits(v));
    }
}

/// Reads the numeral in `s[from..to]` as a 64-bit signed integer: an optional
/// sign, then digits only; `None` where it is no numeral or does not fit.
pub fn read_i64(s: &[u8], from: usize, to: usize) -> (r: Option<i64>)
    requires
        from <= to <= s@.len(),
    ensures
        r == parse_i64(s@.subrange(from as int, to as int)),
{
    let ghost text = s@.subrange(from as int, to as int);
    if from == to {
        return None;
    }
    let first: u8 = s[from];
    let negative: bool = first == 45u8;
    let start: usize = if first == 45u8 || first == 43u8 { from + 1 } else { from };
    assert(text[0] == first);
    let ghost body = unsigned_part(text);
    assert(body =~= s@.subrange(start as int, to as int));
    if start == to {
        return None;
    }
    let mut acc: u64 = 0;
    let mut over: bool = false;
    let mut i: usize = start;
    let limit: u64 = 9223372036854775808u64;
    while i < to
        invariant
            from <= start <= i <= to <= s@.len(),
            text == s@.subrange(from as int, to as int),
            body == unsigned_part(text),
            body == s@.subrange(start as int, to as int),
            limit == 9223372036854775808u64,
            all_digits(body.subrange(0, i - start)),
            !over ==> acc == digits_value(body.subrange(0, i - start)) && acc <= limit,
            over ==> digits_value(body.subrange(0, i - start)) > limit,
        decreases to - i,
    {
        let b: u8 = s[i];
        let ghost before = body.subrange(0, i - start);
        let ghost after = body.subrange(0, i - start + 1);
        assert(body[i - start] == b);
        if b < 48u8 || b > 57u8 {
            assert(!is_digit(body[i - start]));
            return None;
        }
        proof {
            assert(after =~= before.push(b));
            lemma_digits_value_push(before, b);
            assert forall|k: int| 0 <= k < after.len() implies is_digit(#[trigger] after[k]) by {
                if k < before.len() {
                    assert(after[k] == before[k]);
                }
            }
        }
        let d: u64 = (b - 48u8) as u64;
        if over {
        } else if acc > 922337203685477580u64 {
            over = true;
        } else {
            let next: u64 = acc * 10 + d;
            if next > limit {
                over = true;
            } else {
                acc = next;
            }
        }
        i = i + 1;
    }
    assert(body.subrange(0, to - start) =~= body);
    if over {
        None
    } else if negative {
        if acc == limit {
            Some(i64::MIN)
        } else {
            Some(-(acc as i64))
        }
    } else if acc > 9223372036854775807u64 {
        None
    } else {
        Some(acc as i64)
    }
}

/// The index at which the run of digits that starts at `from` ends: the first
/// index at or after `from` that holds no digit, or the length of `s`.
pub open spec fn digit_run_end(s: Seq<u8>, from: int) -> int
    decreases s.len() - from,
{
    if 0 <= from < s.len() && is_digit(s[from]) {
        digit_run_end(s, from + 1)
    } else {
        from
    }
}

/// The bytes of `inf`.
pub open spec fn word_inf() -> Seq<u8> {
    seq![105u8, 110u8, 102u8]
}

/// The bytes of `infinity`.
pub open spec fn word_infinity() -> Seq<u8> {
    seq![105u8, 110u8, 102u8, 105u8, 110u8, 105u8, 116u8, 121u8]
}

/// The bytes of `nan`.
pub open spec fn word_nan() -> Seq<u8> {
    seq![110u8, 97u8, 110u8]
}

/// Whether `s` from `from` on spells, in any case, an infinity or a NaN.
pub open spec fn is_special(s: Seq<u8>, from: int) -> bool {
    let word = lowered(s.subrange(from, s.len() as int));
    word == word_inf() || word == word_infinity() || word == word_nan()
}

/// Whether `s` from `from` on is an exponent: `e` or `E`, an optional sign,
/// then one digit or more up to the end of `s`.
pub open spec fn is_exponent(s: Seq<u8>, from: int) -> bool {
    let digits = if from + 1 < s.len() && (s[from + 1] == 43 || s[from + 1] == 45) {
        from + 2
    } else {
        from + 1
    };
    &&& 0 <= from < s.len()
    &&& lower(s[from]) == 101
    &&& digits < s.len()
    &&& digit_run_end(s, digits) == s.len()
}

/// Whether `s` from `from` on is a decimal number: digits with at most one
/// point among them, one digit at least, then nothing or an exponent.
pub open spec fn is_number(s: Seq<u8>, from: int) -> bool {
    let whole_end = digit_run_end(s, from);
    let pointed = whole_end < s.len() && s[whole_end] == 46;
    let fraction = if pointed { whole_end + 1 } else { whole_end };
    let fraction_end = if pointed { digit_run_end(s, fraction) } else { fraction };
    &&& (whole_end - from) + (fraction_end - fraction) > 0
    &&& (fraction_end == s.len() || is_exponent(s, fraction_end))
}

/// Whether `s` is the text of a floating-point number: an optional sign, then
/// an infinity, a NaN or a decimal number.
pub open spec fn is_double_literal(s: Seq<u8>) -> bool {
    let from: int = if has_sign(s) { 1 } else { 0 };
    is_special(s, from) || is_number(s, from)
}

/// The end of the run of digits that starts at `from`.
pub fn scan_digits(s: &[u8], from: usize) -> (end: usize)
    requires
        from <= s@.len(),
    ensures
        end == digit_run_end(s@, from as int),
        from <= end <= s@.len(),
{
    let mut i: usize = from;
    while i < s.len() && s[i] >= 48u8 && s[i] <= 57u8
        invariant
            from <= i <= s@.len(),
            digit_run_end(s@, from as int) == digit_run_end(s@, i as int),
        decreases s@.len() - i,
    {
        i = i + 1;
    }
    i
}

/// Whether `s` from `from` on equals `word` once capitals are lowered.
fn spells(s: &[u8], from: usize, word: &[u8]) -> (r: bool)
    requires
        from <= s@.len(),
    ensures
        r == (lowered(s@.subrange(from as int, s@.len() as int)) == word@),
{
    let ghost rest = s@.subrange(from as int, s@.len() as int);
    let n: usize = s.len();
    if n - from != word.len() {
        assert(lowered(rest).len() != word@.len());
        return false;
    }
    let mut i: usize = 0;
    while i < word.len()
        invariant
            from <= s@.len() == n,
            rest == s@.subrange(from as int, s@.len() as int),
            s@.len() - from == word@.len(),
            i <= word@.len(),
            forall|k: int| 0 <= k < i ==> lowered(rest)[k] == word@[k],
        decreases word@.len() - i,
    {
        let b: u8 = s[from + i];
        let low: u8 = if b >= 65u8 && b <= 90u8 { b + 32u8 } else { b };
        assert(rest[i as int] == b);
        if low != word[i] {
            assert(lowered(rest)[i as int] != word@[i as int]);
            return false;
        }
        i = i + 1;
    }
    assert(lowered(rest) =~= word@);
    true
}

/// Whether `s` is the text of a floating-point number.
pub fn check_double_literal(s: &[u8]) -> (r: bool)
    ensures
        r == is_double_literal(s@),
{
    let n: usize = s.len();
    let from: usize = if n > 0 && (s[0] == 43u8 || s[0] == 45u8) { 1 } else { 0 };
    let inf: [u8; 3] = [105u8, 110u8, 102u8];
    let infinity: [u8; 8] = [105u8, 110u8, 102u8, 105u8, 110u8, 105u8, 116u8, 121u8];
    let nan: [u8; 3] = [110u8, 97u8, 110u8];
    assert(inf@ =~= word_inf());
    assert(infinity@ =~= word_infinity());
    assert(nan@ =~= word_nan());
    if spells(s, from, inf.as_slice()) || spells(s, from, infinity.as_slice()) || spells(
        s,
        from,
        nan.as_slice(),
    ) {
        return true;
    }
    let whole_end: usize = scan_digits(s, from);
    let pointed: bool = whole_end < n && s[whole_end] == 46u8;
    let fraction: usize = if pointed { whole_end + 1 } else { whole_end };
    let fraction_end: usize = if pointed { scan_digits(s, fraction) } else { fraction };
    if (whole_end - from) + (fraction_end - fraction) == 0 {
        return false;
    }
    if fraction_end == n {
        return true;
    }
    let mark: u8 = s[fraction_end];
    if mark != 101u8 && mark != 69u8 {
        return false;
    }
    let digits: usize = if fraction_end + 1 < n && (s[fraction_end + 1] == 43u8 || s[fraction_end
        + 1] == 45u8) {
        fraction_end + 2
    } else {
        fraction_end + 1
    };
    if digits >= n {
        return false;
    }
    scan_digits(s, digits) == n
}

} // verus!
