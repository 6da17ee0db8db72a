//! Text and bytes: when bytes are text, and letters without their case.

use vstd::prelude::*;
use vstd::string::*;
use vstd::utf8::*;

verus! {

/// `b` in lower case, where it is an ASCII capital; else `b` itself.
pub open spec fn lower(b: u8) -> u8 {
    if 65 <= b <= 90 {
        (b + 32) as u8
    } else {
        b
    }
}

/// `s` with every ASCII capital in lower case.
pub open spec fn lowered(s: Seq<u8>) -> Seq<u8> {
    Seq::new(s.len(), |i: int| lower(s[i]))
}

/// The text that `String::from_utf8_lossy` makes of bytes: the text they
/// spell, with a replacement character in place of what is not UTF-8.
pub uninterp spec fn lossy_text(bytes: Seq<u8>) -> Seq<char>;

/// `String::from_utf8`: the text that `bytes` spell, where they are UTF-8,
/// and nothing where they are not. The text holds those very bytes.
#[verifier::external_body]
pub(crate) fn text_from_utf8(bytes: Vec<u8>) -> (r: Option<String>)
    ensures
        r is Some <==> valid_utf8(bytes@),
        r matches Some(s) ==> encode_utf8(s@) == bytes@,
{
    String::from_utf8(bytes).ok()
}

/// `String::from_utf8_lossy`: the text that `bytes` spell, whatever they
/// hold.
#[verifier::external_body]
pub(crate) fn text_lossy(bytes: &[u8]) -> (r: String)
    ensures
        r@ == lossy_text(bytes@),
{
    String::from_utf8_lossy(bytes).into_owned()
}

/// A copy of `bytes` with every ASCII capital in lower case.
pub fn to_lower(bytes: &[u8]) -> (r: Vec<u8>)
    ensures
        r@ == lowered(bytes@),
{
    let mut out: Vec<u8> = Vec::new();
    let mut i: usize = 0;
    while i < bytes.len()
        invariant
            i <= bytes@.len(),
            out@.len() == i,
            forall|k: int| 0 <= k < i ==> out@[k] == lower(bytes@[k]),
        decreases bytes@.len() - i,
    {
        let b: u8 = bytes[i];
        out.push(if b >= 65u8 && b <= 90u8 { b + 32u8 } else { b });
        i = i + 1;
    }
    assert(out@ =~= lowered(bytes@));
    out
}

/// The text of the digit `d`.
pub open spec fn digit_text(d: nat) -> Seq<char> {
    if d == 0 {
        "0"@
    } else if d == 1 {
        "1"@
    } else if d == 2 {
        "2"@
    } else if d == 3 {
        "3"@
    } else if d == 4 {
        "4"@
    } else if d == 5 {
        "5"@
    } else if d == 6 {
        "6"@
    } else if d == 7 {
        "7"@
    } else if d == 8 {
        "8"@
    } else {
        "9"@
    }
}

/// The decimal text of `n`.
pub open spec fn decimal_text(n: nat) -> Seq<char>
    decreases n,
{
    if n < 10 {
        digit_text(n)
    } else {
        decimal_text(n / 10) + digit_text(n % 10)
    }
}

/// The decimal text of `n`.
pub fn decimal_string(n: u64) -> (r: String)
    ensures
        r@ == decimal_text(n as nat),
    decreases n,
{
    let d: u64 = n % 10;
    let digit: &'static str = if d == 0 {
        "0"
    } else if d == 1 {
        "1"
    } else if d == 2 {
        "2"
    } else if d == 3 {
        "3"
    } else if d == 4 {
        "4"
    } else if d == 5 {
        "5"
    } else if d == 6 {
        "6"
    } else if d == 7 {
        "7"
    } else if d == 8 {
        "8"
    } else {
        "9"
    };
    if n < 10 {
        String::from_str(digit)
    } else {
        let mut out = decimal_string(n / 10);
        out.append(digit);
        out
    }
}

/// The decimal text of `v`, with `-` before it where `v` is below zero.
pub open spec fn signed_text(v: i64) -> Seq<char> {
    if v < 0 {
        "-"@ + decimal_text((-(v as int)) as nat)
    } else {
        decimal_text(v as nat)
    }
}

/// The decimal text of `v`, with `-` before it where `v` is below zero.
pub fn signed_string(v: i64) -> (r: String)
    ensures
        r@ == signed_text(v),
{
    if v < 0 {
        let m: u64 = if v == i64::MIN {
            9223372036854775808u64
        } else {
            (-v) as u64
        };
        let mut out = String::from_str("-");
        out.append(decimal_string(m).as_str());
        out
    } else {
        decimal_string(v as u64)
    }
}

} // verus!
