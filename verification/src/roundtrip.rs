//! Reading what was written: the bytes that the encoder writes for a frame
//! are read back as that frame, wherever in a buffer they stand.

use crate::encode::{crlf, header, line, wire, wire_all, wire_entries};
use crate::error::RespError;
use crate::dict::{keys_ascending, lemma_insert_last};
use crate::frame::{well_formed, Frame};
use crate::numeral::{
    decimal_digits, digit_run_end, digits_value, has_sign, is_digit, is_double_literal, is_special,
    lemma_decimal_digits, lemma_parse_decimal_digits, lemma_parse_signed_digits, parse_i64,
    signed_digits, unsigned_part, word_inf, word_infinity, word_nan,
};
use crate::parse::{
    dict_of, lemma_line_end_is, parse_count, parse_entries, parse_frame, parse_items, parse_line,
};
use crate::prefix::lemma_frame_take;
use crate::text::{lower, lowered};
use vstd::prelude::*;
use vstd::utf8::*;

verus! {

/// Whether `t` is free of carriage returns and line feeds, so that it fits
/// on one line.
pub open spec fn one_line(t: Seq<u8>) -> bool {
    forall|i: int| 0 <= i < t.len() ==> #[trigger] t[i] != 13 && t[i] != 10
}

/// Whether `f` can go over the wire and back: its simple strings, simple
/// errors and keys fit on one line, and each of its counts fits a signed
/// integer of 64 bits.
pub open spec fn plain(f: Frame) -> bool
    decreases f,
{
    match f {
        Frame::SimpleString(t) => one_line(t),
        Frame::Error(t) => one_line(t),
        Frame::BulkString(b) => b.len() <= i64::MAX,
        Frame::Array(items) => items.len() <= i64::MAX && forall|i: int|
            0 <= i < items.len() ==> plain(#[trigger] items[i]),
        Frame::Group(items) => items.len() <= i64::MAX && forall|i: int|
            0 <= i < items.len() ==> plain(#[trigger] items[i]),
        Frame::Dict(entries) => entries.len() <= i64::MAX && forall|i: int|
            0 <= i < entries.len() ==> one_line((#[trigger] entries[i]).0) && plain(entries[i].1),
        _ => true,
    }
}

/// Whether the bytes `w` stand in `s` from `at` on.
pub open spec fn occurs(s: Seq<u8>, at: int, w: Seq<u8>) -> bool {
    0 <= at && at + w.len() <= s.len() && s.subrange(at, at + w.len()) == w
}

/// Where `x` followed by `y` stands, `x` stands, and `y` behind it.
pub proof fn lemma_occurs_split(s: Seq<u8>, at: int, x: Seq<u8>, y: Seq<u8>)
    requires
        occurs(s, at, x + y),
    ensures
        occurs(s, at, x),
        occurs(s, at + x.len(), y),
{
    let w = x + y;
    let here = s.subrange(at, at + w.len());
    assert forall|i: int| 0 <= i < x.len() implies s.subrange(at, at + x.len())[i] == x[i] by {
        assert(here[i] == w[i]);
    }
    assert(s.subrange(at, at + x.len()) =~= x);
    assert forall|i: int| 0 <= i < y.len() implies s.subrange(
        at + x.len(),
        at + x.len() + y.len(),
    )[i] == y[i] by {
        assert(here[x.len() + i] == w[x.len() + i]);
    }
    assert(s.subrange(at + x.len(), at + x.len() + y.len()) =~= y);
}

/// A line that stands at `at` is read as its payload, where the payload
/// holds no carriage return.
pub proof fn lemma_line_occurs(s: Seq<u8>, at: int, tag: u8, payload: Seq<u8>)
    requires
        occurs(s, at, line(tag, payload)),
        forall|i: int| 0 <= i < payload.len() ==> payload[i] != 13,
    ensures
        parse_line(s, at, tag) == Ok::<(Seq<u8>, int), RespError>(
            (payload, at + payload.len() + 3),
        ),
{
    let w = line(tag, payload);
    let here = s.subrange(at, at + w.len());
    let e = at + 1 + payload.len();
    assert(w.len() == payload.len() + 3);
    assert(here[0] == w[0]);
    assert(here[e - at] == w[e - at]);
    assert(here[e - at + 1] == w[e - at + 1]);
    assert forall|i: int| at + 1 <= i < e implies !(#[trigger] s[i] == 13 && s[i + 1] == 10) by {
        assert(here[i - at] == w[i - at]);
        assert(w[i - at] == payload[i - at - 1]);
    }
    lemma_line_end_is(s, at + 1, e);
    assert forall|i: int| 0 <= i < payload.len() implies s.subrange(at + 1, e)[i] == payload[i] by {
        assert(here[i + 1] == w[i + 1]);
    }
    assert(s.subrange(at + 1, e) =~= payload);
}

/// The run of digits that starts at `from` holds digits only and ends
/// within `s`.
pub proof fn lemma_digit_run(s: Seq<u8>, from: int)
    requires
        0 <= from <= s.len(),
    ensures
        from <= digit_run_end(s, from) <= s.len(),
        forall|i: int| from <= i < digit_run_end(s, from) ==> is_digit(#[trigger] s[i]),
    decreases s.len() - from,
{
    if from < s.len() && is_digit(s[from]) {
        lemma_digit_run(s, from + 1);
    }
}

/// The text of a number holds no carriage return.
pub proof fn lemma_double_literal_one_line(t: Seq<u8>)
    requires
        is_double_literal(t),
    ensures
        forall|i: int| 0 <= i < t.len() ==> t[i] != 13,
{
    let from: int = if has_sign(t) { 1 } else { 0 };
    assert forall|i: int| 0 <= i < t.len() implies t[i] != 13 by {
        if i < from {
        } else if is_special(t, from) {
            let rest = t.subrange(from, t.len() as int);
            let word = lowered(rest);
            assert(word[i - from] == lower(rest[i - from]));
            assert(rest[i - from] == t[i]);
            if word == word_inf() {
                assert(word_inf().len() == 3);
                assert(word_inf()[0] == 105 && word_inf()[1] == 110 && word_inf()[2] == 102);
            } else if word == word_nan() {
                assert(word_nan().len() == 3);
                assert(word_nan()[0] == 110 && word_nan()[1] == 97 && word_nan()[2] == 110);
            } else {
                let w = word_infinity();
                assert(w.len() == 8);
                assert(w[0] == 105 && w[1] == 110 && w[2] == 102 && w[3] == 105 && w[4] == 110
                    && w[5] == 105 && w[6] == 116 && w[7] == 121);
            }
        } else {
            let whole_end = digit_run_end(t, from);
            lemma_digit_run(t, from);
            let pointed = whole_end < t.len() && t[whole_end] == 46;
            let fraction = if pointed { whole_end + 1 } else { whole_end };
            let fraction_end = if pointed { digit_run_end(t, fraction) } else { fraction };
            if pointed {
                lemma_digit_run(t, fraction);
            }
            if fraction_end < t.len() {
                let digits = if fraction_end + 1 < t.len() && (t[fraction_end + 1] == 43
                    || t[fraction_end + 1] == 45) {
                    fraction_end + 2
                } else {
                    fraction_end + 1
                };
                lemma_digit_run(t, digits);
            }
            if i < whole_end {
                assert(is_digit(t[i]));
            }
        }
    }
}

/// The numeral `-1` is read as minus one.
pub proof fn lemma_minus_one()
    ensures
        parse_i64(seq![45u8, 49u8]) == Some(-1i64),
{
    let s = seq![45u8, 49u8];
    let body = unsigned_part(s);
    assert(body =~= seq![49u8]);
    assert(body.drop_last() =~= Seq::<u8>::empty());
    assert(digits_value(body.drop_last()) == 0);
    assert(digits_value(body) == 1);
}

/// A length line that stands at `at` is read as its count.
pub proof fn lemma_count_occurs(s: Seq<u8>, at: int, tag: u8, n: nat)
    requires
        n <= i64::MAX,
        occurs(s, at, header(tag, n)),
    ensures
        parse_count(s, at, tag) == Ok::<(i64, int), RespError>(
            (n as i64, at + header(tag, n).len()),
        ),
{
    lemma_decimal_digits(n);
    lemma_parse_decimal_digits(n);
    assert(header(tag, n) =~= line(tag, decimal_digits(n)));
    lemma_line_occurs(s, at, tag, decimal_digits(n));
}

/// Binding ascending keys one after the other gives the entries as they
/// stand.
pub proof fn lemma_dict_of_ascending(entries: Seq<(Seq<u8>, Frame)>)
    requires
        keys_ascending(entries),
    ensures
        dict_of(entries) == entries,
    decreases entries.len(),
{
    if entries.len() == 0 {
        assert(entries =~= Seq::<(Seq<u8>, Frame)>::empty());
    } else {
        let front = entries.drop_last();
        lemma_dict_of_ascending(front);
        assert forall|i: int| 0 <= i < front.len() implies crate::lex::bytes_less(
            #[trigger] front[i].0,
            entries.last().0,
        ) by {
            assert(front[i] == entries[i]);
        }
        lemma_insert_last(front, entries.last().0, entries.last().1);
        assert(front.push((entries.last().0, entries.last().1)) =~= entries);
    }
}

/// The wire form of a frame, wherever it stands, is read as that frame, and
/// the reading ends where the wire form ends.
pub proof fn lemma_parse_wire(s: Seq<u8>, at: int, f: Frame)
    requires
        well_formed(f),
        plain(f),
        occurs(s, at, wire(f)),
    ensures
        parse_frame(s, at) == Ok::<(Frame, int), RespError>((f, at + wire(f).len())),
    decreases f,
{
    let w = wire(f);
    let here = s.subrange(at, at + w.len());
    match f {
        Frame::SimpleString(t) => {
            assert(here[0] == w[0]);
            lemma_line_occurs(s, at, 43, t);
        },
        Frame::Error(t) => {
            assert(here[0] == w[0]);
            lemma_line_occurs(s, at, 45, t);
        },
        Frame::Integer(v) => {
            assert(here[0] == w[0]);
            let digits = signed_digits(v);
            let m: nat = if v < 0 { (-(v as int)) as nat } else { v as nat };
            lemma_decimal_digits(m);
            lemma_parse_signed_digits(v);
            assert forall|i: int| 0 <= i < digits.len() implies digits[i] != 13 by {
                if i > 0 {
                    assert(digits[i] == decimal_digits(m)[i - 1]);
                }
            }
            lemma_line_occurs(s, at, 58, digits);
        },
        Frame::Double(t) => {
            assert(here[0] == w[0]);
            lemma_double_literal_one_line(t);
            lemma_line_occurs(s, at, 44, t);
        },
        Frame::Null => {
            assert(here[0] == w[0]);
            assert(w =~= crate::parse::null_bytes());
        },
        Frame::Boolean(b) => {
            assert(here[0] == w[0]);
            assert(w.len() == 4);
        },
        Frame::NullBulkString => {
            assert(here[0] == w[0]);
            assert(w =~= line(36, seq![45u8, 49u8]));
            lemma_minus_one();
            lemma_line_occurs(s, at, 36, seq![45u8, 49u8]);
        },
        Frame::NullArray => {
            assert(here[0] == w[0]);
            assert(w =~= line(42, seq![45u8, 49u8]));
            lemma_minus_one();
            lemma_line_occurs(s, at, 42, seq![45u8, 49u8]);
        },
        Frame::BulkString(b) => {
            assert(here[0] == w[0]);
            let h = header(36, b.len());
            assert(w =~= h + (b + crlf()));
            lemma_occurs_split(s, at, h, b + crlf());
            lemma_count_occurs(s, at, 36, b.len());
            lemma_occurs_split(s, at + h.len(), b, crlf());
        },
        Frame::Array(items) => {
            assert(here[0] == w[0]);
            let h = header(42, items.len());
            lemma_occurs_split(s, at, h, wire_all(items));
            lemma_count_occurs(s, at, 42, items.len());
            lemma_parse_wire_all(s, at + h.len(), items);
        },
        Frame::Group(items) => {
            assert(here[0] == w[0]);
            let h = header(126, items.len());
            lemma_occurs_split(s, at, h, wire_all(items));
            lemma_count_occurs(s, at, 126, items.len());
            lemma_parse_wire_all(s, at + h.len(), items);
        },
        Frame::Dict(entries) => {
            assert(here[0] == w[0]);
            let h = header(37, entries.len());
            lemma_occurs_split(s, at, h, wire_entries(entries));
            lemma_count_occurs(s, at, 37, entries.len());
            lemma_parse_wire_entries(s, at + h.len(), entries);
            lemma_dict_of_ascending(entries);
        },
    }
}

/// The wire forms of frames in a row are read as those frames.
pub proof fn lemma_parse_wire_all(s: Seq<u8>, at: int, items: Seq<Frame>)
    requires
        forall|i: int| 0 <= i < items.len() ==> well_formed(#[trigger] items[i]) && plain(items[i]),
        occurs(s, at, wire_all(items)),
    ensures
        parse_items(s, at, items.len()) == Ok::<(Seq<Frame>, int), RespError>(
            (items, at + wire_all(items).len()),
        ),
    decreases items,
{
    if items.len() == 0 {
        assert(items =~= Seq::<Frame>::empty());
    } else {
        let first = items[0];
        let rest = items.drop_first();
        lemma_occurs_split(s, at, wire(first), wire_all(rest));
        lemma_parse_wire(s, at, first);
        lemma_frame_take(s, at, s.len() as int);
        assert forall|i: int| 0 <= i < rest.len() implies well_formed(#[trigger] rest[i]) && plain(
            rest[i],
        ) by {
            assert(rest[i] == items[i + 1]);
        }
        lemma_parse_wire_all(s, at + wire(first).len(), rest);
        assert(seq![first] + rest =~= items);
    }
}

/// The wire forms of entries in a row are read as those entries.
pub proof fn lemma_parse_wire_entries(s: Seq<u8>, at: int, entries: Seq<(Seq<u8>, Frame)>)
    requires
        forall|i: int|
            0 <= i < entries.len() ==> valid_utf8((#[trigger] entries[i]).0) && one_line(
                entries[i].0,
            ) && well_formed(entries[i].1) && plain(entries[i].1),
        occurs(s, at, wire_entries(entries)),
    ensures
        parse_entries(s, at, entries.len()) == Ok::<(Seq<(Seq<u8>, Frame)>, int), RespError>(
            (entries, at + wire_entries(entries).len()),
        ),
    decreases entries,
{
    if entries.len() == 0 {
        assert(entries =~= Seq::<(Seq<u8>, Frame)>::empty());
    } else {
        let (key, value) = entries[0];
        let rest = entries.drop_first();
        let k = line(43, key);
        assert(wire_entries(entries) =~= k + (wire(value) + wire_entries(rest)));
        lemma_occurs_split(s, at, k, wire(value) + wire_entries(rest));
        lemma_line_occurs(s, at, 43, key);
        lemma_occurs_split(s, at + k.len(), wire(value), wire_entries(rest));
        lemma_parse_wire(s, at + k.len(), value);
        lemma_frame_take(s, at + k.len(), s.len() as int);
        assert forall|i: int| 0 <= i < rest.len() implies valid_utf8((#[trigger] rest[i]).0)
            && one_line(rest[i].0) && well_formed(rest[i].1) && plain(rest[i].1) by {
            assert(rest[i] == entries[i + 1]);
        }
        lemma_parse_wire_entries(s, at + k.len() + wire(value).len(), rest);
        assert(seq![(key, value)] + rest =~= entries);
    }
}

/// A byte with its highest bit set is neither a carriage return nor a line
/// feed.
proof fn lemma_high_byte(x: u8)
    ensures
        0xC0u8 | x >= 0x80u8,
        0xE0u8 | x >= 0x80u8,
        0xF0u8 | x >= 0x80u8,
        0x80u8 | x >= 0x80u8,
{
    assert(0xC0u8 | x >= 0x80u8) by (bit_vector);
    assert(0xE0u8 | x >= 0x80u8) by (bit_vector);
    assert(0xF0u8 | x >= 0x80u8) by (bit_vector);
    assert(0x80u8 | x >= 0x80u8) by (bit_vector);
}

/// The UTF-8 bytes of one character hold a carriage return or a line feed
/// only where the character is one.
proof fn lemma_one_line_scalar(v: u32)
    requires
        is_scalar(v),
    ensures
        one_line(encode_scalar(v)) <==> v != 13 && v != 10,
{
    let bytes = encode_scalar(v);
    if has_width_1_encoding(v) {
        assert(v & 0x7F == v) by (bit_vector)
            requires
                v <= 0x7F,
        ;
        assert(bytes[0] == v);
    } else {
        lemma_high_byte(((v >> 6) & 0x1F) as u8);
        lemma_high_byte(((v >> 12) & 0x0F) as u8);
        lemma_high_byte(((v >> 18) & 0x7) as u8);
        lemma_high_byte((v & 0x3F) as u8);
        lemma_high_byte(((v >> 6) & 0x3F) as u8);
        lemma_high_byte(((v >> 12) & 0x3F) as u8);
    }
}

/// A text fits on one line where none of its characters is a carriage
/// return or a line feed: its UTF-8 bytes then hold neither byte, and only
/// then.
pub proof fn lemma_one_line_text(chars: Seq<char>)
    ensures
        one_line(encode_utf8(chars)) <==> forall|i: int|
            0 <= i < chars.len() ==> #[trigger] chars[i] != '\r' && chars[i] != '\n',
    decreases chars.len(),
{
    if chars.len() > 0 {
        let first = encode_scalar(chars[0] as u32);
        let rest = chars.drop_first();
        let later = encode_utf8(rest);
        char_is_scalar(chars[0]);
        char_u32_cast(chars[0], chars[0] as u32);
        assert('\r' as u32 == 13 && '\n' as u32 == 10);
        assert(13u32 as char == '\r' && 10u32 as char == '\n');
        lemma_one_line_scalar(chars[0] as u32);
        lemma_one_line_text(rest);
        assert(encode_utf8(chars) == first + later);
        if one_line(first + later) {
            assert forall|i: int| 0 <= i < first.len() implies #[trigger] first[i] != 13
                && first[i] != 10 by {
                assert(first[i] == (first + later)[i]);
            }
            assert forall|i: int| 0 <= i < later.len() implies #[trigger] later[i] != 13
                && later[i] != 10 by {
                assert(later[i] == (first + later)[first.len() + i]);
            }
            assert forall|i: int| 0 <= i < chars.len() implies #[trigger] chars[i] != '\r'
                && chars[i] != '\n' by {
                if i > 0 {
                    assert(chars[i] == rest[i - 1]);
                }
            }
        }
        if forall|i: int| 0 <= i < chars.len() ==> #[trigger] chars[i] != '\r' && chars[i] != '\n' {
            assert forall|i: int| 0 <= i < rest.len() implies #[trigger] rest[i] != '\r' && rest[i]
                != '\n' by {
                assert(rest[i] == chars[i + 1]);
            }
            assert(chars[0] != '\r' && chars[0] != '\n');
            assert(one_line(first));
            assert(one_line(later));
        }
    }
}

} // verus!
