//! What the decoder makes of a buffer: the frame that stands at a place in
//! it and where that frame ends, or why there is none.

use crate::error::RespError;
use crate::dict::dict_insert;
use crate::frame::Frame;
use crate::numeral::{is_double_literal, parse_i64};
use vstd::prelude::*;
use vstd::utf8::*;

verus! {

/// The index of the first line end at or after `from`: the first `e` with a
/// carriage return at `e` and a line feed at `e + 1`; `-1` where there is
/// none.
pub open spec fn line_end(s: Seq<u8>, from: int) -> int
    decreases s.len() - from,
{
    if from < 0 || from + 1 >= s.len() {
        -1
    } else if s[from] == 13 && s[from + 1] == 10 {
        from
    } else {
        line_end(s, from + 1)
    }
}

/// A line end that was found lies at or after the place the search began,
/// and within the buffer; no line end lies between the two.
pub proof fn lemma_line_end(s: Seq<u8>, from: int)
    ensures
        line_end(s, from) == -1 || (0 <= from <= line_end(s, from) && line_end(s, from) + 1
            < s.len()),
        line_end(s, from) >= 0 ==> s[line_end(s, from)] == 13 && s[line_end(s, from) + 1] == 10,
        forall|i: int|
            0 <= from <= i && i + 1 < s.len() && (line_end(s, from) == -1 || i < line_end(s, from))
                ==> !(#[trigger] s[i] == 13 && s[i + 1] == 10),
    decreases s.len() - from,
{
    if from < 0 || from + 1 >= s.len() {
    } else if s[from] == 13 && s[from + 1] == 10 {
    } else {
        lemma_line_end(s, from + 1);
    }
}

/// The line end after `from` is the index `e` where a line end stands and
/// before which, from `from` on, none does.
pub proof fn lemma_line_end_is(s: Seq<u8>, from: int, e: int)
    requires
        0 <= from <= e,
        e + 1 < s.len(),
        s[e] == 13 && s[e + 1] == 10,
        forall|i: int| from <= i < e ==> !(#[trigger] s[i] == 13 && s[i + 1] == 10),
    ensures
        line_end(s, from) == e,
    decreases e - from,
{
    if from < e {
        assert(!(s[from] == 13 && s[from + 1] == 10));
        lemma_line_end_is(s, from + 1, e);
    }
}

/// No line end is found where none stands.
pub proof fn lemma_line_end_none(s: Seq<u8>, from: int)
    requires
        forall|i: int| from <= i && i + 1 < s.len() ==> !(#[trigger] s[i] == 13 && s[i + 1] == 10),
    ensures
        line_end(s, from) == -1,
    decreases s.len() - from,
{
    if from < 0 || from + 1 >= s.len() {
    } else {
        assert(!(s[from] == 13 && s[from + 1] == 10));
        lemma_line_end_none(s, from + 1);
    }
}

/// The line that begins at `at` with `tag`: its payload, which runs from
/// behind the tag to the first line end, and the index behind that line end.
///
/// Fewer than three bytes are never a line; another leading byte is another
/// type of frame.
pub open spec fn parse_line(s: Seq<u8>, at: int, tag: u8) -> Result<(Seq<u8>, int), RespError> {
    if s.len() - at < 3 {
        Err(RespError::NotComplete)
    } else if s[at] != tag {
        Err(RespError::InvalidFrameType)
    } else if line_end(s, at + 1) < 0 {
        Err(RespError::NotComplete)
    } else {
        Ok((s.subrange(at + 1, line_end(s, at + 1)), line_end(s, at + 1) + 2))
    }
}

/// The fixed bytes `literal` at `at`, and the index behind them.
pub open spec fn parse_literal(s: Seq<u8>, at: int, literal: Seq<u8>) -> Result<int, RespError> {
    if s.len() - at < literal.len() {
        Err(RespError::NotComplete)
    } else if s.subrange(at, at + literal.len()) != literal {
        Err(RespError::InvalidFrame)
    } else {
        Ok(at + literal.len())
    }
}

/// The bytes of the null frame.
pub open spec fn null_bytes() -> Seq<u8> {
    seq![95u8, 13u8, 10u8]
}

/// The bytes of the absent bulk string.
pub open spec fn null_bulk_bytes() -> Seq<u8> {
    seq![36u8, 45u8, 49u8, 13u8, 10u8]
}

/// The bytes of the absent array.
pub open spec fn null_array_bytes() -> Seq<u8> {
    seq![42u8, 45u8, 49u8, 13u8, 10u8]
}

/// The bytes of the boolean `true`.
pub open spec fn true_bytes() -> Seq<u8> {
    seq![35u8, 116u8, 13u8, 10u8]
}

/// The bytes of the boolean `false`.
pub open spec fn false_bytes() -> Seq<u8> {
    seq![35u8, 102u8, 13u8, 10u8]
}

/// A simple string at `at`: a line under `+` whose payload is UTF-8.
pub open spec fn parse_simple_string(s: Seq<u8>, at: int) -> Result<(Frame, int), RespError> {
    match parse_line(s, at, 43) {
        Err(e) => Err(e),
        Ok((payload, next)) => if valid_utf8(payload) {
            Ok((Frame::SimpleString(payload), next))
        } else {
            Err(RespError::Utf8Error)
        },
    }
}

/// A simple error at `at`: a line under `-` whose payload is UTF-8.
pub open spec fn parse_simple_error(s: Seq<u8>, at: int) -> Result<(Frame, int), RespError> {
    match parse_line(s, at, 45) {
        Err(e) => Err(e),
        Ok((payload, next)) => if valid_utf8(payload) {
            Ok((Frame::Error(payload), next))
        } else {
            Err(RespError::Utf8Error)
        },
    }
}

/// An integer at `at`: a line under `:` whose payload is a numeral of 64
/// bits.
pub open spec fn parse_integer(s: Seq<u8>, at: int) -> Result<(Frame, int), RespError> {
    match parse_line(s, at, 58) {
        Err(e) => Err(e),
        Ok((payload, next)) => match parse_i64(payload) {
            Some(v) => Ok((Frame::Integer(v), next)),
            None => Err(RespError::ParseIntError),
        },
    }
}

/// A double at `at`: a line under `,` whose payload is the text of a number.
pub open spec fn parse_double(s: Seq<u8>, at: int) -> Result<(Frame, int), RespError> {
    match parse_line(s, at, 44) {
        Err(e) => Err(e),
        Ok((payload, next)) => if is_double_literal(payload) {
            Ok((Frame::Double(payload), next))
        } else {
            Err(RespError::ParseFloatError)
        },
    }
}

/// The null frame at `at`.
pub open spec fn parse_null(s: Seq<u8>, at: int) -> Result<(Frame, int), RespError> {
    match parse_literal(s, at, null_bytes()) {
        Err(e) => Err(e),
        Ok(next) => Ok((Frame::Null, next)),
    }
}

/// The absent bulk string at `at`, written out byte for byte.
pub open spec fn parse_null_bulk_string(s: Seq<u8>, at: int) -> Result<(Frame, int), RespError> {
    match parse_literal(s, at, null_bulk_bytes()) {
        Err(e) => Err(e),
        Ok(next) => Ok((Frame::NullBulkString, next)),
    }
}

/// The absent array at `at`, written out byte for byte.
pub open spec fn parse_null_array(s: Seq<u8>, at: int) -> Result<(Frame, int), RespError> {
    match parse_literal(s, at, null_array_bytes()) {
        Err(e) => Err(e),
        Ok(next) => Ok((Frame::NullArray, next)),
    }
}

/// A boolean at `at`: one of the two fixed frames of four bytes.
pub open spec fn parse_boolean(s: Seq<u8>, at: int) -> Result<(Frame, int), RespError> {
    if s.len() - at < 4 {
        Err(RespError::NotComplete)
    } else if s.subrange(at, at + 4) == true_bytes() {
        Ok((Frame::Boolean(true), at + 4))
    } else if s.subrange(at, at + 4) == false_bytes() {
        Ok((Frame::Boolean(false), at + 4))
    } else {
        Err(RespError::InvalidFrame)
    }
}

/// The length line at `at` under `tag`: the number it holds and the index
/// behind the line.
pub open spec fn parse_count(s: Seq<u8>, at: int, tag: u8) -> Result<(i64, int), RespError> {
    match parse_line(s, at, tag) {
        Err(e) => Err(e),
        Ok((payload, next)) => match parse_i64(payload) {
            Some(n) => Ok((n, next)),
            None => Err(RespError::ParseIntError),
        },
    }
}

/// A bulk string at `at`: a length line under `$`, that many bytes, and two
/// bytes more for the end of the line, all of them present.
pub open spec fn parse_bulk_string(s: Seq<u8>, at: int) -> Result<(Frame, int), RespError> {
    match parse_count(s, at, 36) {
        Err(e) => Err(e),
        Ok((n, body)) => if n < 0 {
            Err(RespError::InvalidFrameLength(n))
        } else if s.len() - body < n + 2 {
            Err(RespError::NotComplete)
        } else {
            Ok((Frame::BulkString(s.subrange(body, body + n)), body + n + 2))
        },
    }
}

/// The map that results from binding the keys of `pairs` one after the
/// other, a later binding of a key taking the place of an earlier one.
pub open spec fn dict_of(pairs: Seq<(Seq<u8>, Frame)>) -> Seq<(Seq<u8>, Frame)>
    decreases pairs.len(),
{
    if pairs.len() == 0 {
        Seq::empty()
    } else {
        dict_insert(dict_of(pairs.drop_last()), pairs.last().0, pairs.last().1)
    }
}

/// An array at `at`: a length line under `*`, then that many frames.
pub open spec fn parse_array(s: Seq<u8>, at: int) -> Result<(Frame, int), RespError>
    decreases s.len() - at, 0nat, 0nat,
{
    match parse_count(s, at, 42) {
        Err(e) => Err(e),
        Ok((n, body)) => if n < 0 {
            Err(RespError::InvalidFrameLength(n))
        } else {
            proof {
                lemma_line_end(s, at + 1);
            }
            match parse_items(s, body, n as nat) {
                Err(e) => Err(e),
                Ok((items, next)) => Ok((Frame::Array(items), next)),
            }
        },
    }
}

/// A set at `at`: a length line under `~`, then that many frames.
pub open spec fn parse_group(s: Seq<u8>, at: int) -> Result<(Frame, int), RespError>
    decreases s.len() - at, 0nat, 0nat,
{
    match parse_count(s, at, 126) {
        Err(e) => Err(e),
        Ok((n, body)) => if n < 0 {
            Err(RespError::InvalidFrameLength(n))
        } else {
            proof {
                lemma_line_end(s, at + 1);
            }
            match parse_items(s, body, n as nat) {
                Err(e) => Err(e),
                Ok((items, next)) => Ok((Frame::Group(items), next)),
            }
        },
    }
}

/// A map at `at`: a length line under `%`, then that many entries, bound
/// in the order in which they stand.
pub open spec fn parse_dict(s: Seq<u8>, at: int) -> Result<(Frame, int), RespError>
    decreases s.len() - at, 0nat, 0nat,
{
    match parse_count(s, at, 37) {
        Err(e) => Err(e),
        Ok((n, body)) => if n < 0 {
            Err(RespError::InvalidFrameLength(n))
        } else {
            proof {
                lemma_line_end(s, at + 1);
            }
            match parse_entries(s, body, n as nat) {
                Err(e) => Err(e),
                Ok((pairs, next)) => Ok((Frame::Dict(dict_of(pairs)), next)),
            }
        },
    }
}

/// The frame that stands at `at`, chosen by its leading byte, and the
/// index behind it.
///
/// Fewer than three bytes hold no frame yet. Under `$` and `*` the length
/// `-1` is the absent bulk string or array.
pub open spec fn parse_frame(s: Seq<u8>, at: int) -> Result<(Frame, int), RespError>
    decreases s.len() - at, 0nat, 1nat,
{
    if s.len() - at < 3 || at < 0 {
        Err(RespError::NotComplete)
    } else if s[at] == 43 {
        parse_simple_string(s, at)
    } else if s[at] == 45 {
        parse_simple_error(s, at)
    } else if s[at] == 58 {
        parse_integer(s, at)
    } else if s[at] == 36 {
        match parse_count(s, at, 36) {
            Ok((n, next)) => if n == -1 {
                Ok((Frame::NullBulkString, next))
            } else {
                parse_bulk_string(s, at)
            },
            Err(e) => Err(e),
        }
    } else if s[at] == 42 {
        match parse_count(s, at, 42) {
            Ok((n, next)) => if n == -1 {
                Ok((Frame::NullArray, next))
            } else {
                parse_array(s, at)
            },
            Err(e) => Err(e),
        }
    } else if s[at] == 95 {
        parse_null(s, at)
    } else if s[at] == 35 {
        parse_boolean(s, at)
    } else if s[at] == 44 {
        parse_double(s, at)
    } else if s[at] == 37 {
        parse_dict(s, at)
    } else if s[at] == 126 {
        parse_group(s, at)
    } else {
        Err(RespError::InvalidFrameType)
    }
}

/// `n` frames that stand one behind the other from `at` on, and the index
/// behind the last. The first failure is the failure of the whole.
pub open spec fn parse_items(s: Seq<u8>, at: int, n: nat) -> Result<(Seq<Frame>, int), RespError>
    decreases s.len() - at, n, 1nat,
{
    if n == 0 {
        Ok((Seq::empty(), at))
    } else {
        match parse_frame(s, at) {
            Err(e) => Err(e),
            Ok((first, next)) => if at < next <= s.len() {
                match parse_items(s, next, (n - 1) as nat) {
                    Err(e) => Err(e),
                    Ok((rest, end)) => Ok((seq![first] + rest, end)),
                }
            } else {
                Err(RespError::NotComplete)
            },
        }
    }
}

/// `n` entries of a map that stand one behind the other from `at` on, each a
/// simple string for the key and a frame behind it, and the index behind the
/// last.
pub open spec fn parse_entries(s: Seq<u8>, at: int, n: nat) -> Result<
    (Seq<(Seq<u8>, Frame)>, int),
    RespError,
>
    decreases s.len() - at, n, 1nat,
{
    if n == 0 {
        Ok((Seq::empty(), at))
    } else {
        match parse_line(s, at, 43) {
            Err(e) => Err(e),
            Ok((key, value_at)) => if !valid_utf8(key) {
                Err(RespError::Utf8Error)
            } else {
                proof {
                    lemma_line_end(s, at + 1);
                }
                match parse_frame(s, value_at) {
                    Err(e) => Err(e),
                    Ok((value, next)) => if value_at < next <= s.len() {
                        match parse_entries(s, next, (n - 1) as nat) {
                            Err(e) => Err(e),
                            Ok((rest, end)) => Ok((seq![(key, value)] + rest, end)),
                        }
                    } else {
                        Err(RespError::NotComplete)
                    },
                }
            },
        }
    }
}

/// What a decoder makes of the whole buffer `s`: the frame at its start.
#[verifier::opaque]
pub open spec fn parse(s: Seq<u8>) -> Result<(Frame, int), RespError> {
    parse_frame(s, 0)
}

/// What is left of `s` behind its first `next` bytes.
pub open spec fn rest_of(s: Seq<u8>, next: int) -> Seq<u8> {
    s.subrange(next, s.len() as int)
}

/// The frames that a decoder takes from `s` when it is asked again and again:
/// those that stand one behind the other at the front of `s`, up to the
/// first place where no frame can be read.
pub open spec fn frames_of(s: Seq<u8>) -> Seq<Frame>
    decreases s.len(),
{
    match parse(s) {
        Ok((f, next)) => if 0 < next <= s.len() {
            seq![f] + frames_of(rest_of(s, next))
        } else {
            Seq::empty()
        },
        Err(_) => Seq::empty(),
    }
}

/// The bytes that stay in the buffer once the frames of `s` were taken from
/// it.
pub open spec fn residue_of(s: Seq<u8>) -> Seq<u8>
    decreases s.len(),
{
    match parse(s) {
        Ok((f, next)) => if 0 < next <= s.len() {
            residue_of(rest_of(s, next))
        } else {
            s
        },
        Err(_) => s,
    }
}

} // verus!
