//! The decoder: reads the frame at a place in a slice of bytes, with the
//! result that `parse_frame` names.

use crate::error::RespError;
use crate::frame::{
    models, BulkString, Frame, RespArray, RespDouble, RespFrame, RespMap, RespNull, RespNullArray,
    RespNullBulkString, RespSet, SimpleError, SimpleString,
};
use crate::numeral::read_i64;
use crate::text::text_from_utf8;
use crate::parse::{
    dict_of, false_bytes, line_end, null_array_bytes, null_bulk_bytes, null_bytes, parse_array,
    parse_boolean, parse_bulk_string, parse_count, parse_dict, parse_double, parse_entries,
    parse_frame, parse_group, parse_integer, parse_items, parse_line, parse_literal, parse_null,
    parse_null_array, parse_null_bulk_string, parse_simple_error, parse_simple_string, true_bytes,
};
use vstd::prelude::*;
use vstd::slice::{slice_subrange, slice_to_vec};
use vstd::utf8::*;

verus! {

/// Whether the exec result `got` is the frame and the index that `expected`
/// names, or the same failure.
pub open spec fn agrees(
    got: Result<(RespFrame, usize), RespError>,
    expected: Result<(Frame, int), RespError>,
) -> bool {
    match expected {
        Ok((f, next)) => got matches Ok((g, m)) && g@ == f && m == next,
        Err(e) => got matches Err(x) && x == e,
    }
}

/// The index of the first line end at or after `from`.
pub fn find_line_end(s: &[u8], from: usize) -> (r: Option<usize>)
    ensures
        match r {
            Some(e) => line_end(s@, from as int) == e && from <= e && e + 1 < s@.len(),
            None => line_end(s@, from as int) == -1,
        },
{
    let n: usize = s.len();
    let mut i: usize = from;
    while i < n && i + 1 < n
        invariant
            from <= i,
            n == s@.len(),
            line_end(s@, from as int) == line_end(s@, i as int),
        decreases n - i,
    {
        if s[i] == 13u8 && s[i + 1] == 10u8 {
            return Some(i);
        }
        i = i + 1;
    }
    None
}

/// The line at `at` under `tag`: the index of its line end, up to which the
/// payload runs from `at + 1`, and the index behind the line.
fn read_line(s: &[u8], at: usize, tag: u8) -> (r: Result<(usize, usize), RespError>)
    requires
        at <= s@.len(),
    ensures
        match parse_line(s@, at as int, tag) {
            Ok((payload, next)) => r matches Ok((e, m)) && at < e && e + 2 == m && m == next && m
                <= s@.len() && payload == s@.subrange(at + 1, e as int),
            Err(x) => r matches Err(y) && x == y,
        },
{
    if s.len() - at < 3 {
        return Err(RespError::NotComplete);
    }
    if s[at] != tag {
        return Err(RespError::InvalidFrameType);
    }
    match find_line_end(s, at + 1) {
        Some(e) => Ok((e, e + 2)),
        None => Err(RespError::NotComplete),
    }
}

/// The fixed bytes `literal` at `at`: the index behind them.
fn read_literal(s: &[u8], at: usize, literal: &[u8]) -> (r: Result<usize, RespError>)
    requires
        at <= s@.len(),
    ensures
        match parse_literal(s@, at as int, literal@) {
            Ok(next) => r matches Ok(m) && m == next && m <= s@.len(),
            Err(x) => r matches Err(y) && x == y,
        },
{
    let n: usize = literal.len();
    if s.len() - at < n {
        return Err(RespError::NotComplete);
    }
    let ghost here = s@.subrange(at as int, at + n);
    let mut i: usize = 0;
    while i < n
        invariant
            i <= n == literal@.len(),
            at + n <= s@.len() <= usize::MAX,
            here == s@.subrange(at as int, at + n),
            forall|k: int| 0 <= k < i ==> here[k] == literal@[k],
        decreases n - i,
    {
        if s[at + i] != literal[i] {
            assert(here[i as int] != literal@[i as int]);
            return Err(RespError::InvalidFrame);
        }
        i = i + 1;
    }
    assert(here =~= literal@);
    Ok(at + n)
}

/// The text of the line at `at` under `tag`, and the index behind the line.
fn read_text(s: &[u8], at: usize, tag: u8) -> (r: Result<(String, usize), RespError>)
    requires
        at <= s@.len(),
    ensures
        match parse_line(s@, at as int, tag) {
            Ok((payload, next)) => if valid_utf8(payload) {
                r matches Ok((text, m)) && encode_utf8(text@) == payload && m == next && at < m
                    <= s@.len()
            } else {
                r == Err::<(String, usize), RespError>(RespError::Utf8Error)
            },
            Err(x) => r matches Err(y) && x == y,
        },
{
    match read_line(s, at, tag) {
        Err(e) => Err(e),
        Ok((e, next)) => {
            let payload = slice_to_vec(slice_subrange(s, at + 1, e));
            match text_from_utf8(payload) {
                Some(text) => Ok((text, next)),
                None => Err(RespError::Utf8Error),
            }
        },
    }
}

/// The simple string at `at`, and the index behind it.
pub fn decode_simple_string(s: &[u8], at: usize) -> (r: Result<(SimpleString, usize), RespError>)
    requires
        at <= s@.len(),
    ensures
        match parse_simple_string(s@, at as int) {
            Ok((f, next)) => r matches Ok((v, m)) && Frame::SimpleString(v@) == f && m == next && at
                < m <= s@.len(),
            Err(x) => r matches Err(y) && x == y,
        },
{
    match read_text(s, at, 43u8) {
        Err(e) => Err(e),
        Ok((text, next)) => Ok((SimpleString::from_string(text), next)),
    }
}

/// The simple error at `at`, and the index behind it.
pub fn decode_simple_error(s: &[u8], at: usize) -> (r: Result<(SimpleError, usize), RespError>)
    requires
        at <= s@.len(),
    ensures
        match parse_simple_error(s@, at as int) {
            Ok((f, next)) => r matches Ok((v, m)) && Frame::Error(v@) == f && m == next && at < m
                <= s@.len(),
            Err(x) => r matches Err(y) && x == y,
        },
{
    match read_text(s, at, 45u8) {
        Err(e) => Err(e),
        Ok((text, next)) => Ok((SimpleError::from_string(text), next)),
    }
}

/// The integer at `at`, and the index behind it.
pub fn decode_integer(s: &[u8], at: usize) -> (r: Result<(i64, usize), RespError>)
    requires
        at <= s@.len(),
    ensures
        match parse_integer(s@, at as int) {
            Ok((f, next)) => r matches Ok((v, m)) && Frame::Integer(v) == f && m == next && at < m
                <= s@.len(),
            Err(x) => r matches Err(y) && x == y,
        },
{
    match read_line(s, at, 58u8) {
        Err(e) => Err(e),
        Ok((e, next)) => match read_i64(s, at + 1, e) {
            Some(v) => Ok((v, next)),
            None => Err(RespError::ParseIntError),
        },
    }
}

/// The double at `at`, and the index behind it.
pub fn decode_double(s: &[u8], at: usize) -> (r: Result<(RespDouble, usize), RespError>)
    requires
        at <= s@.len(),
    ensures
        match parse_double(s@, at as int) {
            Ok((f, next)) => r matches Ok((v, m)) && Frame::Double(v@) == f && m == next && at < m
                <= s@.len(),
            Err(x) => r matches Err(y) && x == y,
        },
{
    match read_line(s, at, 44u8) {
        Err(e) => Err(e),
        Ok((e, next)) => match RespDouble::from_text(slice_subrange(s, at + 1, e)) {
            Some(v) => Ok((v, next)),
            None => Err(RespError::ParseFloatError),
        },
    }
}

/// The null frame at `at`, and the index behind it.
pub fn decode_null(s: &[u8], at: usize) -> (r: Result<(RespNull, usize), RespError>)
    requires
        at <= s@.len(),
    ensures
        match parse_null(s@, at as int) {
            Ok((f, next)) => r matches Ok((v, m)) && m == next && at < m <= s@.len(),
            Err(x) => r matches Err(y) && x == y,
        },
{
    let literal: [u8; 3] = [95u8, 13u8, 10u8];
    assert(literal@ =~= null_bytes());
    match read_literal(s, at, literal.as_slice()) {
        Err(e) => Err(e),
        Ok(next) => Ok((RespNull, next)),
    }
}

/// The absent bulk string at `at`, and the index behind it.
pub fn decode_null_bulk_string(s: &[u8], at: usize) -> (r: Result<
    (RespNullBulkString, usize),
    RespError,
>)
    requires
        at <= s@.len(),
    ensures
        match parse_null_bulk_string(s@, at as int) {
            Ok((f, next)) => r matches Ok((v, m)) && m == next && at < m <= s@.len(),
            Err(x) => r matches Err(y) && x == y,
        },
{
    let literal: [u8; 5] = [36u8, 45u8, 49u8, 13u8, 10u8];
    assert(literal@ =~= null_bulk_bytes());
    match read_literal(s, at, literal.as_slice()) {
        Err(e) => Err(e),
        Ok(next) => Ok((RespNullBulkString, next)),
    }
}

/// The absent array at `at`, and the index behind it.
pub fn decode_null_array(s: &[u8], at: usize) -> (r: Result<(RespNullArray, usize), RespError>)
    requires
        at <= s@.len(),
    ensures
        match parse_null_array(s@, at as int) {
            Ok((f, next)) => r matches Ok((v, m)) && m == next && at < m <= s@.len(),
            Err(x) => r matches Err(y) && x == y,
        },
{
    let literal: [u8; 5] = [42u8, 45u8, 49u8, 13u8, 10u8];
    assert(literal@ =~= null_array_bytes());
    match read_literal(s, at, literal.as_slice()) {
        Err(e) => Err(e),
        Ok(next) => Ok((RespNullArray, next)),
    }
}

/// The boolean at `at`, and the index behind it.
pub fn decode_boolean(s: &[u8], at: usize) -> (r: Result<(bool, usize), RespError>)
    requires
        at <= s@.len(),
    ensures
        match parse_boolean(s@, at as int) {
            Ok((f, next)) => r matches Ok((v, m)) && Frame::Boolean(v) == f && m == next && at < m
                <= s@.len(),
            Err(x) => r matches Err(y) && x == y,
        },
{
    if s.len() - at < 4 {
        return Err(RespError::NotComplete);
    }
    let ghost here = s@.subrange(at as int, at + 4);
    assert(here[0] == s@[at as int] && here[1] == s@[at + 1] && here[2] == s@[at + 2] && here[3]
        == s@[at + 3]);
    if s[at] == 35u8 && s[at + 2] == 13u8 && s[at + 3] == 10u8 && s[at + 1] == 116u8 {
        assert(here =~= true_bytes());
        Ok((true, at + 4))
    } else if s[at] == 35u8 && s[at + 2] == 13u8 && s[at + 3] == 10u8 && s[at + 1] == 102u8 {
        assert(here =~= false_bytes());
        Ok((false, at + 4))
    } else {
        Err(RespError::InvalidFrame)
    }
}

/// The length line at `at` under `tag`: the number and the index behind the
/// line.
fn read_count(s: &[u8], at: usize, tag: u8) -> (r: Result<(i64, usize), RespError>)
    requires
        at <= s@.len(),
    ensures
        match parse_count(s@, at as int, tag) {
            Ok((n, next)) => r matches Ok((v, m)) && v == n && m == next && at < m <= s@.len(),
            Err(x) => r matches Err(y) && x == y,
        },
{
    match read_line(s, at, tag) {
        Err(e) => Err(e),
        Ok((e, next)) => match read_i64(s, at + 1, e) {
            Some(v) => Ok((v, next)),
            None => Err(RespError::ParseIntError),
        },
    }
}

/// The bulk string at `at`, and the index behind it.
pub fn decode_bulk_string(s: &[u8], at: usize) -> (r: Result<(BulkString, usize), RespError>)
    requires
        at <= s@.len(),
    ensures
        match parse_bulk_string(s@, at as int) {
            Ok((f, next)) => r matches Ok((v, m)) && Frame::BulkString(v@) == f && m == next && at
                < m <= s@.len(),
            Err(x) => r matches Err(y) && x == y,
        },
{
    match read_count(s, at, 36u8) {
        Err(e) => Err(e),
        Ok((n, body)) => {
            if n < 0 {
                return Err(RespError::InvalidFrameLength(n));
            }
            let left: u64 = (s.len() - body) as u64;
            if left < 2 || left - 2 < n as u64 {
                return Err(RespError::NotComplete);
            }
            let len: usize = n as usize;
            let data = slice_to_vec(slice_subrange(s, body, body + len));
            Ok((BulkString::new(data), body + len + 2))
        },
    }
}

/// `n` frames from `at` on, and the index behind the last.
pub fn decode_items(s: &[u8], at: usize, n: u64) -> (r: Result<(Vec<RespFrame>, usize), RespError>)
    requires
        at <= s@.len(),
    ensures
        match parse_items(s@, at as int, n as nat) {
            Ok((items, next)) => r matches Ok((v, m)) && models(v@) == items && m == next && at <= m
                <= s@.len(),
            Err(x) => r matches Err(y) && x == y,
        },
    decreases s@.len() - at, 2nat,
{
    let mut out: Vec<RespFrame> = Vec::new();
    let mut pos: usize = at;
    let mut i: u64 = 0;
    assert(models(out@) + parse_items(s@, at as int, n as nat).unwrap().0 =~= parse_items(
        s@,
        at as int,
        n as nat,
    ).unwrap().0);
    while i < n
        invariant
            at <= pos <= s@.len(),
            i <= n,
            match parse_items(s@, pos as int, (n - i) as nat) {
                Ok((rest, end)) => parse_items(s@, at as int, n as nat) matches Ok((all, last))
                    && all == models(out@) + rest && last == end,
                Err(x) => parse_items(s@, at as int, n as nat) matches Err(y) && x == y,
            },
        decreases n - i,
    {
        match decode_frame(s, pos) {
            Err(e) => {
                return Err(e);
            },
            Ok((frame, next)) => {
                proof {
                    let ghost before = out@;
                    let ghost after = out@.push(frame);
                    assert(after.drop_last() =~= before);
                    assert(models(after) == models(before).push(frame@));
                    match parse_items(s@, next as int, (n - i - 1) as nat) {
                        Ok((rest, end)) => {
                            assert(models(after) + rest =~= models(before) + (seq![frame@] + rest));
                        },
                        Err(_) => {},
                    }
                }
                out.push(frame);
                pos = next;
                i = i + 1;
            },
        }
    }
    assert(models(out@) + Seq::<Frame>::empty() =~= models(out@));
    Ok((out, pos))
}

/// `n` entries of a map from `at` on, bound one after the other, and the
/// index behind the last.
pub fn decode_entries(s: &[u8], at: usize, n: u64) -> (r: Result<(RespMap, usize), RespError>)
    requires
        at <= s@.len(),
    ensures
        match parse_entries(s@, at as int, n as nat) {
            Ok((pairs, next)) => r matches Ok((v, m)) && v@ == dict_of(pairs) && m == next && at
                <= m <= s@.len(),
            Err(x) => r matches Err(y) && x == y,
        },
    decreases s@.len() - at, 2nat,
{
    let mut out = RespMap::new();
    let mut pos: usize = at;
    let mut i: u64 = 0;
    let ghost mut done: Seq<(Seq<u8>, Frame)> = Seq::empty();
    assert(done + parse_entries(s@, at as int, n as nat).unwrap().0 =~= parse_entries(
        s@,
        at as int,
        n as nat,
    ).unwrap().0);
    while i < n
        invariant
            at <= pos <= s@.len(),
            i <= n,
            out@ == dict_of(done),
            match parse_entries(s@, pos as int, (n - i) as nat) {
                Ok((rest, end)) => parse_entries(s@, at as int, n as nat) matches Ok((all, last))
                    && all == done + rest && last == end,
                Err(x) => parse_entries(s@, at as int, n as nat) matches Err(y) && x == y,
            },
        decreases n - i,
    {
        match read_text(s, pos, 43u8) {
            Err(e) => {
                return Err(e);
            },
            Ok((key, value_at)) => {
                match decode_frame(s, value_at) {
                    Err(e) => {
                        return Err(e);
                    },
                    Ok((value, next)) => {
                        proof {
                            let ghost pair = (encode_utf8(key@), value@);
                            let ghost after = done.push(pair);
                            assert(after.drop_last() =~= done);
                            match parse_entries(s@, next as int, (n - i - 1) as nat) {
                                Ok((rest, end)) => {
                                    assert(after + rest =~= done + (seq![pair] + rest));
                                },
                                Err(_) => {},
                            }
                            done = after;
                        }
                        out.insert(key, value);
                        pos = next;
                        i = i + 1;
                    },
                }
            },
        }
    }
    assert(done + Seq::<(Seq<u8>, Frame)>::empty() =~= done);
    Ok((out, pos))
}

/// The array at `at`, and the index behind it.
pub fn decode_array(s: &[u8], at: usize) -> (r: Result<(RespArray, usize), RespError>)
    requires
        at <= s@.len(),
    ensures
        match parse_array(s@, at as int) {
            Ok((f, next)) => r matches Ok((v, m)) && Frame::Array(v@) == f && m == next && at < m
                <= s@.len(),
            Err(x) => r matches Err(y) && x == y,
        },
    decreases s@.len() - at, 0nat,
{
    match read_count(s, at, 42u8) {
        Err(e) => Err(e),
        Ok((n, body)) => {
            if n < 0 {
                return Err(RespError::InvalidFrameLength(n));
            }
            match decode_items(s, body, n as u64) {
                Err(e) => Err(e),
                Ok((items, next)) => Ok((RespArray::new(items), next)),
            }
        },
    }
}

/// The set at `at`, and the index behind it.
pub fn decode_set(s: &[u8], at: usize) -> (r: Result<(RespSet, usize), RespError>)
    requires
        at <= s@.len(),
    ensures
        match parse_group(s@, at as int) {
            Ok((f, next)) => r matches Ok((v, m)) && Frame::Group(v@) == f && m == next && at < m
                <= s@.len(),
            Err(x) => r matches Err(y) && x == y,
        },
    decreases s@.len() - at, 0nat,
{
    match read_count(s, at, 126u8) {
        Err(e) => Err(e),
        Ok((n, body)) => {
            if n < 0 {
                return Err(RespError::InvalidFrameLength(n));
            }
            match decode_items(s, body, n as u64) {
                Err(e) => Err(e),
                Ok((items, next)) => Ok((RespSet::new(items), next)),
            }
        },
    }
}

/// The map at `at`, and the index behind it.
pub fn decode_map(s: &[u8], at: usize) -> (r: Result<(RespMap, usize), RespError>)
    requires
        at <= s@.len(),
    ensures
        match parse_dict(s@, at as int) {
            Ok((f, next)) => r matches Ok((v, m)) && Frame::Dict(v@) == f && m == next && at < m
                <= s@.len(),
            Err(x) => r matches Err(y) && x == y,
        },
    decreases s@.len() - at, 0nat,
{
    match read_count(s, at, 37u8) {
        Err(e) => Err(e),
        Ok((n, body)) => {
            if n < 0 {
                return Err(RespError::InvalidFrameLength(n));
            }
            decode_entries(s, body, n as u64)
        },
    }
}

/// The frame at `at`, whatever its type, and the index behind it.
pub fn decode_frame(s: &[u8], at: usize) -> (r: Result<(RespFrame, usize), RespError>)
    requires
        at <= s@.len(),
    ensures
        agrees(r, parse_frame(s@, at as int)),
        r matches Ok((_, m)) ==> at < m <= s@.len(),
    decreases s@.len() - at, 1nat,
{
    if s.len() - at < 3 {
        return Err(RespError::NotComplete);
    }
    let tag: u8 = s[at];
    if tag == 43u8 {
        match decode_simple_string(s, at) {
            Err(e) => Err(e),
            Ok((v, next)) => Ok((RespFrame::SimpleString(v), next)),
        }
    } else if tag == 45u8 {
        match decode_simple_error(s, at) {
            Err(e) => Err(e),
            Ok((v, next)) => Ok((RespFrame::Error(v), next)),
        }
    } else if tag == 58u8 {
        match decode_integer(s, at) {
            Err(e) => Err(e),
            Ok((v, next)) => Ok((RespFrame::Integer(v), next)),
        }
    } else if tag == 36u8 {
        match read_count(s, at, 36u8) {
            Err(e) => Err(e),
            Ok((n, next)) => {
                if n == -1 {
                    Ok((RespFrame::NullBulkString(RespNullBulkString), next))
                } else {
                    match decode_bulk_string(s, at) {
                        Err(e) => Err(e),
                        Ok((v, next)) => Ok((RespFrame::BulkString(v), next)),
                    }
                }
            },
        }
    } else if tag == 42u8 {
        match read_count(s, at, 42u8) {
            Err(e) => Err(e),
            Ok((n, next)) => {
                if n == -1 {
                    Ok((RespFrame::NullArray(RespNullArray), next))
                } else {
                    match decode_array(s, at) {
                        Err(e) => Err(e),
                        Ok((v, next)) => Ok((RespFrame::Array(v), next)),
                    }
                }
            },
        }
    } else if tag == 95u8 {
        match decode_null(s, at) {
            Err(e) => Err(e),
            Ok((v, next)) => Ok((RespFrame::Null(v), next)),
        }
    } else if tag == 35u8 {
        match decode_boolean(s, at) {
            Err(e) => Err(e),
            Ok((v, next)) => Ok((RespFrame::Boolean(v), next)),
        }
    } else if tag == 44u8 {
        match decode_double(s, at) {
            Err(e) => Err(e),
            Ok((v, next)) => Ok((RespFrame::Double(v), next)),
        }
    } else if tag == 37u8 {
        match decode_map(s, at) {
            Err(e) => Err(e),
            Ok((v, next)) => Ok((RespFrame::RespMap(v), next)),
        }
    } else if tag == 126u8 {
        match decode_set(s, at) {
            Err(e) => Err(e),
            Ok((v, next)) => Ok((RespFrame::RespSet(v), next)),
        }
    } else {
        Err(RespError::InvalidFrameType)
    }
}

} // verus!
