//! Encoding and decoding as the types of this crate offer them: a frame to
//! its bytes, and the front of a byte buffer to a frame.

use crate::decode::{
    decode_array, decode_boolean, decode_bulk_string, decode_double, decode_frame, decode_integer,
    decode_map, decode_null, decode_null_array, decode_null_bulk_string, decode_set,
    decode_simple_error, decode_simple_string,
};
use crate::encode::{push_frame, wire};
use crate::error::RespError;
use crate::frame::{
    BulkString, Frame, RespArray, RespDouble, RespFrame, RespMap, RespNull, RespNullArray,
    RespNullBulkString, RespSet, SimpleError, SimpleString,
};
use crate::parse::{
    parse, parse_array, parse_boolean, parse_bulk_string, parse_dict, parse_double,
    parse_group, parse_integer, parse_null, parse_null_array, parse_null_bulk_string,
    parse_simple_error, parse_simple_string, rest_of,
};
use bytes::{Buf, BytesMut};
use vstd::prelude::*;

verus! {

/// `bytes::BytesMut`: a growable buffer of bytes. Nothing of what it holds
/// is known but through `buffered`.
#[verifier::external_type_specification]
#[verifier::external_body]
pub struct ExBytesMut(BytesMut);

/// The bytes that a `BytesMut` holds, first to last: what its `as_ref`
/// shows.
pub uninterp spec fn buffered(buf: BytesMut) -> Seq<u8>;

/// `BytesMut::new`: a buffer that holds no bytes.
#[verifier::external_body]
pub(crate) fn buffer_new() -> (buf: BytesMut)
    ensures
        buffered(buf) == Seq::<u8>::empty(),
{
    BytesMut::new()
}

/// `AsRef<[u8]>::as_ref` of `BytesMut`: the bytes that the buffer holds, as a
/// slice.
#[verifier::external_body]
pub(crate) fn buffer_bytes(buf: &BytesMut) -> (bytes: &[u8])
    ensures
        bytes@ == buffered(*buf),
{
    buf.as_ref()
}

/// `Buf::advance` of `BytesMut`: drops the first `count` bytes and keeps the
/// others as they are. The outside function panics where the buffer holds
/// fewer.
#[verifier::external_body]
pub(crate) fn buffer_advance(buf: &mut BytesMut, count: usize)
    requires
        count <= buffered(*old(buf)).len(),
    ensures
        buffered(*final(buf)) == buffered(*old(buf)).subrange(
            count as int,
            buffered(*old(buf)).len() as int,
        ),
{
    buf.advance(count)
}

/// `BytesMut::extend_from_slice`: appends `more` behind the bytes that the
/// buffer holds. The outside function gives up only where the two lengths
/// together pass `usize::MAX`, which two allocations never do.
#[verifier::external_body]
pub(crate) fn buffer_extend(buf: &mut BytesMut, more: &[u8])
    ensures
        buffered(*final(buf)) == buffered(*old(buf)) + more@,
{
    buf.extend_from_slice(more)
}

/// A value that has a wire form.
pub trait RespEncode: Sized {
    /// The bytes that stand for the value on the wire.
    spec fn wire_form(&self) -> Seq<u8>;

    /// The wire form of the value. Encoding never fails.
    fn encode(self) -> (out: Vec<u8>)
        ensures
            out@ == self.wire_form(),
    ;
}

/// A value that can be read from the front of a buffer.
pub trait RespDecode: Sized {
    /// The value as a frame.
    spec fn as_frame(&self) -> Frame;

    /// What the decoder of this type makes of the bytes `s`: the frame at
    /// their start and the number of bytes it takes, or the failure.
    spec fn parse_front(s: Seq<u8>) -> Result<(Frame, int), RespError>;

    /// Reads one value from the front of `buf`.
    ///
    /// On success the bytes of the value leave the buffer and the others
    /// stay. On any failure, `NotComplete` among them, the buffer is left as
    /// it was.
    fn decode(buf: &mut BytesMut) -> (r: Result<Self, RespError>)
        ensures
            match Self::parse_front(buffered(*old(buf))) {
                Ok((f, next)) => r matches Ok(v) && v.as_frame() == f && 0 < next <= buffered(
                    *old(buf),
                ).len() && buffered(*final(buf)) == rest_of(buffered(*old(buf)), next),
                Err(e) => r matches Err(x) && x == e && buffered(*final(buf)) == buffered(
                    *old(buf),
                ),
            },
    ;
}

impl RespEncode for RespFrame {
    open spec fn wire_form(&self) -> Seq<u8> {
        wire(self@)
    }

    fn encode(self) -> (out: Vec<u8>) {
        let mut out: Vec<u8> = Vec::new();
        push_frame(&mut out, &self);
        assert(out@ =~= wire(self@));
        out
    }
}

impl RespDecode for RespFrame {
    open spec fn as_frame(&self) -> Frame {
        self@
    }

    open spec fn parse_front(s: Seq<u8>) -> Result<(Frame, int), RespError> {
        parse(s)
    }

    fn decode(buf: &mut BytesMut) -> (r: Result<Self, RespError>) {
        proof {
            reveal(parse);
        }
        let got = decode_frame(buffer_bytes(buf), 0);
        match got {
            Ok((v, next)) => {
                buffer_advance(buf, next);
                Ok(v)
            },
            Err(e) => Err(e),
        }
    }
}

impl RespEncode for SimpleString {
    open spec fn wire_form(&self) -> Seq<u8> {
        wire(Frame::SimpleString(self@))
    }

    fn encode(self) -> (out: Vec<u8>) {
        let frame = RespFrame::SimpleString(self);
        frame.encode()
    }
}

impl RespDecode for SimpleString {
    open spec fn as_frame(&self) -> Frame {
        Frame::SimpleString(self@)
    }

    open spec fn parse_front(s: Seq<u8>) -> Result<(Frame, int), RespError> {
        parse_simple_string(s, 0)
    }

    fn decode(buf: &mut BytesMut) -> (r: Result<Self, RespError>) {
        let got = decode_simple_string(buffer_bytes(buf), 0);
        match got {
            Ok((v, next)) => {
                buffer_advance(buf, next);
                Ok(v)
            },
            Err(e) => Err(e),
        }
    }
}

impl RespEncode for SimpleError {
    open spec fn wire_form(&self) -> Seq<u8> {
        wire(Frame::Error(self@))
    }

    fn encode(self) -> (out: Vec<u8>) {
        let frame = RespFrame::Error(self);
        frame.encode()
    }
}

impl RespDecode for SimpleError {
    open spec fn as_frame(&self) -> Frame {
        Frame::Error(self@)
    }

    open spec fn parse_front(s: Seq<u8>) -> Result<(Frame, int), RespError> {
        parse_simple_error(s, 0)
    }

    fn decode(buf: &mut BytesMut) -> (r: Result<Self, RespError>) {
        let got = decode_simple_error(buffer_bytes(buf), 0);
        match got {
            Ok((v, next)) => {
                buffer_advance(buf, next);
                Ok(v)
            },
            Err(e) => Err(e),
        }
    }
}

impl RespEncode for i64 {
    open spec fn wire_form(&self) -> Seq<u8> {
        wire(Frame::Integer(*self))
    }

    fn encode(self) -> (out: Vec<u8>) {
        let frame = RespFrame::Integer(self);
        frame.encode()
    }
}

impl RespDecode for i64 {
    open spec fn as_frame(&self) -> Frame {
        Frame::Integer(*self)
    }

    open spec fn parse_front(s: Seq<u8>) -> Result<(Frame, int), RespError> {
        parse_integer(s, 0)
    }

    fn decode(buf: &mut BytesMut) -> (r: Result<Self, RespError>) {
        let got = decode_integer(buffer_bytes(buf), 0);
        match got {
            Ok((v, next)) => {
                buffer_advance(buf, next);
                Ok(v)
            },
            Err(e) => Err(e),
        }
    }
}

impl RespEncode for BulkString {
    open spec fn wire_form(&self) -> Seq<u8> {
        wire(Frame::BulkString(self@))
    }

    fn encode(self) -> (out: Vec<u8>) {
        let frame = RespFrame::BulkString(self);
        frame.encode()
    }
}

impl RespDecode for BulkString {
    open spec fn as_frame(&self) -> Frame {
        Frame::BulkString(self@)
    }

    open spec fn parse_front(s: Seq<u8>) -> Result<(Frame, int), RespError> {
        parse_bulk_string(s, 0)
    }

    fn decode(buf: &mut BytesMut) -> (r: Result<Self, RespError>) {
        let got = decode_bulk_string(buffer_bytes(buf), 0);
        match got {
            Ok((v, next)) => {
                buffer_advance(buf, next);
                Ok(v)
            },
            Err(e) => Err(e),
        }
    }
}

impl RespEncode for RespNullBulkString {
    open spec fn wire_form(&self) -> Seq<u8> {
        wire(Frame::NullBulkString)
    }

    fn encode(self) -> (out: Vec<u8>) {
        let frame = RespFrame::NullBulkString(self);
        frame.encode()
    }
}

impl RespDecode for RespNullBulkString {
    open spec fn as_frame(&self) -> Frame {
        Frame::NullBulkString
    }

    open spec fn parse_front(s: Seq<u8>) -> Result<(Frame, int), RespError> {
        parse_null_bulk_string(s, 0)
    }

    fn decode(buf: &mut BytesMut) -> (r: Result<Self, RespError>) {
        let got = decode_null_bulk_string(buffer_bytes(buf), 0);
        match got {
            Ok((v, next)) => {
                buffer_advance(buf, next);
                Ok(v)
            },
            Err(e) => Err(e),
        }
    }
}

impl RespEncode for RespArray {
    open spec fn wire_form(&self) -> Seq<u8> {
        wire(Frame::Array(self@))
    }

    fn encode(self) -> (out: Vec<u8>) {
        let frame = RespFrame::Array(self);
        frame.encode()
    }
}

impl RespDecode for RespArray {
    open spec fn as_frame(&self) -> Frame {
        Frame::Array(self@)
    }

    open spec fn parse_front(s: Seq<u8>) -> Result<(Frame, int), RespError> {
        parse_array(s, 0)
    }

    fn decode(buf: &mut BytesMut) -> (r: Result<Self, RespError>) {
        let got = decode_array(buffer_bytes(buf), 0);
        match got {
            Ok((v, next)) => {
                buffer_advance(buf, next);
                Ok(v)
            },
            Err(e) => Err(e),
        }
    }
}

impl RespEncode for RespNull {
    open spec fn wire_form(&self) -> Seq<u8> {
        wire(Frame::Null)
    }

    fn encode(self) -> (out: Vec<u8>) {
        let frame = RespFrame::Null(self);
        frame.encode()
    }
}

impl RespDecode for RespNull {
    open spec fn as_frame(&self) -> Frame {
        Frame::Null
    }

    open spec fn parse_front(s: Seq<u8>) -> Result<(Frame, int), RespError> {
        parse_null(s, 0)
    }

    fn decode(buf: &mut BytesMut) -> (r: Result<Self, RespError>) {
        let got = decode_null(buffer_bytes(buf), 0);
        match got {
            Ok((v, next)) => {
                buffer_advance(buf, next);
                Ok(v)
            },
            Err(e) => Err(e),
        }
    }
}

impl RespEncode for RespNullArray {
    open spec fn wire_form(&self) -> Seq<u8> {
        wire(Frame::NullArray)
    }

    fn encode(self) -> (out: Vec<u8>) {
        let frame = RespFrame::NullArray(self);
        frame.encode()
    }
}

impl RespDecode for RespNullArray {
    open spec fn as_frame(&self) -> Frame {
        Frame::NullArray
    }

    open spec fn parse_front(s: Seq<u8>) -> Result<(Frame, int), RespError> {
        parse_null_array(s, 0)
    }

    fn decode(buf: &mut BytesMut) -> (r: Result<Self, RespError>) {
        let got = decode_null_array(buffer_bytes(buf), 0);
        match got {
            Ok((v, next)) => {
                buffer_advance(buf, next);
                Ok(v)
            },
            Err(e) => Err(e),
        }
    }
}

impl RespEncode for bool {
    open spec fn wire_form(&self) -> Seq<u8> {
        wire(Frame::Boolean(*self))
    }

    fn encode(self) -> (out: Vec<u8>) {
        let frame = RespFrame::Boolean(self);
        frame.encode()
    }
}

impl RespDecode for bool {
    open spec fn as_frame(&self) -> Frame {
        Frame::Boolean(*self)
    }

    open spec fn parse_front(s: Seq<u8>) -> Result<(Frame, int), RespError> {
        parse_boolean(s, 0)
    }

    fn decode(buf: &mut BytesMut) -> (r: Result<Self, RespError>) {
        let got = decode_boolean(buffer_bytes(buf), 0);
        match got {
            Ok((v, next)) => {
                buffer_advance(buf, next);
                Ok(v)
            },
            Err(e) => Err(e),
        }
    }
}

impl RespEncode for RespDouble {
    open spec fn wire_form(&self) -> Seq<u8> {
        wire(Frame::Double(self@))
    }

    fn encode(self) -> (out: Vec<u8>) {
        let frame = RespFrame::Double(self);
        frame.encode()
    }
}

impl RespDecode for RespDouble {
    open spec fn as_frame(&self) -> Frame {
        Frame::Double(self@)
    }

    open spec fn parse_front(s: Seq<u8>) -> Result<(Frame, int), RespError> {
        parse_double(s, 0)
    }

    fn decode(buf: &mut BytesMut) -> (r: Result<Self, RespError>) {
        let got = decode_double(buffer_bytes(buf), 0);
        match got {
            Ok((v, next)) => {
                buffer_advance(buf, next);
                Ok(v)
            },
            Err(e) => Err(e),
        }
    }
}

impl RespEncode for RespMap {
    open spec fn wire_form(&self) -> Seq<u8> {
        wire(Frame::Dict(self@))
    }

    fn encode(self) -> (out: Vec<u8>) {
        let frame = RespFrame::RespMap(self);
        frame.encode()
    }
}

impl RespDecode for RespMap {
    open spec fn as_frame(&self) -> Frame {
        Frame::Dict(self@)
    }

    open spec fn parse_front(s: Seq<u8>) -> Result<(Frame, int), RespError> {
        parse_dict(s, 0)
    }

    fn decode(buf: &mut BytesMut) -> (r: Result<Self, RespError>) {
        let got = decode_map(buffer_bytes(buf), 0);
        match got {
            Ok((v, next)) => {
                buffer_advance(buf, next);
                Ok(v)
            },
            Err(e) => Err(e),
        }
    }
}

impl RespEncode for RespSet {
    open spec fn wire_form(&self) -> Seq<u8> {
        wire(Frame::Group(self@))
    }

    fn encode(self) -> (out: Vec<u8>) {
        let frame = RespFrame::RespSet(self);
        frame.encode()
    }
}

impl RespDecode for RespSet {
    open spec fn as_frame(&self) -> Frame {
        Frame::Group(self@)
    }

    open spec fn parse_front(s: Seq<u8>) -> Result<(Frame, int), RespError> {
        parse_group(s, 0)
    }

    fn decode(buf: &mut BytesMut) -> (r: Result<Self, RespError>) {
        let got = decode_set(buffer_bytes(buf), 0);
        match got {
            Ok((v, next)) => {
                buffer_advance(buf, next);
                Ok(v)
            },
            Err(e) => Err(e),
        }
    }
}

} // verus!
