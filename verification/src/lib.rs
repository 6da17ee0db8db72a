//! A small Redis-compatible key/value core: the RESP wire codec, the
//! command layer, the in-memory store and the per-connection pipeline,
//! each stated over a mathematical model and proved against it.

pub mod backend;
pub mod cmd;
pub mod codec;
pub mod convert;
pub mod decode;
pub mod dict;
pub mod encode;
pub mod error;
pub mod frame;
pub mod laws;
pub mod lex;
pub mod numeral;
pub mod parse;
pub mod pipeline;
pub mod prefix;
pub mod roundtrip;
pub mod text;

pub use crate::backend::Backend;
pub use crate::codec::{RespDecode, RespEncode};
pub use crate::error::RespError;
pub use crate::frame::{
    BulkString, RespArray, RespDouble, RespFrame, RespMap, RespNull, RespNullArray,
    RespNullBulkString, RespSet, SimpleError, SimpleString,
};
