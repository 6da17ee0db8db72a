//! The closed set of RESP frames and the mathematical model that the
//! contracts of this crate speak of.

use crate::dict::{
    dict_get, dict_insert, keys_ascending, lemma_insert_ascending, lemma_rank_is, rank,
};
use crate::lex::{bytes_less, less, same};
use crate::numeral::{check_double_literal, is_double_literal};
use vstd::prelude::*;
use vstd::utf8::*;

verus! {

/// The model of a frame: what a frame is, apart from how it is stored.
///
/// Text is modelled by its UTF-8 bytes, a double by the text of its number,
/// a map by its entries in the order in which they go to the wire.
pub enum Frame {
    SimpleString(Seq<u8>),
    Error(Seq<u8>),
    Integer(i64),
    BulkString(Seq<u8>),
    NullBulkString,
    Array(Seq<Frame>),
    Null,
    NullArray,
    Boolean(bool),
    Double(Seq<u8>),
    Dict(Seq<(Seq<u8>, Frame)>),
    Group(Seq<Frame>),
}

/// Whether `f` can be held by a [`RespFrame`]: its text is UTF-8, its doubles
/// are numbers, and the keys of its maps ascend.
pub open spec fn well_formed(f: Frame) -> bool
    decreases f,
{
    match f {
        Frame::SimpleString(t) => valid_utf8(t),
        Frame::Error(t) => valid_utf8(t),
        Frame::Double(t) => is_double_literal(t),
        Frame::Array(items) => forall|i: int|
            0 <= i < items.len() ==> well_formed(#[trigger] items[i]),
        Frame::Group(items) => forall|i: int|
            0 <= i < items.len() ==> well_formed(#[trigger] items[i]),
        Frame::Dict(entries) => {
            &&& keys_ascending(entries)
            &&& forall|i: int|
                0 <= i < entries.len() ==> valid_utf8((#[trigger] entries[i]).0) && well_formed(
                    entries[i].1,
                )
        },
        _ => true,
    }
}

/// A simple string: one line of text.
#[derive(Debug, PartialEq)]
pub struct SimpleString(pub(crate) String);

/// A simple error: one line of text that reports a failure.
#[derive(Debug, PartialEq)]
pub struct SimpleError(pub(crate) String);

/// A bulk string: bytes of any value, bounded by their count.
#[derive(Debug, PartialEq)]
pub struct BulkString(pub(crate) Vec<u8>);

/// The bulk string that is absent.
#[derive(Debug, PartialEq)]
pub struct RespNullBulkString;

/// An array: frames in order.
#[derive(Debug, PartialEq)]
pub struct RespArray(pub(crate) Vec<RespFrame>);

/// The array that is absent.
#[derive(Debug, PartialEq)]
pub struct RespNullArray;

/// The null frame.
#[derive(Debug, PartialEq)]
pub struct RespNull;

/// A double, held as the text of its number.
#[derive(Debug, PartialEq)]
pub struct RespDouble {
    text: Vec<u8>,
}

/// A map from text keys to frames, its keys in ascending order.
#[derive(Debug, PartialEq)]
pub struct RespMap {
    entries: Vec<(String, RespFrame)>,
}

/// A set: frames in the order in which they were given.
#[derive(Debug, PartialEq)]
pub struct RespSet(pub(crate) Vec<RespFrame>);

/// A frame as it is held in memory.
#[derive(Debug, PartialEq)]
pub enum RespFrame {
    SimpleString(SimpleString),
    Error(SimpleError),
    Integer(i64),
    BulkString(BulkString),
    NullBulkString(RespNullBulkString),
    Array(RespArray),
    Null(RespNull),
    NullArray(RespNullArray),
    Boolean(bool),
    Double(RespDouble),
    RespMap(RespMap),
    RespSet(RespSet),
}

/// The models of a run of frames, in order.
pub open spec fn models(items: Seq<RespFrame>) -> Seq<Frame>
    decreases items,
{
    if items.len() == 0 {
        Seq::empty()
    } else {
        models(items.drop_last()).push(items.last()@)
    }
}

/// The models of a run of keyed frames, in order.
pub open spec fn entry_models(entries: Seq<(String, RespFrame)>) -> Seq<(Seq<u8>, Frame)>
    decreases entries,
{
    if entries.len() == 0 {
        Seq::empty()
    } else {
        entry_models(entries.drop_last()).push((encode_utf8(entries.last().0@), entries.last().1@))
    }
}

/// `models` maps index by index.
pub proof fn lemma_models(items: Seq<RespFrame>)
    ensures
        models(items).len() == items.len(),
        forall|i: int| 0 <= i < items.len() ==> (#[trigger] models(items)[i]) == items[i]@,
    decreases items.len(),
{
    if items.len() > 0 {
        lemma_models(items.drop_last());
        assert(models(items) == models(items.drop_last()).push(items.last()@));
    } else {
        assert(models(items) == Seq::<Frame>::empty());
    }
}

/// `entry_models` maps index by index.
pub proof fn lemma_entry_models(entries: Seq<(String, RespFrame)>)
    ensures
        entry_models(entries).len() == entries.len(),
        forall|i: int|
            0 <= i < entries.len() ==> (#[trigger] entry_models(entries)[i]) == (
                encode_utf8(entries[i].0@),
                entries[i].1@,
            ),
    decreases entries.len(),
{
    if entries.len() > 0 {
        lemma_entry_models(entries.drop_last());
        assert(entry_models(entries) == entry_models(entries.drop_last()).push(
            (encode_utf8(entries.last().0@), entries.last().1@),
        ));
    } else {
        assert(entry_models(entries) == Seq::<(Seq<u8>, Frame)>::empty());
    }
}

impl View for SimpleString {
    type V = Seq<u8>;

    closed spec fn view(&self) -> Seq<u8> {
        encode_utf8(self.0@)
    }
}

impl View for SimpleError {
    type V = Seq<u8>;

    closed spec fn view(&self) -> Seq<u8> {
        encode_utf8(self.0@)
    }
}

impl View for BulkString {
    type V = Seq<u8>;

    closed spec fn view(&self) -> Seq<u8> {
        self.0@
    }
}

impl View for RespDouble {
    type V = Seq<u8>;

    closed spec fn view(&self) -> Seq<u8> {
        self.text@
    }
}

impl View for RespArray {
    type V = Seq<Frame>;

    closed spec fn view(&self) -> Seq<Frame>
        decreases self,
    {
        models(self.0@)
    }
}

impl View for RespSet {
    type V = Seq<Frame>;

    closed spec fn view(&self) -> Seq<Frame>
        decreases self,
    {
        models(self.0@)
    }
}

impl View for RespMap {
    type V = Seq<(Seq<u8>, Frame)>;

    closed spec fn view(&self) -> Seq<(Seq<u8>, Frame)>
        decreases self,
    {
        entry_models(self.entries@)
    }
}

impl View for RespFrame {
    type V = Frame;

    open spec fn view(&self) -> Frame
        decreases self,
    {
        match self {
            RespFrame::SimpleString(s) => Frame::SimpleString(s@),
            RespFrame::Error(e) => Frame::Error(e@),
            RespFrame::Integer(v) => Frame::Integer(*v),
            RespFrame::BulkString(b) => Frame::BulkString(b@),
            RespFrame::NullBulkString(_) => Frame::NullBulkString,
            RespFrame::Array(a) => Frame::Array(a@),
            RespFrame::Null(_) => Frame::Null,
            RespFrame::NullArray(_) => Frame::NullArray,
            RespFrame::Boolean(b) => Frame::Boolean(*b),
            RespFrame::Double(d) => Frame::Double(d@),
            RespFrame::RespMap(m) => Frame::Dict(m@),
            RespFrame::RespSet(s) => Frame::Group(s@),
        }
    }
}

impl SimpleString {
    /// The simple string that holds the text `s`.
    pub fn new(s: &str) -> (r: Self)
        ensures
            r@ == encode_utf8(s@),
    {
        SimpleString(s.to_owned())
    }

    /// The simple string that holds the text `s`, without copying it.
    pub fn from_string(s: String) -> (r: Self)
        ensures
            r@ == encode_utf8(s@),
    {
        SimpleString(s)
    }

    /// The text.
    pub fn as_str(&self) -> (r: &str)
        ensures
            encode_utf8(r@) == self@,
    {
        self.0.as_str()
    }
}

impl SimpleError {
    /// The simple error that holds the text `s`.
    pub fn new(s: &str) -> (r: Self)
        ensures
            r@ == encode_utf8(s@),
    {
        SimpleError(s.to_owned())
    }

    /// The simple error that holds the text `s`, without copying it.
    pub fn from_string(s: String) -> (r: Self)
        ensures
            r@ == encode_utf8(s@),
    {
        SimpleError(s)
    }

    /// The text.
    pub fn as_str(&self) -> (r: &str)
        ensures
            encode_utf8(r@) == self@,
    {
        self.0.as_str()
    }
}

impl BulkString {
    /// The bulk string that holds `data`.
    pub fn new(data: Vec<u8>) -> (r: Self)
        ensures
            r@ == data@,
    {
        BulkString(data)
    }

    /// The bytes.
    pub fn as_slice(&self) -> (r: &[u8])
        ensures
            r@ == self@,
    {
        self.0.as_slice()
    }

    /// The number of bytes.
    pub fn len(&self) -> (n: usize)
        ensures
            n == self@.len(),
    {
        self.0.len()
    }

    /// The bytes, given up by the frame.
    pub fn into_bytes(self) -> (r: Vec<u8>)
        ensures
            r@ == self@,
    {
        self.0
    }
}

impl RespArray {
    /// The array of `items`, in their order.
    pub fn new(items: Vec<RespFrame>) -> (r: Self)
        ensures
            r@ == models(items@),
    {
        RespArray(items)
    }

    /// The items, in order.
    pub fn items(&self) -> (r: &Vec<RespFrame>)
        ensures
            models(r@) == self@,
            decreases_to!(self => r),
    {
        &self.0
    }

    /// The number of items.
    pub fn len(&self) -> (n: usize)
        ensures
            n == self@.len(),
    {
        proof {
            lemma_models(self.0@);
        }
        self.0.len()
    }

    /// The items, given up by the frame.
    pub fn into_items(self) -> (r: Vec<RespFrame>)
        ensures
            models(r@) == self@,
    {
        self.0
    }
}

impl RespSet {
    /// The set of `items`, in their order.
    pub fn new(items: Vec<RespFrame>) -> (r: Self)
        ensures
            r@ == models(items@),
    {
        RespSet(items)
    }

    /// The items, in order.
    pub fn items(&self) -> (r: &Vec<RespFrame>)
        ensures
            models(r@) == self@,
            decreases_to!(self => r),
    {
        &self.0
    }

    /// The number of items.
    pub fn len(&self) -> (n: usize)
        ensures
            n == self@.len(),
    {
        proof {
            lemma_models(self.0@);
        }
        self.0.len()
    }
}

impl RespDouble {
    #[verifier::type_invariant]
    spec fn is_number(self) -> bool {
        is_double_literal(self.text@)
    }

    /// The double written as `text`, where `text` is the text of a number.
    pub fn from_text(text: &[u8]) -> (r: Option<Self>)
        ensures
            r is Some <==> is_double_literal(text@),
            r matches Some(d) ==> d@ == text@,
    {
        if check_double_literal(text) {
            Some(RespDouble { text: vstd::slice::slice_to_vec(text) })
        } else {
            None
        }
    }

    /// The text of the number.
    pub fn as_bytes(&self) -> (r: &[u8])
        ensures
            r@ == self@,
            is_double_literal(self@),
    {
        proof {
            use_type_invariant(self);
        }
        self.text.as_slice()
    }
}

impl RespMap {
    #[verifier::type_invariant]
    spec fn ascending(self) -> bool {
        keys_ascending(entry_models(self.entries@))
    }

    /// The map without entries.
    pub fn new() -> (r: Self)
        ensures
            r@ == Seq::<(Seq<u8>, Frame)>::empty(),
    {
        RespMap { entries: Vec::new() }
    }

    /// Recalls that the keys of a map in memory ascend. Does nothing when
    /// run.
    pub fn ordered(&self)
        ensures
            keys_ascending(self@),
    {
        proof {
            use_type_invariant(self);
        }
    }

    /// The number of entries. Their keys ascend.
    pub fn len(&self) -> (n: usize)
        ensures
            n == self@.len(),
            keys_ascending(self@),
    {
        proof {
            use_type_invariant(self);
            lemma_entry_models(self.entries@);
        }
        self.entries.len()
    }

    /// The key of the entry at `i`, counted in ascending order of the keys.
    pub fn key_at(&self, i: usize) -> (r: &str)
        requires
            i < self@.len(),
        ensures
            encode_utf8(r@) == self@[i as int].0,
    {
        proof {
            lemma_entry_models(self.entries@);
        }
        self.entries[i].0.as_str()
    }

    /// The frame of the entry at `i`, counted in ascending order of the keys.
    pub fn value_at(&self, i: usize) -> (r: &RespFrame)
        requires
            i < self@.len(),
        ensures
            r@ == self@[i as int].1,
            decreases_to!(self => r),
    {
        proof {
            lemma_entry_models(self.entries@);
        }
        &self.entries[i].1
    }

    /// The index at which `key` stands or would be put.
    fn position(&self, key: &[u8]) -> (at: usize)
        ensures
            at == rank(self@, key@),
            at <= self@.len(),
    {
        proof {
            use_type_invariant(self);
            lemma_entry_models(self.entries@);
        }
        let mut i: usize = 0;
        while i < self.entries.len() && less(self.entries[i].0.as_str().as_bytes(), key)
            invariant
                i <= self.entries@.len(),
                self@.len() == self.entries@.len(),
                forall|k: int|
                    0 <= k < self.entries@.len() ==> (#[trigger] self@[k]) == (
                        encode_utf8(self.entries@[k].0@),
                        self.entries@[k].1@,
                    ),
                forall|k: int| 0 <= k < i ==> bytes_less(#[trigger] self@[k].0, key@),
            decreases self.entries@.len() - i,
        {
            i = i + 1;
        }
        proof {
            lemma_rank_is(self@, key@, i as int);
        }
        i
    }

    /// Binds `key` to `value`, and hands back what `key` was bound to before,
    /// if anything.
    pub fn insert(&mut self, key: String, value: RespFrame) -> (r: Option<RespFrame>)
        ensures
            final(self)@ == dict_insert(old(self)@, encode_utf8(key@), value@),
            match r {
                Some(before) => dict_get(old(self)@, encode_utf8(key@)) == Some(before@),
                None => dict_get(old(self)@, encode_utf8(key@)) is None,
            },
    {
        let at: usize = self.position(key.as_str().as_bytes());
        proof {
            use_type_invariant(&*self);
            lemma_entry_models(self.entries@);
            lemma_insert_ascending(self@, encode_utf8(key@), value@);
        }
        let ghost before = self.entries@;
        let ghost k = encode_utf8(key@);
        let ghost v = value@;
        let found: bool = at < self.entries.len() && same(
            self.entries[at].0.as_str().as_bytes(),
            key.as_str().as_bytes(),
        );
        let mut entries: Vec<(String, RespFrame)> = Vec::new();
        core::mem::swap(&mut self.entries, &mut entries);
        let displaced = if found {
            let gone = entries.remove(at);
            Some(gone.1)
        } else {
            None
        };
        entries.insert(at, (key, value));
        proof {
            lemma_entry_models(entries@);
            assert(entry_models(entries@) =~= dict_insert(entry_models(before), k, v));
        }
        core::mem::swap(&mut self.entries, &mut entries);
        displaced
    }

    /// The frame that `key` is bound to, if any.
    pub fn get(&self, key: &str) -> (r: Option<&RespFrame>)
        ensures
            r is Some <==> dict_get(self@, encode_utf8(key@)) is Some,
            r matches Some(f) ==> Some(f@) == dict_get(self@, encode_utf8(key@)),
    {
        let at: usize = self.position(key.as_bytes());
        proof {
            lemma_entry_models(self.entries@);
        }
        if at < self.entries.len() && same(self.entries[at].0.as_str().as_bytes(), key.as_bytes()) {
            Some(&self.entries[at].1)
        } else {
            None
        }
    }
}

/// A copy of each frame of `items`, in order.
pub fn clone_frames(items: &Vec<RespFrame>) -> (r: Vec<RespFrame>)
    ensures
        models(r@) == models(items@),
    decreases items,
{
    let mut out: Vec<RespFrame> = Vec::new();
    let mut i: usize = 0;
    while i < items.len()
        invariant
            i <= items@.len(),
            out@.len() == i,
            forall|k: int| 0 <= k < i ==> (#[trigger] out@[k])@ == items@[k]@,
        decreases items@.len() - i,
    {
        let item = items[i].clone();
        out.push(item);
        i = i + 1;
    }
    proof {
        lemma_models(out@);
        lemma_models(items@);
        assert(models(out@) =~= models(items@));
    }
    out
}

impl Clone for SimpleString {
    fn clone(&self) -> (r: Self)
        ensures
            r@ == self@,
    {
        SimpleString(self.0.clone())
    }
}

impl Clone for SimpleError {
    fn clone(&self) -> (r: Self)
        ensures
            r@ == self@,
    {
        SimpleError(self.0.clone())
    }
}

impl Clone for BulkString {
    fn clone(&self) -> (r: Self)
        ensures
            r@ == self@,
    {
        BulkString(vstd::slice::slice_to_vec(self.0.as_slice()))
    }
}

impl Clone for RespNullBulkString {
    fn clone(&self) -> (r: Self) {
        RespNullBulkString
    }
}

impl Clone for RespNullArray {
    fn clone(&self) -> (r: Self) {
        RespNullArray
    }
}

impl Clone for RespNull {
    fn clone(&self) -> (r: Self) {
        RespNull
    }
}

impl Clone for RespDouble {
    fn clone(&self) -> (r: Self)
        ensures
            r@ == self@,
    {
        proof {
            use_type_invariant(self);
        }
        RespDouble { text: vstd::slice::slice_to_vec(self.text.as_slice()) }
    }
}

impl Clone for RespArray {
    fn clone(&self) -> (r: Self)
        ensures
            r@ == self@,
        decreases self,
    {
        RespArray(clone_frames(&self.0))
    }
}

impl Clone for RespSet {
    fn clone(&self) -> (r: Self)
        ensures
            r@ == self@,
        decreases self,
    {
        RespSet(clone_frames(&self.0))
    }
}

impl Default for RespMap {
    fn default() -> (r: Self)
        ensures
            r@ == Seq::<(Seq<u8>, Frame)>::empty(),
    {
        RespMap::new()
    }
}

impl Clone for RespMap {
    fn clone(&self) -> (r: Self)
        ensures
            r@ == self@,
        decreases self,
    {
        proof {
            use_type_invariant(self);
        }
        let mut out: Vec<(String, RespFrame)> = Vec::new();
        let mut i: usize = 0;
        while i < self.entries.len()
            invariant
                i <= self.entries@.len(),
                out@.len() == i,
                forall|k: int|
                    0 <= k < i ==> (#[trigger] out@[k]).0@ == self.entries@[k].0@ && out@[k].1@
                        == self.entries@[k].1@,
            decreases self.entries@.len() - i,
        {
            let key = self.entries[i].0.clone();
            let value = self.entries[i].1.clone();
            out.push((key, value));
            i = i + 1;
        }
        proof {
            lemma_entry_models(out@);
            lemma_entry_models(self.entries@);
            assert(entry_models(out@) =~= entry_models(self.entries@));
        }
        RespMap { entries: out }
    }
}

impl Clone for RespFrame {
    fn clone(&self) -> (r: Self)
        ensures
            r@ == self@,
        decreases self,
    {
        match self {
            RespFrame::SimpleString(s) => RespFrame::SimpleString(s.clone()),
            RespFrame::Error(e) => RespFrame::Error(e.clone()),
            RespFrame::Integer(v) => RespFrame::Integer(*v),
            RespFrame::BulkString(b) => RespFrame::BulkString(b.clone()),
            RespFrame::NullBulkString(_) => RespFrame::NullBulkString(RespNullBulkString),
            RespFrame::Array(a) => RespFrame::Array(a.clone()),
            RespFrame::Null(_) => RespFrame::Null(RespNull),
            RespFrame::NullArray(_) => RespFrame::NullArray(RespNullArray),
            RespFrame::Boolean(b) => RespFrame::Boolean(*b),
            RespFrame::Double(d) => RespFrame::Double(d.clone()),
            RespFrame::RespMap(m) => RespFrame::RespMap(m.clone()),
            RespFrame::RespSet(s) => RespFrame::RespSet(s.clone()),
        }
    }
}

} // verus!
