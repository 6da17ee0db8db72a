//! The store behind the commands: plain keys bound to frames, and keys
//! bound to hashes, which bind fields to frames.

use crate::dict::{dict_get, dict_insert, keys_ascending, lemma_rank, lemma_rank_after_insert, rank};
use crate::frame::{Frame, RespFrame, RespMap};
use vstd::prelude::*;
use vstd::utf8::*;

verus! {

/// The model of the store: the plain keys with their frames, and the keys of
/// the hashes, each with its hash as a map frame; both in ascending order of
/// their keys.
pub struct Store {
    pub kv: Seq<(Seq<u8>, Frame)>,
    pub hmap: Seq<(Seq<u8>, Frame)>,
}

/// The fields that `key` holds as a hash: none where `key` holds no hash.
pub open spec fn fields_of(hmap: Seq<(Seq<u8>, Frame)>, key: Seq<u8>) -> Seq<(Seq<u8>, Frame)> {
    match dict_get(hmap, key) {
        Some(Frame::Dict(fields)) => fields,
        _ => Seq::empty(),
    }
}

impl Store {
    /// The store that holds nothing.
    pub open spec fn empty() -> Store {
        Store { kv: Seq::empty(), hmap: Seq::empty() }
    }

    /// Whether the keys of the store ascend, as the keys of every store in
    /// memory do.
    pub open spec fn ordered(self) -> bool {
        keys_ascending(self.kv) && keys_ascending(self.hmap)
    }

    /// What the plain key `key` is bound to.
    pub open spec fn get(self, key: Seq<u8>) -> Option<Frame> {
        dict_get(self.kv, key)
    }

    /// The store with the plain key `key` bound to `value`.
    pub open spec fn set(self, key: Seq<u8>, value: Frame) -> Store {
        Store { kv: dict_insert(self.kv, key, value), hmap: self.hmap }
    }

    /// The fields of the hash under `key`, where there is one.
    pub open spec fn hgetall(self, key: Seq<u8>) -> Option<Seq<(Seq<u8>, Frame)>> {
        match dict_get(self.hmap, key) {
            Some(Frame::Dict(fields)) => Some(fields),
            _ => None,
        }
    }

    /// What the field `field` of the hash under `key` is bound to.
    pub open spec fn hget(self, key: Seq<u8>, field: Seq<u8>) -> Option<Frame> {
        dict_get(fields_of(self.hmap, key), field)
    }

    /// The store with the field `field` of the hash under `key` bound to
    /// `value`; the hash is made where `key` held none.
    pub open spec fn hset(self, key: Seq<u8>, field: Seq<u8>, value: Frame) -> Store {
        Store {
            kv: self.kv,
            hmap: dict_insert(
                self.hmap,
                key,
                Frame::Dict(dict_insert(fields_of(self.hmap, key), field, value)),
            ),
        }
    }
}

/// The store in memory.
#[derive(Debug)]
pub struct Backend {
    kv: RespMap,
    hmap: RespMap,
}

impl View for Backend {
    type V = Store;

    closed spec fn view(&self) -> Store {
        Store { kv: self.kv@, hmap: self.hmap@ }
    }
}

impl Backend {
    /// A store that holds nothing.
    pub fn new() -> (r: Self)
        ensures
            r@ == Store::empty(),
    {
        Backend { kv: RespMap::new(), hmap: RespMap::new() }
    }

    /// A copy of the frame that the plain key `key` is bound to.
    pub fn get(&self, key: &str) -> (r: Option<RespFrame>)
        ensures
            match r {
                Some(f) => self@.get(encode_utf8(key@)) == Some(f@),
                None => self@.get(encode_utf8(key@)) is None,
            },
            self@.ordered(),
    {
        self.kv.ordered();
        self.hmap.ordered();
        match self.kv.get(key) {
            Some(f) => Some(f.clone()),
            None => None,
        }
    }

    /// Binds the plain key `key` to `value`, in place of what it was bound
    /// to.
    pub fn set(&mut self, key: String, value: RespFrame)
        ensures
            final(self)@ == old(self)@.set(encode_utf8(key@), value@),
            final(self)@.ordered(),
    {
        let _ = self.kv.insert(key, value);
        self.kv.ordered();
        self.hmap.ordered();
    }

    /// The hash under `key`, where there is one.
    pub fn hgetall(&self, key: &str) -> (r: Option<&RespMap>)
        ensures
            match r {
                Some(fields) => self@.hgetall(encode_utf8(key@)) == Some(fields@),
                None => self@.hgetall(encode_utf8(key@)) is None,
            },
            self@.ordered(),
    {
        self.kv.ordered();
        self.hmap.ordered();
        match self.hmap.get(key) {
            Some(RespFrame::RespMap(fields)) => Some(fields),
            _ => None,
        }
    }

    /// A copy of the frame that the field `field` of the hash under `key` is
    /// bound to.
    pub fn hget(&self, key: &str, field: &str) -> (r: Option<RespFrame>)
        ensures
            match r {
                Some(f) => self@.hget(encode_utf8(key@), encode_utf8(field@)) == Some(f@),
                None => self@.hget(encode_utf8(key@), encode_utf8(field@)) is None,
            },
            self@.ordered(),
    {
        match self.hgetall(key) {
            Some(fields) => match fields.get(field) {
                Some(f) => Some(f.clone()),
                None => None,
            },
            None => None,
        }
    }

    /// Binds the field `field` of the hash under `key` to `value`; makes the
    /// hash where `key` held none.
    pub fn hset(&mut self, key: String, field: String, value: RespFrame)
        ensures
            final(self)@ == old(self)@.hset(encode_utf8(key@), encode_utf8(field@), value@),
            final(self)@.ordered(),
    {
        let ghost k = encode_utf8(key@);
        let held = self.hmap.insert(key.clone(), RespFrame::Boolean(false));
        let mut fields = match held {
            Some(RespFrame::RespMap(fields)) => fields,
            _ => RespMap::new(),
        };
        let _ = fields.insert(field, value);
        let ghost between = self.hmap@;
        let _ = self.hmap.insert(key, RespFrame::RespMap(fields));
        proof {
            let h = old(self)@.hmap;
            let hash = Frame::Dict(dict_insert(fields_of(h, k), encode_utf8(field@), value@));
            lemma_overwrite(h, k, Frame::Boolean(false), hash);
        }
        self.kv.ordered();
        self.hmap.ordered();
    }
}

/// A binding that is made over another of the same key leaves no trace of
/// the one it was made over.
pub proof fn lemma_overwrite<V>(entries: Seq<(Seq<u8>, V)>, key: Seq<u8>, first: V, second: V)
    ensures
        dict_insert(dict_insert(entries, key, first), key, second) == dict_insert(
            entries,
            key,
            second,
        ),
{
    lemma_rank(entries, key);
    lemma_rank_after_insert(entries, key, first);
    let at = rank(entries, key);
    let once = dict_insert(entries, key, first);
    assert(once.update(at, (key, second)) =~= dict_insert(entries, key, second));
}

} // verus!
