//! What holds of the codec as a whole.

use crate::backend::Store;
use crate::cmd::{effect_of, Request};
use crate::dict::{
    lemma_dict_extensional, lemma_get_after_insert, lemma_get_other_after_insert,
    lemma_insert_ascending, lemma_insert_twice,
};
use crate::encode::{wire, wire_all};
use crate::error::RespError;
use crate::frame::{well_formed, Frame};
use crate::parse::{frames_of, parse, residue_of, rest_of};
use crate::pipeline::{after, answer, last_words, replies, serve, store_after};
use crate::prefix::lemma_parse_take;
use crate::roundtrip::{lemma_parse_wire, plain};
use vstd::prelude::*;

verus! {

/// Decoding undoes encoding: the bytes written for a frame are read back as
/// that frame, all of them and no more, where the frame's simple strings,
/// simple errors and keys hold no carriage return or line feed and its
/// counts fit 64 bits.
///
/// Every frame in memory is well formed, as `push_frame` shows, and a text
/// holds those two bytes only where it holds those two characters, as
/// `lemma_one_line_text` shows.
pub proof fn law_round_trip(f: Frame)
    requires
        well_formed(f),
        plain(f),
    ensures
        parse(wire(f)) == Ok::<(Frame, int), RespError>((f, wire(f).len() as int)),
{
    reveal(parse);
    assert(wire(f).subrange(0, wire(f).len() as int) =~= wire(f));
    lemma_parse_wire(wire(f), 0, f);
}

/// A buffer that holds the beginning of a frame and not all of it yields
/// `NotComplete`: where `whole` starts with a frame of `n` bytes, each of its
/// prefixes of fewer than `n` bytes is reported as not complete.
pub proof fn law_strict_prefix_is_not_complete(whole: Seq<u8>, cut: int)
    requires
        parse(whole) is Ok,
        0 <= cut < parse(whole).unwrap().1,
    ensures
        parse(whole.take(cut)) == Err::<(Frame, int), RespError>(RespError::NotComplete),
{
    lemma_parse_take(whole, whole.len() as int);
    lemma_parse_take(whole, cut);
}

/// A frame that a buffer holds in full is read the same whatever follows it:
/// the bytes behind a frame have no part in how it is read.
pub proof fn law_complete_frame_is_final(whole: Seq<u8>, cut: int)
    requires
        parse(whole) is Ok,
        parse(whole).unwrap().1 <= cut <= whole.len(),
    ensures
        parse(whole.take(cut)) == parse(whole),
{
    lemma_parse_take(whole, whole.len() as int);
    lemma_parse_take(whole, cut);
}

/// Bytes may arrive in two parts, split at any place: where `whole` is made
/// of frames and nothing else, the frames taken from its first `split` bytes
/// and then, once the others have joined what was left, from the buffer
/// again, are the frames of `whole`, and nothing is left at the end.
pub proof fn law_incremental_decoding(whole: Seq<u8>, split: int)
    requires
        residue_of(whole) == Seq::<u8>::empty(),
        0 <= split <= whole.len(),
    ensures
        frames_of(whole.take(split)) + frames_of(
            residue_of(whole.take(split)) + rest_of(whole, split),
        ) == frames_of(whole),
        residue_of(residue_of(whole.take(split)) + rest_of(whole, split)) == Seq::<u8>::empty(),
    decreases whole.len(),
{
    let first = whole.take(split);
    let second = rest_of(whole, split);
    if whole.len() == 0 {
        assert(first =~= whole);
        assert(residue_of(first) + second =~= whole);
    } else {
        assert(parse(whole) is Ok);
        let (f, n) = parse(whole).unwrap();
        assert(0 < n <= whole.len());
        lemma_parse_take(whole, split);
        let later = rest_of(whole, n);
        if n <= split {
            assert(rest_of(first, n) =~= later.take(split - n));
            assert(rest_of(later, split - n) =~= second);
            law_incremental_decoding(later, split - n);
            assert(frames_of(first) == seq![f] + frames_of(later.take(split - n)));
            assert(residue_of(first) == residue_of(later.take(split - n)));
            assert(frames_of(whole) == seq![f] + frames_of(later));
            assert(frames_of(first) + frames_of(residue_of(first) + second) =~= frames_of(whole));
        } else {
            assert(frames_of(first) =~= Seq::<Frame>::empty());
            assert(residue_of(first) == first);
            assert(first + second =~= whole);
            assert(frames_of(first) + frames_of(residue_of(first) + second) =~= frames_of(whole));
        }
    }
}

/// `SET k v` carried out twice leaves the store as `SET k v` carried out
/// once leaves it.
pub proof fn law_set_is_idempotent(store: Store, key: Seq<u8>, value: Frame)
    ensures
        effect_of(Request::SetValue { key, value }, effect_of(Request::SetValue { key, value }, store))
            == effect_of(Request::SetValue { key, value }, store),
{
    lemma_insert_twice(store.kv, key, value);
}

/// `HSET k f v` carried out twice leaves the store as `HSET k f v` carried
/// out once leaves it.
pub proof fn law_hset_is_idempotent(store: Store, key: Seq<u8>, field: Seq<u8>, value: Frame)
    ensures
        effect_of(
            Request::HSet { key, field, value },
            effect_of(Request::HSet { key, field, value }, store),
        ) == effect_of(Request::HSet { key, field, value }, store),
{
    let fields = crate::backend::fields_of(store.hmap, key);
    let hash = Frame::Dict(crate::dict::dict_insert(fields, field, value));
    lemma_get_after_insert(store.hmap, key, hash);
    lemma_insert_twice(fields, field, value);
    lemma_insert_twice(store.hmap, key, hash);
}

/// Two `SET`s on different keys do not get in each other's way: in
/// whichever order they are carried out, the store is the same in the end:
/// it holds both writes, and under every other key what it held before.
pub proof fn law_sets_on_different_keys(
    store: Store,
    key1: Seq<u8>,
    value1: Frame,
    key2: Seq<u8>,
    value2: Frame,
)
    requires
        store.ordered(),
        key1 != key2,
    ensures
        store.set(key1, value1).set(key2, value2).get(key1) == Some(value1),
        store.set(key1, value1).set(key2, value2).get(key2) == Some(value2),
        store.set(key2, value2).set(key1, value1).get(key1) == Some(value1),
        store.set(key2, value2).set(key1, value1).get(key2) == Some(value2),
        forall|k: Seq<u8>|
            k != key1 && k != key2 ==> #[trigger] store.set(key1, value1).set(key2, value2).get(k)
                == store.get(k),
        forall|k: Seq<u8>| #[trigger]
            store.set(key1, value1).set(key2, value2).get(k) == store.set(key2, value2).set(
                key1,
                value1,
            ).get(k),
        store.set(key1, value1).set(key2, value2) == store.set(key2, value2).set(key1, value1),
        store.set(key1, value1).set(key2, value2).hmap == store.hmap,
{
    let one = crate::dict::dict_insert(store.kv, key1, value1);
    let two = crate::dict::dict_insert(store.kv, key2, value2);
    lemma_insert_ascending(store.kv, key1, value1);
    lemma_insert_ascending(store.kv, key2, value2);
    lemma_get_after_insert(store.kv, key1, value1);
    lemma_get_after_insert(store.kv, key2, value2);
    lemma_get_after_insert(one, key2, value2);
    lemma_get_after_insert(two, key1, value1);
    lemma_get_other_after_insert(one, key2, value2, key1);
    lemma_get_other_after_insert(two, key1, value1, key2);
    assert forall|k: Seq<u8>| k != key1 && k != key2 implies #[trigger] store.set(
        key1,
        value1,
    ).set(key2, value2).get(k) == store.get(k) && store.set(key2, value2).set(key1, value1).get(k)
        == store.get(k) by {
        lemma_get_other_after_insert(store.kv, key1, value1, k);
        lemma_get_other_after_insert(one, key2, value2, k);
        lemma_get_other_after_insert(store.kv, key2, value2, k);
        lemma_get_other_after_insert(two, key1, value1, k);
    }
    assert forall|k: Seq<u8>| #[trigger]
        store.set(key1, value1).set(key2, value2).get(k) == store.set(key2, value2).set(
            key1,
            value1,
        ).get(k) by {
        if k != key1 && k != key2 {
            lemma_get_other_after_insert(store.kv, key1, value1, k);
            lemma_get_other_after_insert(one, key2, value2, k);
            lemma_get_other_after_insert(store.kv, key2, value2, k);
            lemma_get_other_after_insert(two, key1, value1, k);
        }
    }
    let first = crate::dict::dict_insert(one, key2, value2);
    let second = crate::dict::dict_insert(two, key1, value1);
    lemma_insert_ascending(one, key2, value2);
    lemma_insert_ascending(two, key1, value1);
    assert forall|k: Seq<u8>| crate::dict::dict_get(first, k) == crate::dict::dict_get(
        second,
        k,
    ) by {
        assert(store.set(key1, value1).set(key2, value2).get(k) == store.set(key2, value2).set(
            key1,
            value1,
        ).get(k));
    }
    lemma_dict_extensional(first, second);
}

/// The replies stand in the output in the order of the requests: what is
/// written for a buffer is the reply to its first frame, then the reply to
/// its second, and so on, and behind them the refusal of what is no frame,
/// where there is such. What stays in the buffer is what holds no frame.
pub proof fn law_replies_in_request_order(store: Store, s: Seq<u8>)
    ensures
        serve(store, s).output == wire_all(replies(store, frames_of(s))) + last_words(s),
        serve(store, s).rest == residue_of(s),
        serve(store, s).store == store_after(store, frames_of(s)),
        replies(store, frames_of(s)).len() == frames_of(s).len(),
    decreases s.len(),
{
    match parse(s) {
        Ok((frame, next)) => {
            if 0 < next <= s.len() {
                let later = rest_of(s, next);
                let then = after(frame, store);
                law_replies_in_request_order(then, later);
                let frames = frames_of(s);
                assert(frames == seq![frame] + frames_of(later));
                assert(frames.drop_first() =~= frames_of(later));
                assert(frames[0] == frame);
                let all = replies(store, frames);
                assert(all == seq![answer(frame, store)] + replies(then, frames_of(later)));
                assert(all.drop_first() =~= replies(then, frames_of(later)));
                assert(wire_all(all) == wire(answer(frame, store)) + wire_all(
                    replies(then, frames_of(later)),
                ));
                assert(last_words(s) == last_words(later));
                assert(serve(store, s).output =~= wire_all(all) + last_words(s));
            } else {
                assert(wire_all(replies(store, frames_of(s))) + last_words(s) =~= Seq::<
                    u8,
                >::empty());
            }
        },
        Err(e) => {
            assert(wire_all(replies(store, frames_of(s))) + last_words(s) =~= last_words(s));
        },
    }
}

/// The reply to a request depends on the requests before it and on no
/// other: the reply at index `i` is the reply to the frame at index `i` from
/// the store as the frames before it left it.
pub proof fn law_reply_follows_earlier_requests(store: Store, frames: Seq<Frame>, i: int)
    requires
        0 <= i < frames.len(),
    ensures
        replies(store, frames).len() == frames.len(),
        replies(store, frames)[i] == answer(frames[i], store_after(store, frames.take(i))),
    decreases frames.len(),
{
    lemma_replies_len(store, frames);
    if i == 0 {
        assert(frames.take(0) =~= Seq::<Frame>::empty());
    } else {
        let rest = frames.drop_first();
        let then = after(frames[0], store);
        law_reply_follows_earlier_requests(then, rest, i - 1);
        assert(frames.take(i).drop_first() =~= rest.take(i - 1));
        assert(frames.take(i)[0] == frames[0]);
    }
}

/// There is one reply for each frame.
pub proof fn lemma_replies_len(store: Store, frames: Seq<Frame>)
    ensures
        replies(store, frames).len() == frames.len(),
    decreases frames.len(),
{
    if frames.len() > 0 {
        lemma_replies_len(after(frames[0], store), frames.drop_first());
    }
}

/// What is read from a buffer, once it is a frame or a failure other than
/// `NotComplete`, is what is read from it whatever bytes arrive later.
pub proof fn law_definite_outcome_is_final(whole: Seq<u8>, cut: int)
    requires
        0 <= cut <= whole.len(),
        parse(whole.take(cut)) != Err::<(Frame, int), RespError>(RespError::NotComplete),
    ensures
        parse(whole) == parse(whole.take(cut)),
{
    lemma_parse_take(whole, cut);
}

/// Serving bytes as they arrive is serving them all at once: where the bytes
/// `first` are served, and then, with the bytes `second` behind what stayed
/// in the buffer, the buffer again, the replies, the store, the buffer and
/// the state of the connection are those of serving `first` and `second`
/// together. This holds of all bytes, frames or not, as long as the
/// connection was not closed in between.
pub proof fn law_serving_in_two_parts(store: Store, first: Seq<u8>, second: Seq<u8>)
    requires
        !serve(store, first).closed,
    ensures
        serve(store, first + second).output == serve(store, first).output + serve(
            serve(store, first).store,
            serve(store, first).rest + second,
        ).output,
        serve(store, first + second).store == serve(
            serve(store, first).store,
            serve(store, first).rest + second,
        ).store,
        serve(store, first + second).rest == serve(
            serve(store, first).store,
            serve(store, first).rest + second,
        ).rest,
        serve(store, first + second).closed == serve(
            serve(store, first).store,
            serve(store, first).rest + second,
        ).closed,
    decreases first.len(),
{
    let all = first + second;
    let one = serve(store, first);
    let two = serve(one.store, one.rest + second);
    assert(all.take(first.len() as int) =~= first);
    lemma_parse_take(all, first.len() as int);
    lemma_parse_take(first, first.len() as int);
    match parse(first) {
        Ok((frame, next)) => {
            let then = after(frame, store);
            let later = rest_of(first, next);
            assert(parse(all) == parse(first));
            assert(rest_of(all, next) =~= later + second);
            law_serving_in_two_parts(then, later, second);
            let tail = serve(then, later);
            assert(one.output == wire(answer(frame, store)) + tail.output);
            assert(serve(store, all).output == wire(answer(frame, store)) + serve(
                then,
                later + second,
            ).output);
            assert(serve(store, all).output =~= one.output + two.output);
        },
        Err(e) => {
            assert(one.output + two.output =~= two.output);
        },
    }
}

} // verus!
