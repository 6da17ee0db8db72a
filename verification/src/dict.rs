//! Maps as they are modelled here: entries in a row, their keys ascending
//! in the order of the dictionary, so that a key has one place.

use crate::lex::{bytes_less, lemma_less_irreflexive, lemma_less_total, lemma_less_transitive};
use vstd::prelude::*;

verus! {

/// Whether the keys of `entries` ascend strictly, so that none occurs twice.
pub open spec fn keys_ascending<V>(entries: Seq<(Seq<u8>, V)>) -> bool {
    forall|i: int, j: int|
        0 <= i < j < entries.len() ==> bytes_less(#[trigger] entries[i].0, #[trigger] entries[j].0)
}

/// The number of entries of `entries` that come before the place of `key`:
/// those at the front whose key is less.
pub open spec fn rank<V>(entries: Seq<(Seq<u8>, V)>, key: Seq<u8>) -> int
    decreases entries.len(),
{
    if entries.len() > 0 && bytes_less(entries[0].0, key) {
        1 + rank(entries.subrange(1, entries.len() as int), key)
    } else {
        0
    }
}

/// `entries` with `key` bound to `value`: in place of the entry of that key
/// where there is one, else at the place that keeps the keys ascending.
pub open spec fn dict_insert<V>(entries: Seq<(Seq<u8>, V)>, key: Seq<u8>, value: V) -> Seq<
    (Seq<u8>, V),
> {
    let at = rank(entries, key);
    if at < entries.len() && entries[at].0 == key {
        entries.update(at, (key, value))
    } else {
        entries.insert(at, (key, value))
    }
}

/// What `key` is bound to in `entries`, if anything.
pub open spec fn dict_get<V>(entries: Seq<(Seq<u8>, V)>, key: Seq<u8>) -> Option<V> {
    let at = rank(entries, key);
    if at < entries.len() && entries[at].0 == key {
        Some(entries[at].1)
    } else {
        None
    }
}

/// The rank of a key lies within the entries; those before it are less than
/// the key, and the entry at it, if any, is not.
pub proof fn lemma_rank<V>(entries: Seq<(Seq<u8>, V)>, key: Seq<u8>)
    ensures
        0 <= rank(entries, key) <= entries.len(),
        forall|i: int| 0 <= i < rank(entries, key) ==> bytes_less(#[trigger] entries[i].0, key),
        rank(entries, key) < entries.len() ==> !bytes_less(entries[rank(entries, key)].0, key),
    decreases entries.len(),
{
    if entries.len() > 0 && bytes_less(entries[0].0, key) {
        let rest = entries.subrange(1, entries.len() as int);
        lemma_rank(rest, key);
        assert forall|i: int| 0 <= i < rank(entries, key) implies bytes_less(
            #[trigger] entries[i].0,
            key,
        ) by {
            if i > 0 {
                assert(entries[i] == rest[i - 1]);
            }
        }
        if rank(entries, key) < entries.len() {
            assert(entries[rank(entries, key)] == rest[rank(rest, key)]);
        }
    }
}

/// The rank of a key is the one index that parts the lesser keys from the
/// others.
pub proof fn lemma_rank_is<V>(entries: Seq<(Seq<u8>, V)>, key: Seq<u8>, at: int)
    requires
        0 <= at <= entries.len(),
        forall|i: int| 0 <= i < at ==> bytes_less(#[trigger] entries[i].0, key),
        at < entries.len() ==> !bytes_less(entries[at].0, key),
    ensures
        rank(entries, key) == at,
    decreases entries.len(),
{
    if at > 0 {
        let rest = entries.subrange(1, entries.len() as int);
        assert(bytes_less(entries[0].0, key));
        assert forall|i: int| 0 <= i < at - 1 implies bytes_less(#[trigger] rest[i].0, key) by {
            assert(rest[i] == entries[i + 1]);
        }
        if at - 1 < rest.len() {
            assert(rest[at - 1] == entries[at]);
        }
        lemma_rank_is(rest, key, at - 1);
    }
}

/// Binding a key keeps ascending keys ascending.
pub proof fn lemma_insert_ascending<V>(entries: Seq<(Seq<u8>, V)>, key: Seq<u8>, value: V)
    requires
        keys_ascending(entries),
    ensures
        keys_ascending(dict_insert(entries, key, value)),
{
    let at = rank(entries, key);
    let out = dict_insert(entries, key, value);
    lemma_rank(entries, key);
    if at < entries.len() && entries[at].0 == key {
        assert forall|i: int, j: int| 0 <= i < j < out.len() implies bytes_less(
            #[trigger] out[i].0,
            #[trigger] out[j].0,
        ) by {
            assert(out[i].0 == entries[i].0);
            assert(out[j].0 == entries[j].0);
        }
    } else {
        assert forall|i: int, j: int| 0 <= i < j < out.len() implies bytes_less(
            #[trigger] out[i].0,
            #[trigger] out[j].0,
        ) by {
            if j < at {
                assert(out[i] == entries[i] && out[j] == entries[j]);
            } else if j == at {
                assert(out[i] == entries[i]);
            } else if i < at {
                assert(out[i] == entries[i] && out[j] == entries[j - 1]);
                assert(i < j - 1);
            } else if i == at {
                assert(out[j] == entries[j - 1]);
                lemma_less_total(entries[at].0, key);
                if j - 1 > at {
                    assert(bytes_less(entries[at].0, entries[j - 1].0));
                    lemma_less_transitive(key, entries[at].0, entries[j - 1].0);
                }
            } else {
                assert(out[i] == entries[i - 1] && out[j] == entries[j - 1]);
            }
        }
    }
}

/// A key that is greater than every key present goes to the end.
pub proof fn lemma_insert_last<V>(entries: Seq<(Seq<u8>, V)>, key: Seq<u8>, value: V)
    requires
        forall|i: int| 0 <= i < entries.len() ==> bytes_less(#[trigger] entries[i].0, key),
    ensures
        dict_insert(entries, key, value) == entries.push((key, value)),
{
    lemma_rank_is(entries, key, entries.len() as int);
    assert(entries.insert(entries.len() as int, (key, value)) =~= entries.push((key, value)));
}

/// A key that was bound stands at its rank, with the value it was given.
pub proof fn lemma_rank_after_insert<V>(entries: Seq<(Seq<u8>, V)>, key: Seq<u8>, value: V)
    ensures
        rank(dict_insert(entries, key, value), key) == rank(entries, key),
        dict_insert(entries, key, value)[rank(entries, key)] == (key, value),
        rank(entries, key) < dict_insert(entries, key, value).len(),
{
    let at = rank(entries, key);
    let out = dict_insert(entries, key, value);
    lemma_rank(entries, key);
    lemma_less_irreflexive(key);
    assert forall|i: int| 0 <= i < at implies bytes_less(#[trigger] out[i].0, key) by {
        assert(out[i] == entries[i]);
    }
    lemma_rank_is(out, key, at);
}

/// What a key was bound to is what is found under it.
pub proof fn lemma_get_after_insert<V>(entries: Seq<(Seq<u8>, V)>, key: Seq<u8>, value: V)
    ensures
        dict_get(dict_insert(entries, key, value), key) == Some(value),
{
    lemma_rank_after_insert(entries, key, value);
}

/// Binding a key twice to the same value is binding it once.
pub proof fn lemma_insert_twice<V>(entries: Seq<(Seq<u8>, V)>, key: Seq<u8>, value: V)
    ensures
        dict_insert(dict_insert(entries, key, value), key, value) == dict_insert(
            entries,
            key,
            value,
        ),
{
    lemma_rank(entries, key);
    lemma_rank_after_insert(entries, key, value);
    let once = dict_insert(entries, key, value);
    assert(once.update(rank(entries, key), (key, value)) =~= once);
}

/// Binding a key leaves what is found under every other key as it was.
pub proof fn lemma_get_other_after_insert<V>(
    entries: Seq<(Seq<u8>, V)>,
    key: Seq<u8>,
    value: V,
    other: Seq<u8>,
)
    requires
        keys_ascending(entries),
        other != key,
    ensures
        dict_get(dict_insert(entries, key, value), other) == dict_get(entries, other),
{
    let at = rank(entries, key);
    let r = rank(entries, other);
    let out = dict_insert(entries, key, value);
    lemma_rank(entries, key);
    lemma_rank(entries, other);
    lemma_less_total(key, other);
    if at < entries.len() && entries[at].0 == key {
        assert forall|i: int| 0 <= i < r implies bytes_less(#[trigger] out[i].0, other) by {
            assert(out[i].0 == entries[i].0);
        }
        if r < out.len() {
            assert(out[r].0 == entries[r].0);
        }
        lemma_rank_is(out, other, r);
    } else if bytes_less(other, key) {
        if r > at {
            assert(bytes_less(entries[at].0, other));
            lemma_less_transitive(entries[at].0, other, key);
        }
        assert forall|i: int| 0 <= i < r implies bytes_less(#[trigger] out[i].0, other) by {
            assert(out[i] == entries[i]);
        }
        if r < at {
            assert(out[r] == entries[r]);
        } else {
            assert(out[r] == (key, value));
            if at < entries.len() {
                lemma_less_total(entries[at].0, key);
                lemma_less_irreflexive(other);
                if entries[at].0 == other {
                    lemma_less_transitive(other, key, other);
                }
            }
        }
        lemma_rank_is(out, other, r);
    } else {
        if r < at {
            assert(bytes_less(entries[r].0, key));
            lemma_less_transitive(entries[r].0, key, other);
        }
        assert forall|i: int| 0 <= i < r + 1 implies bytes_less(#[trigger] out[i].0, other) by {
            if i < at {
                assert(out[i] == entries[i]);
                lemma_less_transitive(entries[i].0, key, other);
            } else if i == at {
                assert(out[i] == (key, value));
            } else {
                assert(out[i] == entries[i - 1]);
            }
        }
        if r < entries.len() {
            assert(out[r + 1] == entries[r]);
        }
        lemma_rank_is(out, other, r + 1);
    }
}

/// An entry of a map stands at the rank of its key, and is what is found
/// under that key.
pub proof fn lemma_rank_of_entry<V>(entries: Seq<(Seq<u8>, V)>, i: int)
    requires
        keys_ascending(entries),
        0 <= i < entries.len(),
    ensures
        rank(entries, entries[i].0) == i,
        dict_get(entries, entries[i].0) == Some(entries[i].1),
{
    lemma_less_irreflexive(entries[i].0);
    lemma_rank_is(entries, entries[i].0, i);
}

/// What is found under a key is an entry of the map.
pub proof fn lemma_get_is_entry<V>(entries: Seq<(Seq<u8>, V)>, key: Seq<u8>)
    requires
        dict_get(entries, key) is Some,
    ensures
        0 <= rank(entries, key) < entries.len(),
        entries[rank(entries, key)] == (key, dict_get(entries, key)->Some_0),
{
    lemma_rank(entries, key);
}

/// Two maps under which the same is found agree on their first `i` entries.
proof fn lemma_same_entries<V>(a: Seq<(Seq<u8>, V)>, b: Seq<(Seq<u8>, V)>, i: int)
    requires
        keys_ascending(a),
        keys_ascending(b),
        forall|k: Seq<u8>| dict_get(a, k) == dict_get(b, k),
        0 <= i <= a.len(),
    ensures
        i <= b.len(),
        forall|k: int| 0 <= k < i ==> a[k] == b[k],
    decreases i,
{
    if i > 0 {
        let at = i - 1;
        lemma_same_entries(a, b, at);
        let key = a[at].0;
        lemma_rank_of_entry(a, at);
        assert(dict_get(b, key) == dict_get(a, key));
        lemma_get_is_entry(b, key);
        let j = rank(b, key);
        lemma_less_irreflexive(key);
        if j < at {
            assert(a[j] == b[j]);
            assert(bytes_less(a[j].0, a[at].0));
        } else if j > at {
            let other = b[at].0;
            assert(bytes_less(other, key));
            lemma_rank_of_entry(b, at);
            assert(dict_get(a, other) == dict_get(b, other));
            lemma_get_is_entry(a, other);
            let back = rank(a, other);
            lemma_less_total(other, key);
            lemma_less_irreflexive(other);
            if back < at {
                assert(a[back] == b[back]);
                assert(bytes_less(b[back].0, b[at].0));
            } else if back > at {
                assert(bytes_less(a[at].0, a[back].0));
            }
        }
    }
}

/// A map is known by what is found under each key: two maps under which the
/// same is found are the same map.
pub proof fn lemma_dict_extensional<V>(a: Seq<(Seq<u8>, V)>, b: Seq<(Seq<u8>, V)>)
    requires
        keys_ascending(a),
        keys_ascending(b),
        forall|k: Seq<u8>| dict_get(a, k) == dict_get(b, k),
    ensures
        a == b,
{
    lemma_same_entries(a, b, a.len() as int);
    lemma_same_entries(b, a, b.len() as int);
    assert(a =~= b);
}

} // verus!
