//! The bounded pool of evictable entries, ordered by recency.
//!
//! The pool itself is an `lru::LruCache`. Its contents are modelled as a
//! sequence of `(key, handle)` pairs, most recently used first; the
//! operations on that sequence are defined and reasoned about here, and the
//! calls into the `lru` crate are trusted to behave as those definitions say.

use crate::handle::{handle_key, RawHandle};
use lru::LruCache;
use std::num::NonZeroUsize;
use vstd::prelude::*;

verus! {

/// What a pool holds: `(key, handle)` pairs, most recently used first.
pub type Entries = Seq<(Seq<char>, RawHandle)>;

/// Whether some entry has key `k`.
pub open spec fn has_key(es: Entries, k: Seq<char>) -> bool {
    exists|i: int| 0 <= i < es.len() && (#[trigger] es[i]).0 == k
}

/// The index of an entry with key `k`, where there is one.
pub open spec fn position(es: Entries, k: Seq<char>) -> int {
    choose|i: int| 0 <= i < es.len() && (#[trigger] es[i]).0 == k
}

/// The handle stored under `k`.
pub open spec fn find(es: Entries, k: Seq<char>) -> Option<RawHandle> {
    if has_key(es, k) {
        Some(es[position(es, k)].1)
    } else {
        None
    }
}

/// The entries with the one under `k` taken out; the others keep their order.
pub open spec fn without(es: Entries, k: Seq<char>) -> Entries {
    if has_key(es, k) {
        es.remove(position(es, k))
    } else {
        es
    }
}

/// The entries after `(k, v)` has been put into a pool that holds at most
/// `limit` of them. The new entry becomes the most recently used one. It
/// replaces an entry with the same key; otherwise, if the pool is full, the
/// least recently used entry makes room for it.
pub open spec fn put(es: Entries, limit: nat, k: Seq<char>, v: RawHandle) -> Entries {
    if has_key(es, k) {
        seq![(k, v)] + es.remove(position(es, k))
    } else if es.len() == limit {
        seq![(k, v)] + es.drop_last()
    } else {
        seq![(k, v)] + es
    }
}

/// No two entries share a key.
pub open spec fn distinct(es: Entries) -> bool {
    forall|i: int, j: int| 0 <= i < j < es.len() ==> (#[trigger] es[i]).0 != (#[trigger] es[j]).0
}

/// Every entry is filed under the key of its own handle.
pub open spec fn keyed(es: Entries) -> bool {
    forall|i: int| 0 <= i < es.len() ==> handle_key((#[trigger] es[i]).1) == es[i].0
}

/// With distinct keys, an entry is found where it stands.
pub proof fn lemma_position_unique(es: Entries, k: Seq<char>, i: int)
    requires
        distinct(es),
        0 <= i < es.len(),
        es[i].0 == k,
    ensures
        has_key(es, k),
        position(es, k) == i,
        find(es, k) == Some(es[i].1),
{
    let p = position(es, k);
    assert(0 <= p < es.len() && es[p].0 == k);
    if p != i {
        if p < i {
            assert(es[p].0 != es[i].0);
        } else {
            assert(es[i].0 != es[p].0);
        }
    }
}

/// Taking the entry under `k` out leaves every other entry as it was.
pub proof fn lemma_without(es: Entries, k: Seq<char>)
    requires
        distinct(es),
    ensures
        distinct(without(es, k)),
        !has_key(without(es, k), k),
        without(es, k).len() == if has_key(es, k) {
            es.len() - 1
        } else {
            es.len() as int
        },
        keyed(es) ==> keyed(without(es, k)),
        forall|k2: Seq<char>|
            k2 != k ==> has_key(without(es, k), k2) == #[trigger] has_key(es, k2),
        forall|k2: Seq<char>| k2 != k ==> #[trigger] find(without(es, k), k2) == find(es, k2),
{
    let w = without(es, k);
    if has_key(es, k) {
        let p = position(es, k);
        assert(0 <= p < es.len() && es[p].0 == k);
        assert forall|j: int| 0 <= j < w.len() implies #[trigger] w[j] == es[if j < p {
            j
        } else {
            j + 1
        }] by {}
        assert(distinct(w)) by {
            assert forall|i: int, j: int| 0 <= i < j < w.len() implies (#[trigger] w[i]).0 != (
            #[trigger] w[j]).0 by {
                let i2 = if i < p { i } else { i + 1 };
                let j2 = if j < p { j } else { j + 1 };
                assert(es[i2].0 != es[j2].0);
            }
        }
        assert(!has_key(w, k)) by {
            if has_key(w, k) {
                let j = position(w, k);
                let j2 = if j < p { j } else { j + 1 };
                assert(w[j] == es[j2]);
                if j2 < p {
                    assert(es[j2].0 != es[p].0);
                } else {
                    assert(es[p].0 != es[j2].0);
                }
            }
        }
        if keyed(es) {
            assert forall|j: int| 0 <= j < w.len() implies handle_key((#[trigger] w[j]).1)
                == w[j].0 by {
                let j2 = if j < p { j } else { j + 1 };
                assert(w[j] == es[j2]);
            }
        }
        assert forall|k2: Seq<char>| k2 != k implies has_key(w, k2) == #[trigger] has_key(
            es,
            k2,
        ) && find(w, k2) == find(es, k2) by {
            if has_key(w, k2) {
                let j = position(w, k2);
                let j2 = if j < p { j } else { j + 1 };
                assert(w[j] == es[j2]);
                lemma_position_unique(es, k2, j2);
                lemma_position_unique(w, k2, j);
            }
            if has_key(es, k2) {
                let i = position(es, k2);
                assert(i != p);
                let i2 = if i < p { i } else { i - 1 };
                assert(w[i2] == es[i]);
                lemma_position_unique(w, k2, i2);
                lemma_position_unique(es, k2, i);
            }
        }
    }
}

/// A new most recently used entry, in front of entries that lack its key.
proof fn lemma_front(rest: Entries, k: Seq<char>, v: RawHandle)
    requires
        distinct(rest),
        !has_key(rest, k),
    ensures
        distinct(seq![(k, v)] + rest),
        find(seq![(k, v)] + rest, k) == Some(v),
        has_key(seq![(k, v)] + rest, k),
        keyed(rest) && handle_key(v) == k ==> keyed(seq![(k, v)] + rest),
        forall|k2: Seq<char>|
            k2 != k ==> has_key(seq![(k, v)] + rest, k2) == #[trigger] has_key(rest, k2),
        forall|k2: Seq<char>|
            k2 != k ==> #[trigger] find(seq![(k, v)] + rest, k2) == find(rest, k2),
{
    let e = seq![(k, v)] + rest;
    assert(e[0] == (k, v));
    assert forall|j: int| 1 <= j < e.len() implies #[trigger] e[j] == rest[j - 1] by {}
    assert(distinct(e)) by {
        assert forall|i: int, j: int| 0 <= i < j < e.len() implies (#[trigger] e[i]).0 != (
        #[trigger] e[j]).0 by {
            assert(e[j] == rest[j - 1]);
            if i == 0 {
                assert(rest[j - 1].0 != k);
            } else {
                assert(e[i] == rest[i - 1]);
                assert(rest[i - 1].0 != rest[j - 1].0);
            }
        }
    }
    lemma_position_unique(e, k, 0);
    if keyed(rest) && handle_key(v) == k {
        assert forall|j: int| 0 <= j < e.len() implies handle_key((#[trigger] e[j]).1)
            == e[j].0 by {
            if j > 0 {
                assert(e[j] == rest[j - 1]);
            }
        }
    }
    assert forall|k2: Seq<char>| k2 != k implies has_key(e, k2) == #[trigger] has_key(rest, k2)
        && find(e, k2) == find(rest, k2) by {
        if has_key(e, k2) {
            let j = position(e, k2);
            assert(j != 0);
            assert(e[j] == rest[j - 1]);
            lemma_position_unique(rest, k2, j - 1);
            lemma_position_unique(e, k2, j);
        }
        if has_key(rest, k2) {
            let i = position(rest, k2);
            assert(e[i + 1] == rest[i]);
            lemma_position_unique(e, k2, i + 1);
            lemma_position_unique(rest, k2, i);
        }
    }
}

/// Dropping the least recently used entry leaves every other entry as it was.
proof fn lemma_drop_last(es: Entries)
    requires
        distinct(es),
        es.len() > 0,
    ensures
        distinct(es.drop_last()),
        es.drop_last() == without(es, es.last().0),
{
    let l = es.len() - 1;
    lemma_position_unique(es, es.last().0, l);
    assert(es.drop_last() =~= es.remove(l));
    lemma_without(es, es.last().0);
}

/// Putting an entry keeps the pool within its limit and its keys distinct,
/// makes the entry the most recently used one, and adds no other key.
pub proof fn lemma_put(es: Entries, limit: nat, k: Seq<char>, v: RawHandle)
    requires
        distinct(es),
        es.len() <= limit,
        limit > 0,
    ensures
        distinct(put(es, limit, k, v)),
        0 < put(es, limit, k, v).len() <= limit,
        put(es, limit, k, v)[0] == (k, v),
        has_key(put(es, limit, k, v), k),
        find(put(es, limit, k, v), k) == Some(v),
        keyed(es) && handle_key(v) == k ==> keyed(put(es, limit, k, v)),
        forall|k2: Seq<char>|
            k2 != k && #[trigger] has_key(put(es, limit, k, v), k2) ==> has_key(es, k2),
        forall|k2: Seq<char>|
            k2 != k && has_key(put(es, limit, k, v), k2) ==> #[trigger] find(
                put(es, limit, k, v),
                k2,
            ) == find(es, k2),
{
    let rest = if has_key(es, k) {
        without(es, k)
    } else if es.len() == limit {
        es.drop_last()
    } else {
        es
    };
    assert(put(es, limit, k, v) == seq![(k, v)] + rest);
    lemma_without(es, k);
    if !has_key(es, k) && es.len() == limit {
        lemma_drop_last(es);
        lemma_without(es, es.last().0);
    }
    assert(!has_key(rest, k));
    lemma_front(rest, k, v);
    let p = put(es, limit, k, v);
    assert forall|k2: Seq<char>| k2 != k && #[trigger] has_key(p, k2) implies has_key(es, k2)
        && find(p, k2) == find(es, k2) by {
        assert(has_key(rest, k2));
        assert(find(p, k2) == find(rest, k2));
        if has_key(es, k) {
            assert(find(without(es, k), k2) == find(es, k2));
        } else if es.len() == limit {
            let last = es.last().0;
            assert(rest == without(es, last));
            assert(k2 != last);
            assert(find(without(es, last), k2) == find(es, k2));
        }
    }
}

/// Putting under a new key keeps every entry, except that a full pool loses
/// its least recently used one.
pub proof fn lemma_put_evicts_only_oldest(es: Entries, limit: nat, k: Seq<char>, v: RawHandle)
    requires
        distinct(es),
        es.len() <= limit,
        limit > 0,
        !has_key(es, k),
    ensures
        es.len() < limit ==> put(es, limit, k, v) == seq![(k, v)] + es,
        es.len() == limit ==> put(es, limit, k, v) == seq![(k, v)] + es.drop_last(),
        es.len() == limit ==> !has_key(put(es, limit, k, v), es.last().0),
        forall|k2: Seq<char>|
            #[trigger] has_key(es, k2) && !(es.len() == limit && k2 == es.last().0) ==> has_key(
                put(es, limit, k, v),
                k2,
            ) && find(put(es, limit, k, v), k2) == find(es, k2),
{
    let p = put(es, limit, k, v);
    if es.len() == limit {
        let last = es.last().0;
        lemma_drop_last(es);
        lemma_without(es, last);
        let rest = es.drop_last();
        assert(!has_key(rest, k));
        lemma_front(rest, k, v);
        assert(last != k) by {
            lemma_position_unique(es, last, es.len() - 1);
        }
        assert(!has_key(p, last));
        assert forall|k2: Seq<char>| #[trigger] has_key(es, k2) && k2 != last implies has_key(
            p,
            k2,
        ) && find(p, k2) == find(es, k2) by {
            assert(k2 != k);
            assert(has_key(rest, k2));
            assert(find(rest, k2) == find(es, k2));
            assert(find(p, k2) == find(rest, k2));
        }
    } else {
        lemma_front(es, k, v);
        assert forall|k2: Seq<char>| #[trigger] has_key(es, k2) implies has_key(p, k2) && find(
            p,
            k2,
        ) == find(es, k2) by {
            assert(k2 != k);
            assert(find(p, k2) == find(es, k2));
        }
    }
}

/// Trusted: `lru::LruCache`, which the verifier takes as an opaque type. What
/// a value of it holds is given by [`lru_entries`] and [`lru_limit`].
#[verifier::external_type_specification]
#[verifier::external_body]
#[verifier::reject_recursive_types(K)]
#[verifier::reject_recursive_types(V)]
#[verifier::reject_recursive_types(S)]
pub struct ExLruCache<K, V, S>(LruCache<K, V, S>);

/// Trusted: `lru::DefaultHasher`, the hasher that an `LruCache` uses unless
/// told otherwise. It only occurs as a type argument.
#[verifier::external_type_specification]
#[verifier::external_body]
pub struct ExDefaultHasher(lru::DefaultHasher);

/// The entries of a pool, most recently used first.
pub uninterp spec fn lru_entries(c: LruCache<String, RawHandle>) -> Entries;

/// The number of entries that a pool was made to hold at most.
pub uninterp spec fn lru_limit(c: LruCache<String, RawHandle>) -> nat;

/// Trusted: `LruCache::sparse`. An empty pool that holds at most `limit`
/// entries. It reserves no room up front, so every positive limit is
/// accepted.
#[verifier::external_body]
pub(crate) fn lru_new(limit: usize) -> (c: LruCache<String, RawHandle>)
    requires
        limit > 0,
    ensures
        lru_entries(c) == Seq::<(Seq<char>, RawHandle)>::empty(),
        lru_limit(c) == limit,
{
    LruCache::sparse(NonZeroUsize::new(limit).unwrap())
}

/// Trusted: `LruCache::len`. The number of entries.
#[verifier::external_body]
pub(crate) fn lru_len(c: &LruCache<String, RawHandle>) -> (n: usize)
    ensures
        n == lru_entries(*c).len(),
{
    c.len()
}

/// Trusted: `LruCache::pop`. Takes the entry under `k` out and returns its
/// handle, or returns `None` and changes nothing if there is none. The other
/// entries keep their order.
#[verifier::external_body]
pub(crate) fn lru_pop(c: &mut LruCache<String, RawHandle>, k: &str) -> (r: Option<RawHandle>)
    ensures
        r == find(lru_entries(*old(c)), k@),
        lru_entries(*final(c)) == without(lru_entries(*old(c)), k@),
        lru_limit(*final(c)) == lru_limit(*old(c)),
{
    c.pop(k)
}

/// Trusted: `LruCache::put`. Makes `(k, v)` the most recently used entry. An
/// entry that had the same key is replaced; otherwise a pool that is full
/// first drops its least recently used entry. What `put` returns, the handle
/// that was replaced, is dropped here.
#[verifier::external_body]
pub(crate) fn lru_put(c: &mut LruCache<String, RawHandle>, k: String, v: RawHandle)
    ensures
        lru_entries(*final(c)) == put(lru_entries(*old(c)), lru_limit(*old(c)), k@, v),
        lru_limit(*final(c)) == lru_limit(*old(c)),
{
    c.put(k, v);
}

} // verus!
