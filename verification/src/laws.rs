//! What holds of every cache, stated over [`CacheView`] and proved.
//!
//! Each key is at any time absent, in use or loaded. The laws below say how
//! the operations move a key between these tiers, which handle a lookup
//! finds, and which entry an eviction takes.

use crate::cache::CacheView;
use crate::handle::{handle_key, RawHandle};
use crate::recency::{
    find, has_key, lemma_position_unique, lemma_put, lemma_put_evicts_only_oldest, lemma_without,
    position, without,
};
use vstd::prelude::*;

verus! {

/// Where the cache has a key.
#[derive(PartialEq, Eq, Structural, Clone, Copy, Debug)]
pub enum Tier {
    /// The cache has no entry for the key.
    Absent,
    /// The entry may have owners outside the cache.
    InUse,
    /// Only the cache owns the entry, which may be evicted.
    Loaded,
}

/// The tier that `c` has `k` in.
pub open spec fn tier(c: CacheView, k: Seq<char>) -> Tier {
    if c.in_use.contains_key(k) {
        Tier::InUse
    } else if has_key(c.loaded, k) {
        Tier::Loaded
    } else {
        Tier::Absent
    }
}

/// A new cache is well formed and has every key absent.
pub proof fn lemma_empty(limit: nat, k: Seq<char>)
    requires
        limit > 0,
    ensures
        CacheView::empty(limit).wf(),
        tier(CacheView::empty(limit), k) == Tier::Absent,
        CacheView::empty(limit).lookup(k) is None,
{
}

/// Tier exclusivity: no key is both in use and loaded, and a lookup finds a
/// handle exactly for the keys that are not absent.
pub proof fn lemma_tiers_exclusive(c: CacheView, k: Seq<char>)
    requires
        c.wf(),
    ensures
        !(c.in_use.contains_key(k) && has_key(c.loaded, k)),
        c.lookup(k) is Some <==> tier(c, k) != Tier::Absent,
        c.lookup(k) matches Some(h) ==> handle_key(h) == k,
{
    if !c.in_use.contains_key(k) && has_key(c.loaded, k) {
        assert(c.loaded[position(c.loaded, k)].0 == k);
    }
}

/// Every operation leads from well-formed states to well-formed states, so
/// tier exclusivity holds at any time.
pub proof fn lemma_wf_preserved(c: CacheView, k: Seq<char>, h: RawHandle, owners: nat)
    requires
        c.wf(),
    ensures
        handle_key(h) == k ==> c.inserted(k, h).wf(),
        c.after_lookup(k).wf(),
        c.released(h, owners).wf(),
{
    if handle_key(h) == k {
        c.lemma_inserted_wf(k, h);
    }
    c.lemma_after_lookup_wf(k);
    c.lemma_released_wf(h, owners);
}

/// Insert creates an in-use entry: after `h` is stored under `k`, the key is
/// in use and not loaded, whatever tier it was in before, and every other key
/// is where it was, with the handle it had.
pub proof fn lemma_insert(c: CacheView, k: Seq<char>, h: RawHandle)
    requires
        c.wf(),
    ensures
        c.inserted(k, h).in_use.contains_key(k),
        c.inserted(k, h).in_use[k] == h,
        !has_key(c.inserted(k, h).loaded, k),
        tier(c.inserted(k, h), k) == Tier::InUse,
        forall|k2: Seq<char>| k2 != k ==> #[trigger] tier(c.inserted(k, h), k2) == tier(c, k2),
        forall|k2: Seq<char>| k2 != k ==> #[trigger] c.inserted(k, h).lookup(k2) == c.lookup(k2),
{
    lemma_without(c.loaded, k);
    let next = c.inserted(k, h);
    assert forall|k2: Seq<char>| k2 != k implies #[trigger] tier(next, k2) == tier(c, k2)
        && next.lookup(k2) == c.lookup(k2) by {
        assert(has_key(next.loaded, k2) == has_key(c.loaded, k2));
        assert(find(next.loaded, k2) == find(c.loaded, k2));
    }
}

/// Lookup identity: a lookup of `k` right after `h` was stored under `k`
/// finds `h` itself and changes nothing.
pub proof fn lemma_lookup_after_insert(c: CacheView, k: Seq<char>, h: RawHandle)
    requires
        c.wf(),
    ensures
        c.inserted(k, h).lookup(k) == Some(h),
        c.inserted(k, h).after_lookup(k) == c.inserted(k, h),
{
}

/// A lookup of a key that is in use, or of one that is absent, changes
/// nothing. In particular, asking for an entry in use under a type that its
/// value does not have leaves the entry where it is.
pub proof fn lemma_lookup_pure(c: CacheView, k: Seq<char>)
    requires
        c.wf(),
        tier(c, k) != Tier::Loaded,
    ensures
        c.after_lookup(k) == c,
        tier(c, k) == Tier::Absent ==> c.lookup(k) is None,
        tier(c, k) == Tier::InUse ==> c.lookup(k) == Some(c.in_use[k]),
{
}

/// Promotion: a lookup of a loaded key finds its handle and moves the entry
/// to the in-use tier. Every other key is where it was, with the handle it
/// had, and the loaded entries keep their order.
pub proof fn lemma_promotion(c: CacheView, k: Seq<char>)
    requires
        c.wf(),
        tier(c, k) == Tier::Loaded,
    ensures
        c.lookup(k) == find(c.loaded, k),
        c.lookup(k) is Some,
        tier(c.after_lookup(k), k) == Tier::InUse,
        c.after_lookup(k).lookup(k) == c.lookup(k),
        c.after_lookup(k).loaded == without(c.loaded, k),
        c.after_lookup(k).loaded.len() == c.loaded.len() - 1,
        forall|k2: Seq<char>| k2 != k ==> #[trigger] tier(c.after_lookup(k), k2) == tier(c, k2),
        forall|k2: Seq<char>|
            k2 != k ==> #[trigger] c.after_lookup(k).lookup(k2) == c.lookup(k2),
{
    lemma_without(c.loaded, k);
    let next = c.after_lookup(k);
    assert forall|k2: Seq<char>| k2 != k implies #[trigger] tier(next, k2) == tier(c, k2)
        && next.lookup(k2) == c.lookup(k2) by {
        assert(has_key(next.loaded, k2) == has_key(c.loaded, k2));
        assert(find(next.loaded, k2) == find(c.loaded, k2));
    }
}

/// Demotion gating: handing a handle back while its instance has any number
/// of owners but two changes nothing. If the cache holds the instance, its
/// key stays in use and a lookup still finds it.
pub proof fn lemma_release_gated(c: CacheView, h: RawHandle, owners: nat)
    requires
        c.wf(),
        owners != 2,
    ensures
        c.released(h, owners) == c,
        c.in_use.contains_key(handle_key(h)) && c.in_use[handle_key(h)] == h ==> {
            &&& tier(c.released(h, owners), handle_key(h)) == Tier::InUse
            &&& c.released(h, owners).lookup(handle_key(h)) == Some(h)
        },
{
}

/// Handing back a handle to an instance that the cache does not hold under
/// its key changes nothing, whatever the number of owners: not for a key that
/// is absent or loaded, and not where another instance was stored under the
/// key since.
pub proof fn lemma_release_of_stranger(c: CacheView, h: RawHandle, owners: nat)
    requires
        c.wf(),
        c.lookup(handle_key(h)) != Some(h) || tier(c, handle_key(h)) != Tier::InUse,
    ensures
        c.released(h, owners) == c,
{
}

/// Demotion: handing back the last outside handle to an entry in use moves
/// the entry to the front of the loaded tier. The loaded tier grows by one
/// unless it is full.
pub proof fn lemma_demotion(c: CacheView, h: RawHandle)
    requires
        c.wf(),
        c.demotes(h, 2),
    ensures
        tier(c, handle_key(h)) == Tier::InUse,
        tier(c.released(h, 2), handle_key(h)) == Tier::Loaded,
        c.released(h, 2).loaded[0] == (handle_key(h), h),
        c.released(h, 2).loaded.len() == if c.loaded.len() < c.limit {
            c.loaded.len() + 1
        } else {
            c.limit
        },
        c.released(h, 2).lookup(handle_key(h)) == Some(h),
{
    let k = handle_key(h);
    lemma_put(c.loaded, c.limit, k, h);
    lemma_put_evicts_only_oldest(c.loaded, c.limit, k, h);
}

/// Eviction under capacity: a demotion takes no entry away but the least
/// recently used one of a full loaded tier, which becomes absent. Every other
/// key is where it was, with the handle it had.
pub proof fn lemma_eviction(c: CacheView, h: RawHandle)
    requires
        c.wf(),
        c.demotes(h, 2),
    ensures
        c.loaded.len() == c.limit ==> {
            &&& tier(c, c.loaded.last().0) == Tier::Loaded
            &&& tier(c.released(h, 2), c.loaded.last().0) == Tier::Absent
            &&& c.released(h, 2).lookup(c.loaded.last().0) is None
        },
        forall|k2: Seq<char>|
            k2 != handle_key(h) && !(c.loaded.len() == c.limit && k2 == c.loaded.last().0)
                ==> #[trigger] tier(c.released(h, 2), k2) == tier(c, k2),
        forall|k2: Seq<char>|
            k2 != handle_key(h) && !(c.loaded.len() == c.limit && k2 == c.loaded.last().0)
                ==> #[trigger] c.released(h, 2).lookup(k2) == c.lookup(k2),
{
    let k = handle_key(h);
    let next = c.released(h, 2);
    lemma_put(c.loaded, c.limit, k, h);
    lemma_put_evicts_only_oldest(c.loaded, c.limit, k, h);
    if c.loaded.len() == c.limit {
        let last = c.loaded.last().0;
        lemma_position_unique(c.loaded, last, c.loaded.len() - 1);
        assert(!c.in_use.contains_key(last));
    }
    assert forall|k2: Seq<char>|
        k2 != k && !(c.loaded.len() == c.limit && k2 == c.loaded.last().0) implies #[trigger] tier(
        next,
        k2,
    ) == tier(c, k2) && next.lookup(k2) == c.lookup(k2) by {
        if has_key(c.loaded, k2) {
            assert(has_key(next.loaded, k2));
            assert(find(next.loaded, k2) == find(c.loaded, k2));
        }
        if has_key(next.loaded, k2) {
            assert(has_key(c.loaded, k2));
        }
    }
}

/// Demotion and promotion round trip: an entry that is demoted and then
/// looked up is in use again with the same handle, and the loaded tier is
/// what it was, less the entry that the demotion evicted.
pub proof fn lemma_round_trip(c: CacheView, h: RawHandle)
    requires
        c.wf(),
        c.demotes(h, 2),
    ensures
        c.released(h, 2).lookup(handle_key(h)) == Some(h),
        tier(c.released(h, 2).after_lookup(handle_key(h)), handle_key(h)) == Tier::InUse,
        c.released(h, 2).after_lookup(handle_key(h)).in_use == c.in_use,
        c.released(h, 2).after_lookup(handle_key(h)).loaded == if c.loaded.len() < c.limit {
            c.loaded
        } else {
            c.loaded.drop_last()
        },
{
    let k = handle_key(h);
    let mid = c.released(h, 2);
    let end = mid.after_lookup(k);
    lemma_put(c.loaded, c.limit, k, h);
    lemma_put_evicts_only_oldest(c.loaded, c.limit, k, h);
    c.lemma_released_wf(h, 2);
    lemma_position_unique(mid.loaded, k, 0);
    assert(end.in_use =~= c.in_use);
    assert(mid.loaded.remove(0) =~= if c.loaded.len() < c.limit {
        c.loaded
    } else {
        c.loaded.drop_last()
    });
}

/// Overwriting: storing a new instance under a key that is loaded drops the
/// loaded entry, and a lookup then finds the new instance.
pub proof fn lemma_overwrite(c: CacheView, k: Seq<char>, h: RawHandle)
    requires
        c.wf(),
        tier(c, k) != Tier::Absent,
    ensures
        tier(c.inserted(k, h), k) == Tier::InUse,
        c.inserted(k, h).lookup(k) == Some(h),
        tier(c, k) == Tier::Loaded ==> c.inserted(k, h).loaded.len() == c.loaded.len() - 1,
        tier(c, k) == Tier::InUse ==> c.inserted(k, h).loaded == c.loaded,
{
    lemma_without(c.loaded, k);
}

} // verus!
