//! The two-tier resource cache.
//!
//! Entries that somebody may still hold live in the unbounded `in_use` tier.
//! Entries that only the cache owns live in the bounded `loaded` tier, from
//! which the least recently used one is evicted when room is needed.
//!
//! [`CacheView`] is the mathematical state of a cache, and each operation of
//! [`ResourceCache`] is specified as a function on that state.

use crate::handle::{handle_key, Handle, RawHandle};
use crate::recency::{
    distinct, find, has_key, keyed, lemma_put, lemma_without, lru_entries, lru_len, lru_limit,
    lru_new, lru_pop, lru_put, put, without, Entries,
};
use lru::LruCache;
use vstd::hash_map::StringHashMap;
use vstd::prelude::*;

verus! {

/// The state of a cache.
#[verifier::ext_equal]
pub struct CacheView {
    /// The entries that may have owners outside the cache, by key.
    pub in_use: Map<Seq<char>, RawHandle>,
    /// The entries that only the cache owns, most recently used first.
    pub loaded: Entries,
    /// The number of entries that `loaded` holds at most.
    pub limit: nat,
}

impl CacheView {
    /// A cache without entries.
    pub open spec fn empty(limit: nat) -> CacheView {
        CacheView { in_use: Map::empty(), loaded: Seq::empty(), limit }
    }

    /// What every reachable state satisfies: `loaded` respects its positive
    /// limit and holds no key twice, no key is in both tiers, and each entry
    /// is filed under the key of its handle.
    pub open spec fn wf(self) -> bool {
        &&& self.limit > 0
        &&& self.loaded.len() <= self.limit
        &&& distinct(self.loaded)
        &&& keyed(self.loaded)
        &&& forall|k: Seq<char>| #[trigger]
            self.in_use.contains_key(k) ==> handle_key(self.in_use[k]) == k
        &&& forall|k: Seq<char>|
            #![trigger self.in_use.contains_key(k)]
            #![trigger has_key(self.loaded, k)]
            !(self.in_use.contains_key(k) && has_key(self.loaded, k))
    }

    /// The state after `h` has been stored under `k`: `h` is in use, and an
    /// entry that `loaded` had under `k` is gone.
    pub open spec fn inserted(self, k: Seq<char>, h: RawHandle) -> CacheView {
        CacheView {
            in_use: self.in_use.insert(k, h),
            loaded: without(self.loaded, k),
            limit: self.limit,
        }
    }

    /// The handle that a lookup of `k` finds, in either tier.
    pub open spec fn lookup(self, k: Seq<char>) -> Option<RawHandle> {
        if self.in_use.contains_key(k) {
            Some(self.in_use[k])
        } else {
            find(self.loaded, k)
        }
    }

    /// The state after a lookup of `k`: an entry found in `loaded` has moved
    /// to `in_use`, and nothing else has changed.
    pub open spec fn after_lookup(self, k: Seq<char>) -> CacheView {
        if !self.in_use.contains_key(k) && has_key(self.loaded, k) {
            CacheView {
                in_use: self.in_use.insert(k, find(self.loaded, k)->Some_0),
                loaded: without(self.loaded, k),
                limit: self.limit,
            }
        } else {
            self
        }
    }

    /// Whether handing `h` back demotes its entry, given that the instance
    /// had `owners` owners at that moment. Two owners are the cache and the
    /// handle that is handed back; and the cache must hold this very instance
    /// under its key, not another one that was stored there later.
    pub open spec fn demotes(self, h: RawHandle, owners: nat) -> bool {
        &&& owners == 2
        &&& self.in_use.contains_key(handle_key(h))
        &&& self.in_use[handle_key(h)] == h
    }

    /// The state after `h` has been handed back while its instance had
    /// `owners` owners.
    pub open spec fn released(self, h: RawHandle, owners: nat) -> CacheView {
        if self.demotes(h, owners) {
            CacheView {
                in_use: self.in_use.remove(handle_key(h)),
                loaded: put(self.loaded, self.limit, handle_key(h), h),
                limit: self.limit,
            }
        } else {
            self
        }
    }

    /// Storing a handle under its own key keeps the state well formed.
    pub proof fn lemma_inserted_wf(self, k: Seq<char>, h: RawHandle)
        requires
            self.wf(),
            handle_key(h) == k,
        ensures
            self.inserted(k, h).wf(),
    {
        lemma_without(self.loaded, k);
        let next = self.inserted(k, h);
        assert forall|k2: Seq<char>|
            !(next.in_use.contains_key(k2) && has_key(next.loaded, k2)) by {
            if k2 != k {
                assert(has_key(next.loaded, k2) == has_key(self.loaded, k2));
            }
        }
    }

    /// A lookup keeps the state well formed.
    pub proof fn lemma_after_lookup_wf(self, k: Seq<char>)
        requires
            self.wf(),
        ensures
            self.after_lookup(k).wf(),
    {
        if !self.in_use.contains_key(k) && has_key(self.loaded, k) {
            lemma_without(self.loaded, k);
            let next = self.after_lookup(k);
            let h = find(self.loaded, k)->Some_0;
            assert(handle_key(h) == k);
            assert forall|k2: Seq<char>|
                !(next.in_use.contains_key(k2) && has_key(next.loaded, k2)) by {
                if k2 != k {
                    assert(has_key(next.loaded, k2) == has_key(self.loaded, k2));
                }
            }
        }
    }

    /// Handing a handle back keeps the state well formed.
    pub proof fn lemma_released_wf(self, h: RawHandle, owners: nat)
        requires
            self.wf(),
        ensures
            self.released(h, owners).wf(),
    {
        if self.demotes(h, owners) {
            let k = handle_key(h);
            lemma_put(self.loaded, self.limit, k, h);
            let next = self.released(h, owners);
            assert forall|k2: Seq<char>|
                !(next.in_use.contains_key(k2) && has_key(next.loaded, k2)) by {
                if k2 != k && has_key(next.loaded, k2) {
                    assert(has_key(self.loaded, k2));
                }
            }
        }
    }
}

/// A cache of values of any type, stored under string keys.
pub struct ResourceCache {
    in_use: StringHashMap<RawHandle>,
    loaded: LruCache<String, RawHandle>,
}

impl View for ResourceCache {
    type V = CacheView;

    closed spec fn view(&self) -> CacheView {
        CacheView {
            in_use: self.in_use@,
            loaded: lru_entries(self.loaded),
            limit: lru_limit(self.loaded),
        }
    }
}

impl ResourceCache {
    /// Whether the cache is in a state that its operations can start from.
    pub open spec fn wf(&self) -> bool {
        self@.wf()
    }

    /// An empty cache whose `loaded` tier holds at most `capacity` entries.
    pub fn new(capacity: usize) -> (cache: Self)
        requires
            capacity > 0,
        ensures
            cache.wf(),
            cache@ == CacheView::empty(capacity as nat),
    {
        ResourceCache { in_use: StringHashMap::new(), loaded: lru_new(capacity) }
    }

    /// Stores `value` under `key` in a new instance and returns a handle to
    /// it. The cache keeps a second owner of the instance in `in_use`. An
    /// entry that `loaded` had under `key` is dropped; one that `in_use` had
    /// is no longer reachable through the cache.
    pub fn insert<T: Send + Sync + 'static>(&mut self, key: String, value: T) -> (handle: Handle<T>)
        requires
            old(self).wf(),
        ensures
            final(self).wf(),
            handle.key() == key@,
            handle.value() == value,
            final(self)@ == old(self)@.inserted(key@, handle.raw()),
    {
        let _ = lru_pop(&mut self.loaded, key.as_str());
        let handle = Handle::new(key.clone(), value);
        self.in_use.insert(key, RawHandle::from(handle.clone()));
        proof {
            old(self)@.lemma_inserted_wf(key@, handle.raw());
        }
        handle
    }

    /// Looks `key` up and returns a typed handle to its entry, or `None` if
    /// there is no entry or its value is not a `T`. The cache changes as it
    /// does in [`ResourceCache::get_raw`], whatever the type of the value.
    pub fn get<T: Send + Sync + 'static>(&mut self, key: &str) -> (res: Option<Handle<T>>)
        requires
            old(self).wf(),
        ensures
            final(self).wf(),
            final(self)@ == old(self)@.after_lookup(key@),
            res matches Some(h) ==> old(self)@.lookup(key@) == Some(h.raw()),
            old(self)@.lookup(key@) is None ==> res is None,
    {
        match self.get_raw(key) {
            Some(raw) => match raw.downcast::<T>() {
                Ok(handle) => Some(handle),
                Err(_) => None,
            },
            None => None,
        }
    }

    /// Looks `key` up and returns another owner of its entry. An entry found
    /// in `loaded` moves to `in_use`. Returns `None`, and changes nothing, if
    /// neither tier has the key.
    pub fn get_raw(&mut self, key: &str) -> (res: Option<RawHandle>)
        requires
            old(self).wf(),
        ensures
            final(self).wf(),
            res == old(self)@.lookup(key@),
            final(self)@ == old(self)@.after_lookup(key@),
    {
        proof {
            old(self)@.lemma_after_lookup_wf(key@);
        }
        match self.in_use.get(key) {
            Some(value) => Some(value.clone()),
            None => match lru_pop(&mut self.loaded, key) {
                Some(value) => {
                    self.in_use.insert(key.to_owned(), value.clone());
                    Some(value)
                },
                None => None,
            },
        }
    }

    /// Hands `handle` back to the cache. If the cache and `handle` are the
    /// only owners left, the entry moves to `loaded`, where it may be
    /// evicted; otherwise nothing changes and the entry stays in use.
    ///
    /// The number of owners is read at the time of the call, so the contract
    /// states what holds for either outcome;
    /// [`ResourceCache::remove_with_count`] states which outcome belongs to
    /// which number.
    pub fn remove(&mut self, handle: RawHandle)
        requires
            old(self).wf(),
        ensures
            final(self).wf(),
            final(self)@ == old(self)@ || final(self)@ == old(self)@.released(handle, 2),
    {
        let owners = handle.strong_count();
        self.remove_with_count(handle, owners)
    }

    /// Hands `handle` back to the cache, given the number of owners that its
    /// instance has, `handle` included. With exactly two owners, of which the
    /// cache is one, the entry moves from `in_use` to the front of `loaded`,
    /// which evicts its least recently used entry if it is full. With any
    /// other number, or if the cache holds another instance under that key,
    /// nothing changes.
    pub fn remove_with_count(&mut self, handle: RawHandle, owners: usize)
        requires
            old(self).wf(),
        ensures
            final(self).wf(),
            final(self)@ == old(self)@.released(handle, owners as nat),
    {
        proof {
            old(self)@.lemma_released_wf(handle, owners as nat);
        }
        if owners == 2 {
            let held = match self.in_use.get(handle.key()) {
                Some(slot) => slot.ptr_eq(&handle),
                None => false,
            };
            if held {
                let key = handle.key().to_owned();
                self.in_use.remove(key.as_str());
                lru_put(&mut self.loaded, key, handle);
            }
        }
    }

    /// The number of entries in use.
    pub fn in_use_len(&self) -> (n: usize)
        ensures
            n == self@.in_use.len(),
    {
        self.in_use.len()
    }

    /// The number of entries that only the cache owns.
    pub fn loaded_len(&self) -> (n: usize)
        ensures
            n == self@.loaded.len(),
    {
        lru_len(&self.loaded)
    }
}

} // verus!
