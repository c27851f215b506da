use resource_cache::{Handle, ResourceCache};

fn tiers(cache: &ResourceCache) -> (usize, usize) {
    (cache.in_use_len(), cache.loaded_len())
}

#[test]
fn insert_creates_an_in_use_entry() {
    let mut cache = ResourceCache::new(2);
    let handle = cache.insert(String::from("k"), String::from("v"));
    assert_eq!(tiers(&cache), (1, 0));
    assert_eq!(*handle, "v");
    assert!(cache.get_raw("k").is_some());
    assert!(cache.get_raw("other").is_none());
    assert_eq!(tiers(&cache), (1, 0));
}

#[test]
fn lookup_returns_the_inserted_instance() {
    let mut cache = ResourceCache::new(2);
    let handle = cache.insert(String::from("k"), 10u64);
    let raw = cache.get_raw("k").unwrap();
    assert!(raw.ptr_eq(handle.as_raw()));
    let typed = cache.get::<u64>("k").unwrap();
    assert!(typed.as_raw().ptr_eq(handle.as_raw()));
    assert_eq!(*typed, 10);
    assert_eq!(handle.as_raw().strong_count(), 4);
}

#[test]
fn lookup_of_an_unknown_key_changes_nothing() {
    let mut cache = ResourceCache::new(2);
    let handle = cache.insert(String::from("a"), 1);
    cache.remove(handle.into());
    let _b = cache.insert(String::from("b"), 2);
    assert_eq!(tiers(&cache), (1, 1));
    assert!(cache.get_raw("c").is_none());
    assert!(cache.get::<i32>("c").is_none());
    assert_eq!(tiers(&cache), (1, 1));
}

#[test]
fn remove_is_gated_by_another_owner() {
    let mut cache = ResourceCache::new(2);
    let handle = cache.insert(String::from("k"), 1);
    let keep = handle.clone();
    cache.remove(handle.into());
    assert_eq!(tiers(&cache), (1, 0));
    let found = cache.get_raw("k").unwrap();
    assert!(found.ptr_eq(keep.as_raw()));
    drop(found);
    assert_eq!(keep.as_raw().strong_count(), 2);
    cache.remove(keep.into());
    assert_eq!(tiers(&cache), (0, 1));
}

#[test]
fn remove_with_count_follows_the_count_it_is_given() {
    let mut cache = ResourceCache::new(2);
    let handle = cache.insert(String::from("k"), 1);
    cache.remove_with_count(handle.clone().into(), 3);
    assert_eq!(tiers(&cache), (1, 0));
    cache.remove_with_count(handle.clone().into(), 1);
    assert_eq!(tiers(&cache), (1, 0));
    cache.remove_with_count(handle.clone().into(), 0);
    assert_eq!(tiers(&cache), (1, 0));
    cache.remove_with_count(handle.clone().into(), 2);
    assert_eq!(tiers(&cache), (0, 1));
    let found = cache.get_raw("k").unwrap();
    assert!(found.ptr_eq(handle.as_raw()));
    assert_eq!(tiers(&cache), (1, 0));
}

#[test]
fn demotion_and_promotion_round_trip() {
    let mut cache = ResourceCache::new(2);
    let handle = cache.insert(String::from("k"), 1);
    cache.remove(handle.into());
    assert_eq!(tiers(&cache), (0, 1));
    let raw = cache.get_raw("k").unwrap();
    assert_eq!(tiers(&cache), (1, 0));
    assert_eq!(raw.key(), "k");
    let typed = raw.downcast::<i32>().unwrap();
    assert_eq!(*typed, 1);
    assert_eq!(typed.as_raw().strong_count(), 2);
}

#[test]
fn eviction_under_capacity() {
    let mut cache = ResourceCache::new(2);
    let k1 = cache.insert(String::from("k1"), 1);
    let k2 = cache.insert(String::from("k2"), 2);
    let k3 = cache.insert(String::from("k3"), 3);
    cache.remove(k1.into());
    cache.remove(k2.into());
    assert_eq!(tiers(&cache), (1, 2));
    cache.remove(k3.into());
    assert_eq!(tiers(&cache), (0, 2));
    assert!(cache.get_raw("k1").is_none());
    assert_eq!(tiers(&cache), (0, 2));
    assert_eq!(*cache.get::<i32>("k2").unwrap(), 2);
    assert_eq!(*cache.get::<i32>("k3").unwrap(), 3);
    assert_eq!(tiers(&cache), (2, 0));
}

#[test]
fn eviction_takes_the_least_recently_demoted_entry() {
    let mut cache = ResourceCache::new(2);
    let a = cache.insert(String::from("a"), 1);
    let b = cache.insert(String::from("b"), 2);
    let c = cache.insert(String::from("c"), 3);
    cache.remove(a.into());
    cache.remove(b.into());
    // Promote and demote "a" again: "b" is now the least recently used.
    let a = cache.get_raw("a").unwrap();
    assert_eq!(tiers(&cache), (2, 1));
    cache.remove(a);
    assert_eq!(tiers(&cache), (1, 2));
    cache.remove(c.into());
    assert_eq!(tiers(&cache), (0, 2));
    assert!(cache.get_raw("b").is_none());
    assert_eq!(*cache.get::<i32>("a").unwrap(), 1);
    assert_eq!(*cache.get::<i32>("c").unwrap(), 3);
}

#[test]
fn evicted_value_is_dropped() {
    let mut cache = ResourceCache::new(1);
    let a = cache.insert(String::from("a"), 1);
    let probe = a.clone();
    let b = cache.insert(String::from("b"), 2);
    drop(probe);
    cache.remove(a.into());
    assert_eq!(tiers(&cache), (1, 1));
    cache.remove(b.into());
    assert_eq!(tiers(&cache), (0, 1));
    assert!(cache.get_raw("a").is_none());
    assert!(cache.get_raw("b").is_some());
    assert_eq!(tiers(&cache), (1, 0));
}

#[test]
fn capacity_of_one_keeps_only_the_latest() {
    let mut cache = ResourceCache::new(1);
    for (key, value) in [("a", 1), ("b", 2), ("c", 3)] {
        let handle = cache.insert(String::from(key), value);
        cache.remove(handle.into());
        assert_eq!(tiers(&cache), (0, 1));
    }
    assert!(cache.get::<i32>("a").is_none());
    assert!(cache.get::<i32>("b").is_none());
    assert_eq!(*cache.get::<i32>("c").unwrap(), 3);
}

#[test]
fn overwrite_of_a_loaded_entry() {
    let mut cache = ResourceCache::new(2);
    let first = cache.insert(String::from("x"), 1);
    cache.remove(first.into());
    assert_eq!(tiers(&cache), (0, 1));
    let second = cache.insert(String::from("x"), 3);
    assert_eq!(tiers(&cache), (1, 0));
    let found = cache.get::<i32>("x").unwrap();
    assert_eq!(*found, 3);
    assert!(found.as_raw().ptr_eq(second.as_raw()));
}

#[test]
fn overwrite_of_an_entry_in_use_detaches_the_old_instance() {
    let mut cache = ResourceCache::new(2);
    let old = cache.insert(String::from("x"), 1);
    let new = cache.insert(String::from("x"), 2);
    assert_eq!(tiers(&cache), (1, 0));
    assert_eq!(old.as_raw().strong_count(), 1);
    assert_eq!(new.as_raw().strong_count(), 2);
    assert_eq!(*old, 1);
    let found = cache.get_raw("x").unwrap();
    assert!(found.ptr_eq(new.as_raw()));
    assert!(!found.ptr_eq(old.as_raw()));
}

#[test]
fn handing_back_a_detached_instance_leaves_the_newer_entry() {
    let mut cache = ResourceCache::new(2);
    let old = cache.insert(String::from("x"), 1);
    let new = cache.insert(String::from("x"), 2);
    // Two owners of the old instance, neither of them the cache.
    let old_clone = old.clone();
    assert_eq!(old.as_raw().strong_count(), 2);
    cache.remove(old.into());
    assert_eq!(tiers(&cache), (1, 0));
    let found = cache.get::<i32>("x").unwrap();
    assert_eq!(*found, 2);
    assert!(found.as_raw().ptr_eq(new.as_raw()));
    assert_eq!(*old_clone, 1);
}

#[test]
fn handing_back_a_handle_the_cache_never_saw() {
    let mut cache = ResourceCache::new(2);
    let stranger = Handle::new(String::from("s"), 9);
    let clone = stranger.clone();
    assert_eq!(stranger.as_raw().strong_count(), 2);
    cache.remove(stranger.into());
    assert_eq!(tiers(&cache), (0, 0));
    assert!(cache.get_raw("s").is_none());
    assert_eq!(clone.as_raw().strong_count(), 1);
}

#[test]
fn get_with_another_type_leaves_the_entry_in_use() {
    let mut cache = ResourceCache::new(2);
    let handle = cache.insert(String::from("k"), 1i32);
    assert!(cache.get::<String>("k").is_none());
    assert!(cache.get::<u32>("k").is_none());
    assert_eq!(tiers(&cache), (1, 0));
    assert_eq!(handle.as_raw().strong_count(), 2);
    assert_eq!(*cache.get::<i32>("k").unwrap(), 1);
}

#[test]
fn get_with_another_type_still_promotes_a_loaded_entry() {
    let mut cache = ResourceCache::new(2);
    let handle = cache.insert(String::from("k"), 1i32);
    cache.remove(handle.into());
    assert_eq!(tiers(&cache), (0, 1));
    assert!(cache.get::<String>("k").is_none());
    assert_eq!(tiers(&cache), (1, 0));
    assert_eq!(*cache.get::<i32>("k").unwrap(), 1);
}

#[test]
fn values_of_several_types_share_one_cache() {
    let mut cache = ResourceCache::new(4);
    let number = cache.insert(String::from("number"), 7u16);
    let text = cache.insert(String::from("text"), String::from("seven"));
    let list = cache.insert(String::from("list"), vec![7i64; 3]);
    assert_eq!(tiers(&cache), (3, 0));
    cache.remove(number.into());
    cache.remove(text.into());
    cache.remove(list.into());
    assert_eq!(tiers(&cache), (0, 3));
    assert_eq!(*cache.get::<String>("text").unwrap(), "seven");
    assert_eq!(*cache.get::<u16>("number").unwrap(), 7);
    assert_eq!(*cache.get::<Vec<i64>>("list").unwrap(), vec![7, 7, 7]);
    assert_eq!(tiers(&cache), (3, 0));
}

#[test]
fn a_key_is_never_in_both_tiers() {
    let mut cache = ResourceCache::new(2);
    let keys = ["a", "b", "c", "a", "b", "d", "a"];
    let mut held = Vec::new();
    for (round, key) in keys.iter().enumerate() {
        let handle = cache.insert(String::from(*key), round);
        if round % 2 == 0 {
            cache.remove(handle.into());
        } else {
            held.push(handle);
        }
        let (in_use, loaded) = tiers(&cache);
        assert!(loaded <= 2);
        let mut reachable = 0;
        for probe in ["a", "b", "c", "d"] {
            if cache.get_raw(probe).is_some() {
                reachable += 1;
            }
        }
        assert_eq!(reachable, in_use + loaded);
        assert_eq!(tiers(&cache), (reachable, 0));
    }
}
