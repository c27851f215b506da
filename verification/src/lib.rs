//! A keyed cache of values of any type, handed out behind shared handles.
//!
//! Callers insert a value under a string key and get a typed handle back.
//! While anybody outside the cache holds a handle, the entry stays in use.
//! Once the last outside handle has been handed back, the entry moves to a
//! bounded pool from which the least recently used entry is evicted when the
//! pool overflows; a later lookup moves it back into use.
//!
//! * [`handle`]: the type-erased [`RawHandle`] and the typed [`Handle`].
//! * [`recency`]: the model of the bounded pool and the calls into `lru`.
//! * [`cache`]: [`ResourceCache`] and its mathematical state, [`CacheView`].
//! * [`laws`]: what holds of every cache.

pub mod cache;
pub mod handle;
pub mod laws;
pub mod recency;

pub use cache::{CacheView, ResourceCache};
pub use handle::{Handle, RawHandle};
