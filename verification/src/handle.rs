//! Shared handles to cached values.
//!
//! A [`RawHandle`] is one owner of a shared instance: a key paired with a
//! value whose type has been erased. A [`Handle<T>`] is a raw handle whose
//! value is a `T`; it carries a typed pointer to that value, so that
//! dereferencing it cannot fail.
//!
//! The verifier has no model of `dyn Any`, so a raw handle is opaque to it.
//! In contracts a `RawHandle` value stands for the shared instance it points
//! to: two raw handles are equal exactly when they own the same instance.
//! The key of an instance never changes, so it is a function of that value,
//! [`handle_key`]. The number of owners does change while the value stays
//! the same, so no contract speaks of it.

use std::any::Any;
use std::ops::Deref;
use std::sync::Arc;
use vstd::prelude::*;

verus! {

/// The shared instance behind a handle: created once, never mutated, dropped
/// with its last owner. Raw handles use it with `dyn Any + Send + Sync` for
/// `V`, so this definition names no trait object itself.
#[derive(Debug)]
struct HandleInner<V: ?Sized> {
    key: String,
    value: Arc<V>,
}

/// One owner of a shared, type-erased instance.
///
/// Trusted: the body is hidden from the verifier because it holds a
/// `dyn Any + Send + Sync`, which the verifier does not accept.
#[verifier::external_body]
#[derive(Debug)]
pub struct RawHandle(Arc<HandleInner<dyn Any + Send + Sync>>);

/// The key that the instance behind `h` was created with.
pub uninterp spec fn handle_key(h: RawHandle) -> Seq<char>;

/// Trusted: `Arc::new`, after the unsizing of `value`. The new instance
/// carries `key`. Nothing is said about which instance it is: every call
/// allocates another one.
#[verifier::external_body]
fn erase<T: Send + Sync + 'static>(key: String, value: Arc<T>) -> (r: RawHandle)
    ensures
        handle_key(r) == key@,
{
    let value: Arc<dyn Any + Send + Sync> = value;
    let inner = Arc::new(HandleInner { key, value });
    RawHandle(inner)
}

/// Trusted: `Arc::clone`, on a pointer that the verifier can see through.
/// The result points to the value that `v` points to.
#[verifier::external_body]
fn share_value<T: ?Sized>(v: &Arc<T>) -> (r: Arc<T>)
    ensures
        r == *v,
{
    v.clone()
}

/// Trusted: `Arc::clone`. The result owns the instance that `h` owns.
#[verifier::external_body]
fn share(h: &RawHandle) -> (r: RawHandle)
    ensures
        r == *h,
{
    RawHandle(h.0.clone())
}

/// Trusted: `Arc::ptr_eq`. True exactly when both handles own one instance.
#[verifier::external_body]
fn same_instance(a: &RawHandle, b: &RawHandle) -> (r: bool)
    ensures
        r == (*a == *b),
{
    Arc::ptr_eq(&a.0, &b.0)
}

/// Trusted: `Arc::strong_count`. The count depends on how many owners are
/// alive when it is read, so nothing is promised about it.
#[verifier::external_body]
fn owners(h: &RawHandle) -> usize {
    Arc::strong_count(&h.0)
}

/// Trusted: `Arc::weak_count`. Nothing is promised about it.
#[verifier::external_body]
fn weak_owners(h: &RawHandle) -> usize {
    Arc::weak_count(&h.0)
}

/// Trusted: reads the key stored in the instance.
#[verifier::external_body]
fn stored_key(h: &RawHandle) -> (r: &str)
    ensures
        r@ == handle_key(*h),
{
    h.0.key.as_str()
}

/// Trusted: `Arc::downcast`, on another pointer to the erased value. A
/// typed pointer to the value if it is a `T`, `None` otherwise. Which of the
/// two depends on the type `T`, which contracts cannot name, so nothing is
/// promised about it.
#[verifier::external_body]
fn typed_value<T: Send + Sync + 'static>(h: &RawHandle) -> Option<Arc<T>> {
    h.0.value.clone().downcast::<T>().ok()
}

impl Clone for RawHandle {
    /// Another owner of the same instance.
    fn clone(&self) -> (res: Self)
        ensures
            res == *self,
    {
        share(self)
    }
}

impl RawHandle {
    /// Whether `self` and `other` own the same instance, as opposed to equal
    /// values.
    pub fn ptr_eq(&self, other: &Self) -> (r: bool)
        ensures
            r == (*self == *other),
    {
        same_instance(self, other)
    }

    /// The key of the instance.
    pub fn key(&self) -> (r: &str)
        ensures
            r@ == handle_key(*self),
    {
        stored_key(self)
    }

    /// How many owners the instance has right now, this handle included.
    pub fn strong_count(&self) -> usize {
        owners(self)
    }

    /// How many weak references the instance has right now.
    pub fn weak_count(&self) -> usize {
        weak_owners(self)
    }

    /// Seals `self` as a typed handle where `value` is a typed pointer, and
    /// hands it back where there is none.
    fn with_value<T: Send + Sync + 'static>(self, value: Option<Arc<T>>) -> (res: Result<
        Handle<T>,
        RawHandle,
    >)
        ensures
            value is Some ==> res is Ok && res->Ok_0.raw() == self && res->Ok_0.value()
                == *value->Some_0,
            value is None ==> res == Err::<Handle<T>, RawHandle>(self),
    {
        match value {
            Some(value) => Ok(Handle { raw: self, value }),
            None => Err(self),
        }
    }

    /// Turns the handle into a typed one if its value is a `T`.
    ///
    /// Either way the instance is the one that came in: a typed handle wraps
    /// it, or it is handed back untouched so that another type can be tried.
    pub fn downcast<T: Send + Sync + 'static>(self) -> (res: Result<Handle<T>, RawHandle>)
        ensures
            match res {
                Ok(h) => h.raw() == self,
                Err(r) => r == self,
            },
    {
        let value = typed_value::<T>(&self);
        self.with_value(value)
    }
}

/// A raw handle together with a typed pointer to its value.
///
/// The only ways to make one are [`Handle::new`] and [`RawHandle::downcast`],
/// so the pointer always leads to the value of the instance, and
/// dereferencing needs no cast that could fail.
#[derive(Debug)]
pub struct Handle<T: ?Sized> {
    raw: RawHandle,
    value: Arc<T>,
}

impl<T: ?Sized> Handle<T> {
    /// The instance that this handle owns.
    pub closed spec fn raw(self) -> RawHandle {
        self.raw
    }

    /// The key of the instance.
    pub open spec fn key(self) -> Seq<char> {
        handle_key(self.raw())
    }

    /// The handle without its type.
    pub fn as_raw(&self) -> (r: &RawHandle)
        ensures
            *r == self.raw(),
    {
        &self.raw
    }
}

impl<T: ?Sized> Clone for Handle<T> {
    /// Another owner of the same instance.
    fn clone(&self) -> (res: Self)
        ensures
            res == *self,
    {
        Handle { raw: self.raw.clone(), value: share_value(&self.value) }
    }
}

impl<T: Send + Sync + 'static> Handle<T> {
    /// The value that the handle dereferences to.
    pub closed spec fn value(self) -> T {
        *self.value
    }

    /// Allocates a new instance for `key` and `value`, owned by the returned
    /// handle alone.
    pub fn new(key: String, value: T) -> (h: Self)
        ensures
            h.key() == key@,
            h.value() == value,
    {
        let value = Arc::new(value);
        Handle { raw: erase(key, share_value(&value)), value }
    }
}

impl<T: Send + Sync + 'static> From<Handle<T>> for RawHandle {
    fn from(h: Handle<T>) -> (r: RawHandle) {
        h.raw
    }
}

impl<T: Send + Sync + 'static> vstd::std_specs::convert::FromSpecImpl<Handle<T>> for RawHandle {
    open spec fn obeys_from_spec() -> bool {
        true
    }

    open spec fn from_spec(h: Handle<T>) -> RawHandle {
        h.raw()
    }
}

impl<T: Send + Sync + 'static> Deref for Handle<T> {
    type Target = T;

    fn deref(&self) -> (r: &T)
        ensures
            *r == self.value(),
    {
        &self.value
    }
}

} // verus!
