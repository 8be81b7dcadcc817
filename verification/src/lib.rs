//! Polymorphic duplication for values reached through an interface.
//!
//! A type that supports the language's native duplication facility (`Clone`)
//! automatically acquires the [`DynClone`] capability, and can then be
//! duplicated through [`clone`] and [`clone_box`] without the caller naming
//! the concrete duplication logic. The [`generator`] module holds the
//! declarative facility that wires an interface's owned handles up to native
//! duplication.

use vstd::prelude::*;

pub mod generator;

verus! {

/// Bound met exactly by the types that have the native duplication facility;
/// it keeps [`DynClone`] from being implemented by hand for anything else.
pub trait Sealed {}

impl<T: Clone> Sealed for T {}

/// Capability token for [`DynClone::__clone_box`]: only this crate's entry
/// points are meant to construct one and call the hidden operation.
pub struct Private;

/// The duplication capability. Every type with native duplication implements
/// it automatically through the blanket grant below; no type opts in by hand.
pub trait DynClone: Sealed {
    /// What counts, for this concrete type, as a duplicate of `self`:
    /// `dup` could have been produced by this type's own duplication logic.
    spec fn is_duplicate(&self, dup: &Self) -> bool;

    /// The hidden operation: produce a freshly allocated, independently
    /// owned duplicate of `self`.
    fn __clone_box(&self, _private: Private) -> (dup: Box<Self>)
        ensures
            self.is_duplicate(&dup),
    ;
}

/// The universal capability grant: native duplication is enough to take part
/// in polymorphic duplication, with no per-type boilerplate.
impl<T: Clone> DynClone for T {
    open spec fn is_duplicate(&self, dup: &T) -> bool {
        vstd::pervasive::cloned::<T>(*self, *dup)
    }

    fn __clone_box(&self, _private: Private) -> (dup: Box<T>) {
        Box::new(self.clone())
    }
}

/// Duplicate a value of a statically known type: the result is a duplicate of
/// `*t` by `T`'s own duplication semantics, owned by the caller and sharing
/// no storage with the source.
pub fn clone<T: DynClone>(t: &T) -> (dup: T)
    ensures
        t.is_duplicate(&dup),
{
    *t.__clone_box(Private)
}

/// Duplicate the value behind a reference, handing back a freshly allocated,
/// independently owned handle to the duplicate. The concrete type — and with
/// it every method override — is the source's own, since the source's own
/// capability performs the duplication.
pub fn clone_box<T: ?Sized + DynClone>(t: &T) -> (dup: Box<T>)
    ensures
        t.is_duplicate(&dup),
{
    t.__clone_box(Private)
}

/// For every type granted the capability through native duplication, a
/// duplicate in the sense of [`DynClone::is_duplicate`] is exactly a value
/// that `T`'s own `clone` could have returned (or the value itself, where a
/// clone is optimized to a copy).
pub proof fn lemma_duplicate_is_native_clone<T: Clone>(t: T, dup: T)
    ensures
        t.is_duplicate(&dup) <==> vstd::pervasive::cloned::<T>(t, dup),
{
}

} // verus!
