use vstd::prelude::*;

verus! {

/// A generic wrapper that ties the lifetime of an FFI value (`T`) to the lifetime of
/// a borrow of its owner (`Owner`).
#[derive(Debug)]
pub struct FFIWrapper<'a, T, Owner> {
    pub ffi_object: T,
    /// Ties the wrapper's lifetime to a borrow of the owner; it holds no data.
    pub _marker: std::marker::PhantomData<&'a Owner>,
}

impl<'a, T, Owner> View for FFIWrapper<'a, T, Owner> {
    type V = T;

    /// The wrapped FFI object.
    open spec fn view(&self) -> T {
        self.ffi_object
    }
}

impl<'a, T, Owner> FFIWrapper<'a, T, Owner> {
    /// Creates a new FFI wrapper around the given object.
    pub fn new(ffi_object: T) -> (r: Self)
        ensures
            r.ffi_object == ffi_object,
    {
        FFIWrapper { ffi_object, _marker: std::marker::PhantomData }
    }

    /// Consumes the wrapper and returns the inner FFI object.
    pub fn into_inner(self) -> (r: T)
        ensures
            r == self.ffi_object,
    {
        self.ffi_object
    }
}

impl<'a, T, Owner> std::ops::Deref for FFIWrapper<'a, T, Owner> {
    type Target = T;

    fn deref(&self) -> (r: &T)
        ensures
            *r == self.ffi_object,
    {
        &self.ffi_object
    }
}

} // verus!
