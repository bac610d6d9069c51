use vstd::prelude::*;

verus! {

/// A typed index: a raw `u32` that names an item of type `T` in some arena.
#[derive(Copy, Debug, PartialEq, Eq, Hash)]
pub struct GenericHandle<T> {
    handle: u32,
    _nothing: core::marker::PhantomData<T>,
}

impl<T> GenericHandle<T> {
    pub closed spec fn raw(&self) -> u32 {
        self.handle
    }

    /// The raw index.
    pub fn handle(&self) -> (r: u32)
        ensures
            r == self.raw(),
    {
        self.handle
    }
}

impl<T> Clone for GenericHandle<T> {
    fn clone(&self) -> (r: Self)
        ensures
            r.raw() == self.raw(),
    {
        GenericHandle { handle: self.handle, _nothing: core::marker::PhantomData }
    }
}

impl<T> From<u32> for GenericHandle<T> {
    fn from(raw: u32) -> (r: GenericHandle<T>) {
        GenericHandle { handle: raw, _nothing: core::marker::PhantomData }
    }
}

impl<T> vstd::std_specs::convert::FromSpecImpl<u32> for GenericHandle<T> {
    open spec fn obeys_from_spec() -> bool {
        true
    }

    closed spec fn from_spec(raw: u32) -> GenericHandle<T> {
        GenericHandle { handle: raw, _nothing: core::marker::PhantomData }
    }
}

} // verus!
