//! The single owner of a foreign allocation.

use std::marker::PhantomData;
use vstd::prelude::*;
use crate::foreign_memory::{Block, ForeignMemory, ForeignType};
use crate::reference_wrapper::NonConstRef;

verus! {

/// Owner of one foreign allocation of a `T`, or empty.
///
/// It cannot be copied, only moved ([`UniquePtr::take`]); it gives the
/// allocation back exactly once ([`UniquePtr::release`]), and it issues the
/// [`NonConstRef`]s to the value, bound to a borrow of itself. The heap is a
/// value of its own, so ending the owner's life means calling `release` with
/// it; dropping a live owner without that leaves the allocation live.
pub struct UniquePtr<T> {
    addr: Option<usize>,
    marker: PhantomData<T>,
}

impl<T> View for UniquePtr<T> {
    /// `Some(address)` while live, `None` once empty.
    type V = Option<usize>;

    closed spec fn view(&self) -> Option<usize> {
        self.addr
    }
}

impl<T: ForeignType> UniquePtr<T> {
    /// A live owner holds a live allocation of exactly one `T` in `mem`; an
    /// empty one holds nothing.
    pub open spec fn owns_in(self, mem: ForeignMemory) -> bool {
        match self@ {
            Some(a) => mem.is_live_block(a as int, T::layout_size() as int),
            None => true,
        }
    }

    /// A live owner whose allocation in `mem` reads as `value`.
    pub open spec fn holds(self, mem: ForeignMemory, value: T) -> bool {
        match self@ {
            Some(a) => T::decode(mem.bytes_at(a as int, T::layout_size() as int)) == value,
            None => false,
        }
    }

    /// Makes a new allocation in `mem` that holds `value`, and its owner.
    pub fn make(mem: &mut ForeignMemory, value: &T) -> (r: Self)
        requires
            old(mem).wf(),
        ensures
            final(mem).wf(),
            r@ == Some(old(mem).contents().len() as usize),
            r.owns_in(*final(mem)),
            r.holds(*final(mem), *value),
            final(mem).live_count() == old(mem).live_count() + 1,
    {
        let addr = mem.allocate(value);
        UniquePtr::new(addr)
    }

    /// Exclusive access to the owner mints a reference to the owned value:
    /// `None` when empty.
    pub fn as_mut(&mut self) -> (r: Option<NonConstRef<'_, T>>)
        ensures
            final(self)@ == old(self)@,
            r.is_some() == old(self)@.is_some(),
            r.is_some() ==> r.unwrap()@ == old(self)@.unwrap(),
    {
        match self.addr {
            Some(a) => Some(NonConstRef::new(a)),
            None => None,
        }
    }

    /// Like [`Self::as_mut`], on an owner that is known to be live.
    pub fn pin_mut(&mut self) -> (r: NonConstRef<'_, T>)
        requires
            old(self)@.is_some(),
        ensures
            final(self)@ == old(self)@,
            r@ == old(self)@.unwrap(),
    {
        self.as_mut().unwrap()
    }

    /// Gives the allocation back to `mem`, once: a live owner frees exactly its
    /// own allocation and becomes empty; an empty one changes nothing.
    pub fn release(&mut self, mem: &mut ForeignMemory)
        requires
            old(mem).wf(),
            old(self).owns_in(*old(mem)),
        ensures
            final(self)@ == None::<usize>,
            final(mem).wf(),
            final(mem).contents() == old(mem).contents(),
            match old(self)@ {
                Some(a) => {
                    &&& final(mem).live_count() + 1 == old(mem).live_count()
                    &&& exists|i: int|
                        0 <= i < old(mem).blocks().len() && old(mem).blocks()[i] == (Block {
                            start: a,
                            size: T::layout_size() as usize,
                            live: true,
                        }) && final(mem).blocks() == old(mem).blocks().update(
                            i,
                            Block { start: a, size: T::layout_size() as usize, live: false },
                        )
                },
                None => final(mem).blocks() == old(mem).blocks(),
            },
    {
        match self.addr {
            Some(a) => {
                let size = T::size();
                mem.deallocate(a, size);
                self.addr = None;
            },
            None => {},
        }
    }
}

impl<T> UniquePtr<T> {
    /// Takes ownership of the allocation at `addr`.
    ///
    /// The allocation must come from the foreign allocator and be owned by
    /// nobody else; what the owner later does with it requires `owns_in`.
    pub fn new(addr: usize) -> (r: Self)
        ensures
            r@ == Some(addr),
    {
        UniquePtr { addr: Some(addr), marker: PhantomData }
    }

    /// An empty owner.
    pub fn null() -> (r: Self)
        ensures
            r@ == None::<usize>,
    {
        UniquePtr { addr: None, marker: PhantomData }
    }

    /// The owned address, or `None` when empty.
    pub fn address(&self) -> (r: Option<usize>)
        ensures
            r == self@,
    {
        self.addr
    }

    /// Whether this owner holds nothing.
    pub fn is_null(&self) -> (r: bool)
        ensures
            r == self@.is_none(),
    {
        self.addr.is_none()
    }

    /// Move: the returned owner holds what `self` held, and `self` is left
    /// empty. No memory is touched, so nothing is released.
    pub fn take(&mut self) -> (r: Self)
        ensures
            r@ == old(self)@,
            final(self)@ == None::<usize>,
    {
        let addr = self.addr;
        self.addr = None;
        UniquePtr { addr, marker: PhantomData }
    }
}

/// A reference minted from a live owner is valid, and reads the value the
/// allocation holds: after construction, the value it was made over.
pub proof fn lemma_minted_reference_reads_value<T: ForeignType>(
    p: UniquePtr<T>,
    r: NonConstRef<T>,
    mem: ForeignMemory,
    value: T,
)
    requires
        mem.wf(),
        p.owns_in(mem),
        p.holds(mem, value),
        p@ == Some(r@),
    ensures
        r.valid_in(mem),
        r.value_in(mem) == value,
{
    let i = choose|i: int|
        0 <= i < mem.blocks().len() && (#[trigger] mem.blocks()[i]).live && mem.blocks()[i].start
            == r@ && mem.blocks()[i].size == T::layout_size();
    assert(mem.blocks()[i].live);
}

} // verus!
