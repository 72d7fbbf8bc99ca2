//! The aliasable mutable handle to a value in foreign memory.

use std::marker::PhantomData;
use vstd::prelude::*;
use crate::foreign_memory::{overwrite, ForeignMemory, ForeignType};

verus! {

/// A foreign non-const reference to a `T` at some address of a
/// [`ForeignMemory`], valid for `'a`.
///
/// Unlike `&mut T`, any number of these may refer to the same value at once:
/// the type is `Copy`, owns nothing, and keeps no count of its copies. The
/// issuer (the owning allocation, or the reference a field was projected
/// from) is what guarantees that the value stays live for `'a`.
pub struct NonConstRef<'a, T> {
    addr: usize,
    marker: PhantomData<&'a T>,
}

impl<'a, T> Clone for NonConstRef<'a, T> {
    /// Another handle to the same value; nothing is required of `T`.
    fn clone(&self) -> (r: Self)
        ensures
            r@ == self@,
    {
        NonConstRef { addr: self.addr, marker: PhantomData }
    }
}

impl<'a, T> Copy for NonConstRef<'a, T> {}

impl<'a, T> View for NonConstRef<'a, T> {
    /// The address referred to.
    type V = usize;

    closed spec fn view(&self) -> usize {
        self.addr
    }
}

impl<'a, T: ForeignType> NonConstRef<'a, T> {
    /// The value lies inside a live allocation of `mem`.
    pub open spec fn valid_in(self, mem: ForeignMemory) -> bool {
        mem.is_accessible(self@ as int, T::layout_size() as int)
    }

    /// The value that heap contents `c` hold at this reference.
    pub open spec fn value_at(self, c: Seq<u8>) -> T {
        T::decode(c.subrange(self@ as int, self@ + T::layout_size()))
    }

    /// The value that `mem` holds at this reference.
    pub open spec fn value_in(self, mem: ForeignMemory) -> T {
        self.value_at(mem.contents())
    }

    /// The read-only view of the referenced value.
    pub fn as_ref(&self, mem: &ForeignMemory) -> (r: T)
        requires
            mem.wf(),
            self.valid_in(*mem),
        ensures
            r == self.value_in(*mem),
    {
        let size = T::size();
        let bytes = mem.read_bytes(self.addr, size);
        T::from_bytes(&bytes)
    }

    /// Dereference: the same as [`Self::as_ref`].
    pub fn deref(&self, mem: &ForeignMemory) -> (r: T)
        requires
            mem.wf(),
            self.valid_in(*mem),
        ensures
            r == self.value_in(*mem),
    {
        self.as_ref(mem)
    }

    /// Mutating capability: replaces the referenced value by `value`.
    ///
    /// The receiver is shared: any copy of this reference may do the same,
    /// so exclusive access to one handle would prove nothing.
    pub fn store(&self, mem: &mut ForeignMemory, value: T)
        requires
            old(mem).wf(),
            self.valid_in(*old(mem)),
        ensures
            final(mem).wf(),
            final(mem).blocks() == old(mem).blocks(),
            final(mem).contents() == overwrite(old(mem).contents(), self@ as int, value.encode()),
            self.value_in(*final(mem)) == value,
    {
        proof {
            T::lemma_layout(value);
            lemma_accessible_in_bounds(*old(mem), self@ as int, T::layout_size() as int);
        }
        let bytes = value.to_bytes();
        mem.write_bytes(self.addr, &bytes);
        proof {
            lemma_overwrite_read_back(old(mem).contents(), self@ as int, value.encode());
        }
    }
}

impl<'a, T> NonConstRef<'a, T> {
    /// A reference to the value at `addr`.
    ///
    /// Nothing is checked here: using the reference requires that `addr` holds
    /// a live `T` (see `valid_in`), which is the caller's to ensure for `'a`.
    pub fn new(addr: usize) -> (r: Self)
        ensures
            r@ == addr,
    {
        NonConstRef { addr, marker: PhantomData }
    }

    /// The address referred to.
    pub fn address(&self) -> (r: usize)
        ensures
            r == self@,
    {
        self.addr
    }

    /// Field projection: the reference to the `U` that lies `offset` bytes into
    /// the referenced value, computed from the address alone.
    ///
    /// This is the one place where a mutable path to a sub-object is derived.
    /// It is sound only while the issuer of `self` guarantees that nobody holds
    /// exclusive access to the value; the result carries the same lifetime.
    pub fn project<U>(&self, offset: usize) -> (r: NonConstRef<'a, U>)
        requires
            self@ + offset <= usize::MAX,
        ensures
            r@ == self@ + offset,
    {
        NonConstRef { addr: self.addr + offset, marker: PhantomData }
    }
}

/// A live range stays inside the heap.
pub proof fn lemma_accessible_in_bounds(mem: ForeignMemory, addr: int, size: int)
    requires
        mem.wf(),
        mem.is_accessible(addr, size),
    ensures
        0 <= addr,
        addr + size <= mem.contents().len(),
{
    let i = choose|i: int|
        0 <= i < mem.blocks().len() && (#[trigger] mem.blocks()[i]).live && mem.blocks()[i].start
            <= addr && addr + size <= mem.blocks()[i].start + mem.blocks()[i].size;
    assert(mem.blocks()[i].size > 0);
}

/// A part of a live range is live.
pub proof fn lemma_accessible_part(mem: ForeignMemory, addr: int, size: int, offset: int, part: int)
    requires
        mem.is_accessible(addr, size),
        0 <= offset,
        0 <= part,
        offset + part <= size,
    ensures
        mem.is_accessible(addr + offset, part),
{
    let i = choose|i: int|
        0 <= i < mem.blocks().len() && (#[trigger] mem.blocks()[i]).live && mem.blocks()[i].start
            <= addr && addr + size <= mem.blocks()[i].start + mem.blocks()[i].size;
    assert(mem.blocks()[i].live);
}

/// What was just written is what is read back from the same place.
pub proof fn lemma_overwrite_read_back(c: Seq<u8>, addr: int, data: Seq<u8>)
    requires
        0 <= addr,
        addr + data.len() <= c.len(),
    ensures
        overwrite(c, addr, data).subrange(addr, addr + data.len()) == data,
        overwrite(c, addr, data).len() == c.len(),
{
    assert(overwrite(c, addr, data).subrange(addr, addr + data.len()) =~= data);
}

/// Any number of copies of one reference are valid wherever it is, and, read
/// in the same heap, see the same value.
pub proof fn lemma_copies_read_alike<T: ForeignType>(
    r: NonConstRef<T>,
    copies: Seq<NonConstRef<T>>,
    mem: ForeignMemory,
)
    requires
        copies.len() >= 2,
        forall|i: int| 0 <= i < copies.len() ==> (#[trigger] copies[i])@ == r@,
    ensures
        forall|i: int, j: int|
            0 <= i < copies.len() && 0 <= j < copies.len() ==> (#[trigger] copies[i]).value_in(mem)
                == (#[trigger] copies[j]).value_in(mem),
        forall|i: int| 0 <= i < copies.len() ==> (#[trigger] copies[i]).value_in(mem) == r.value_in(mem),
        forall|i: int|
            0 <= i < copies.len() ==> (#[trigger] copies[i]).valid_in(mem) == r.valid_in(mem),
{
}

} // verus!
