//! The foreign heap: a byte store and the table of allocations made in it.

use vstd::prelude::*;

verus! {

/// One entry of the allocation table: `size` bytes starting at `start`,
/// still owned by somebody (`live`) or already given back.
#[derive(Clone, Copy, PartialEq, Eq, Structural, Debug)]
pub struct Block {
    pub start: usize,
    pub size: usize,
    pub live: bool,
}

/// `c` with the bytes from `addr` on replaced by `data`.
pub open spec fn overwrite(c: Seq<u8>, addr: int, data: Seq<u8>) -> Seq<u8> {
    Seq::new(c.len(), |k: int| if addr <= k < addr + data.len() { data[k - addr] } else { c[k] })
}

/// Number of live entries in an allocation table.
pub open spec fn count_live(s: Seq<Block>) -> nat
    decreases s.len(),
{
    if s.len() == 0 {
        0
    } else {
        count_live(s.drop_last()) + if s.last().live { 1nat } else { 0nat }
    }
}

proof fn lemma_count_live_push(s: Seq<Block>, b: Block)
    ensures
        count_live(s.push(b)) == count_live(s) + if b.live { 1nat } else { 0nat },
{
    assert(s.push(b).drop_last() =~= s);
}

proof fn lemma_count_live_update(s: Seq<Block>, i: int, b: Block)
    requires
        0 <= i < s.len(),
        s[i].live,
        !b.live,
    ensures
        count_live(s.update(i, b)) + 1 == count_live(s),
    decreases s.len(),
{
    if i == s.len() - 1 {
        assert(s.update(i, b).drop_last() =~= s.drop_last());
    } else {
        assert(s.update(i, b).drop_last() =~= s.drop_last().update(i, b));
        lemma_count_live_update(s.drop_last(), i, b);
    }
}

/// A type with a fixed foreign layout: how a value is laid out in bytes, and
/// how it is read back.
pub trait ForeignType: Sized {
    /// Number of bytes a value occupies in foreign memory.
    spec fn layout_size() -> nat;

    /// The bytes that represent `self`.
    spec fn encode(self) -> Seq<u8>;

    /// The value that `bytes` represent.
    spec fn decode(bytes: Seq<u8>) -> Self;

    /// The layout is non-empty, and its size is an address offset.
    proof fn lemma_size_fits()
        ensures
            0 < Self::layout_size() <= usize::MAX,
    ;

    /// Every value fills the layout, and reading a value's bytes gives the
    /// value back.
    proof fn lemma_layout(v: Self)
        ensures
            v.encode().len() == Self::layout_size(),
            Self::decode(v.encode()) == v,
    ;

    /// The layout's size in bytes.
    fn size() -> (r: usize)
        ensures
            r as nat == Self::layout_size(),
    ;

    /// The bytes that represent `self`.
    fn to_bytes(&self) -> (r: Vec<u8>)
        ensures
            r@ == self.encode(),
    ;

    /// The value that `bytes` represent.
    fn from_bytes(bytes: &Vec<u8>) -> (r: Self)
        requires
            bytes@.len() == Self::layout_size(),
        ensures
            r == Self::decode(bytes@),
    ;
}

/// The foreign heap. Addresses are byte offsets into `bytes`; every
/// allocation ever made has an entry in `blocks`, in address order.
pub struct ForeignMemory {
    bytes: Vec<u8>,
    blocks: Vec<Block>,
}

impl ForeignMemory {
    /// The bytes of the heap, indexed by address.
    pub closed spec fn contents(&self) -> Seq<u8> {
        self.bytes@
    }

    /// The allocation table, oldest allocation first.
    pub closed spec fn blocks(&self) -> Seq<Block> {
        self.blocks@
    }

    /// Every allocation is non-empty, lies inside the heap, and starts after
    /// the previous one ends.
    pub open spec fn wf(&self) -> bool {
        &&& forall|i: int|
            0 <= i < self.blocks().len() ==> {
                &&& #[trigger] self.blocks()[i].size > 0
                &&& self.blocks()[i].start + self.blocks()[i].size <= self.contents().len()
            }
        &&& forall|i: int, j: int|
            0 <= i < j < self.blocks().len() ==> #[trigger] self.blocks()[i].start
                + self.blocks()[i].size <= #[trigger] self.blocks()[j].start
    }

    /// An allocation of exactly `size` bytes at `addr` is still live.
    pub open spec fn is_live_block(&self, addr: int, size: int) -> bool {
        exists|i: int|
            0 <= i < self.blocks().len() && (#[trigger] self.blocks()[i]).live
                && self.blocks()[i].start == addr && self.blocks()[i].size == size
    }

    /// The `size` bytes at `addr` lie inside one live allocation.
    pub open spec fn is_accessible(&self, addr: int, size: int) -> bool {
        exists|i: int|
            0 <= i < self.blocks().len() && (#[trigger] self.blocks()[i]).live
                && self.blocks()[i].start <= addr && addr + size <= self.blocks()[i].start
                + self.blocks()[i].size
    }

    /// The `size` bytes at `addr`.
    pub open spec fn bytes_at(&self, addr: int, size: int) -> Seq<u8> {
        self.contents().subrange(addr, addr + size)
    }

    /// Number of allocations that are still live.
    pub open spec fn live_count(&self) -> nat {
        count_live(self.blocks())
    }

    /// An empty heap.
    pub fn new() -> (r: ForeignMemory)
        ensures
            r.wf(),
            r.contents() == Seq::<u8>::empty(),
            r.blocks() == Seq::<Block>::empty(),
    {
        ForeignMemory { bytes: Vec::new(), blocks: Vec::new() }
    }

    /// Makes a new allocation holding a copy of `init`, placed right after
    /// the end of the heap, and returns its address.
    pub fn allocate_bytes(&mut self, init: &Vec<u8>) -> (addr: usize)
        requires
            old(self).wf(),
            init@.len() > 0,
        ensures
            final(self).wf(),
            addr == old(self).contents().len(),
            final(self).contents() == old(self).contents() + init@,
            final(self).blocks() == old(self).blocks().push(
                Block { start: addr, size: init@.len() as usize, live: true },
            ),
            final(self).live_count() == old(self).live_count() + 1,
    {
        let addr = self.bytes.len();
        let mut j: usize = 0;
        while j < init.len()
            invariant
                j <= init@.len(),
                self.blocks@ == old(self).blocks@,
                self.bytes@ =~= old(self).bytes@ + init@.subrange(0, j as int),
            decreases init@.len() - j,
        {
            self.bytes.push(init[j]);
            j = j + 1;
        }
        assert(init@.subrange(0, init@.len() as int) =~= init@);
        let _n: usize = self.bytes.len();
        let block = Block { start: addr, size: init.len(), live: true };
        self.blocks.push(block);
        proof {
            lemma_count_live_push(old(self).blocks@, block);
            let n = old(self).blocks().len();
            assert forall|i: int| 0 <= i < n implies #[trigger] self.blocks()[i] == old(
                self,
            ).blocks()[i] && self.blocks()[i].start + self.blocks()[i].size <= addr by {}
            assert forall|i: int, j: int|
                0 <= i < j < self.blocks().len() implies #[trigger] self.blocks()[i].start
                + self.blocks()[i].size <= #[trigger] self.blocks()[j].start by {
                if j == n {
                    assert(self.blocks()[i] == old(self).blocks()[i]);
                } else {
                    assert(self.blocks()[i] == old(self).blocks()[i]);
                    assert(self.blocks()[j] == old(self).blocks()[j]);
                }
            }
        }
        addr
    }

    /// The foreign allocator: makes a new allocation that holds `value` and
    /// returns its address.
    pub fn allocate<T: ForeignType>(&mut self, value: &T) -> (addr: usize)
        requires
            old(self).wf(),
        ensures
            final(self).wf(),
            addr == old(self).contents().len(),
            final(self).contents() == old(self).contents() + value.encode(),
            final(self).blocks() == old(self).blocks().push(
                Block { start: addr, size: T::layout_size() as usize, live: true },
            ),
            final(self).is_live_block(addr as int, T::layout_size() as int),
            T::decode(final(self).bytes_at(addr as int, T::layout_size() as int)) == *value,
            final(self).live_count() == old(self).live_count() + 1,
    {
        proof {
            T::lemma_size_fits();
            T::lemma_layout(*value);
        }
        let init = value.to_bytes();
        let addr = self.allocate_bytes(&init);
        proof {
            let n = old(self).blocks().len() as int;
            assert(self.blocks()[n] == (Block {
                start: addr,
                size: T::layout_size() as usize,
                live: true,
            }));
            assert(self.bytes_at(addr as int, T::layout_size() as int) =~= value.encode());
        }
        addr
    }

    /// Gives back the live allocation of `size` bytes at `addr`: its entry in
    /// the table, and no other, turns from live to released.
    pub fn deallocate(&mut self, addr: usize, size: usize)
        requires
            old(self).wf(),
            old(self).is_live_block(addr as int, size as int),
        ensures
            final(self).wf(),
            final(self).contents() == old(self).contents(),
            exists|i: int|
                0 <= i < old(self).blocks().len() && old(self).blocks()[i] == (Block {
                    start: addr,
                    size,
                    live: true,
                }) && final(self).blocks() == old(self).blocks().update(
                    i,
                    Block { start: addr, size, live: false },
                ),
            final(self).live_count() + 1 == old(self).live_count(),
    {
        let ghost w = choose|w: int|
            0 <= w < self.blocks().len() && (#[trigger] self.blocks()[w]).live
                && self.blocks()[w].start == addr && self.blocks()[w].size == size;
        let mut i: usize = 0;
        while i < self.blocks.len()
            invariant
                i <= self.blocks@.len(),
                self.blocks@ == old(self).blocks@,
                self.bytes@ == old(self).bytes@,
                self.wf(),
                0 <= w < self.blocks@.len(),
                self.blocks@[w] == (Block { start: addr, size, live: true }),
                forall|k: int| 0 <= k < i ==> !(#[trigger] self.blocks@[k].start == addr && self.blocks@[k].live),
            decreases self.blocks@.len() - i,
        {
            let b = self.blocks[i];
            if b.start == addr && b.live {
                proof {
                    if w > i {
                        assert(self.blocks()[i as int].start + self.blocks()[i as int].size
                            <= self.blocks()[w].start);
                        assert(self.blocks()[i as int].size > 0);
                    } else if w < i {
                        assert(!(self.blocks@[w].start == addr && self.blocks@[w].live));
                    }
                    assert(w == i);
                    lemma_count_live_update(self.blocks@, i as int, Block { start: addr, size, live: false });
                }
                self.blocks.set(i, Block { start: addr, size, live: false });
                assert(old(self).blocks()[i as int] == (Block { start: addr, size, live: true }));
                assert(self.blocks() == old(self).blocks().update(
                    i as int,
                    Block { start: addr, size, live: false },
                ));
                return;
            }
            i = i + 1;
        }
        assert(!(self.blocks@[w].start == addr && self.blocks@[w].live));
    }

    /// Number of allocations that are still live.
    pub fn live_allocations(&self) -> (r: usize)
        ensures
            r == self.live_count(),
    {
        let mut n: usize = 0;
        let mut i: usize = 0;
        while i < self.blocks.len()
            invariant
                i <= self.blocks@.len(),
                n <= i,
                n == count_live(self.blocks@.subrange(0, i as int)),
            decreases self.blocks@.len() - i,
        {
            assert(self.blocks@.subrange(0, i + 1).drop_last() =~= self.blocks@.subrange(0, i as int));
            if self.blocks[i].live {
                n = n + 1;
            }
            i = i + 1;
        }
        assert(self.blocks@.subrange(0, i as int) =~= self.blocks@);
        n
    }

    /// Copies the `size` bytes at `addr` out of the heap.
    pub fn read_bytes(&self, addr: usize, size: usize) -> (r: Vec<u8>)
        requires
            addr + size <= self.contents().len(),
        ensures
            r@ == self.bytes_at(addr as int, size as int),
    {
        let _n: usize = self.bytes.len();
        let mut r: Vec<u8> = Vec::new();
        let mut j: usize = 0;
        while j < size
            invariant
                j <= size,
                addr + size <= self.bytes@.len() <= usize::MAX,
                r@ =~= self.bytes@.subrange(addr as int, addr + j),
            decreases size - j,
        {
            r.push(self.bytes[addr + j]);
            j = j + 1;
        }
        r
    }

    /// Overwrites the bytes from `addr` on with `data`; the allocation table
    /// is left as it is.
    pub fn write_bytes(&mut self, addr: usize, data: &Vec<u8>)
        requires
            old(self).wf(),
            addr + data@.len() <= old(self).contents().len(),
        ensures
            final(self).wf(),
            final(self).contents() == overwrite(old(self).contents(), addr as int, data@),
            final(self).blocks() == old(self).blocks(),
    {
        let ghost before = self.bytes@;
        let _n: usize = self.bytes.len();
        let mut j: usize = 0;
        while j < data.len()
            invariant
                j <= data@.len(),
                addr + data@.len() <= before.len() <= usize::MAX,
                before == old(self).bytes@,
                old(self).wf(),
                self.blocks@ == old(self).blocks@,
                self.bytes@ =~= overwrite(before, addr as int, data@.subrange(0, j as int)),
            decreases data@.len() - j,
        {
            self.bytes[addr + j] = data[j];
            j = j + 1;
        }
        assert(data@.subrange(0, data@.len() as int) =~= data@);
        assert(self.bytes@.len() == before.len());
        assert(self.blocks() == old(self).blocks());
        assert(self.wf());
    }
}

} // verus!
