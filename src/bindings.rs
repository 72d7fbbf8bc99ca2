//! Accessor pairs for two small foreign types, written on top of the
//! reference primitives: a read-only accessor on the value, and a non-const
//! one on a [`NonConstRef`].

use vstd::prelude::*;
use crate::foreign_memory::{overwrite, ForeignMemory, ForeignType};
use crate::reference_wrapper::{
    lemma_accessible_in_bounds, lemma_accessible_part, lemma_overwrite_read_back, NonConstRef,
};

verus! {

/// A foreign type of one byte.
#[derive(Clone, Copy, PartialEq, Eq, Structural, Debug)]
pub struct Inner(pub u8);

/// A foreign type that contains an [`Inner`].
#[derive(Clone, Copy, PartialEq, Eq, Structural, Debug)]
pub struct Outer {
    pub t: Inner,
}

/// Where `t` lies inside an [`Outer`].
pub const OUTER_T_OFFSET: usize = 0;

impl ForeignType for Inner {
    open spec fn layout_size() -> nat {
        1
    }

    open spec fn encode(self) -> Seq<u8> {
        seq![self.0]
    }

    open spec fn decode(bytes: Seq<u8>) -> Inner {
        Inner(bytes[0])
    }

    proof fn lemma_size_fits() {
    }

    proof fn lemma_layout(v: Inner) {
    }

    fn size() -> (r: usize) {
        1
    }

    fn to_bytes(&self) -> (r: Vec<u8>) {
        vec![self.0]
    }

    fn from_bytes(bytes: &Vec<u8>) -> (r: Inner) {
        Inner(bytes[0])
    }
}

impl ForeignType for Outer {
    open spec fn layout_size() -> nat {
        1
    }

    open spec fn encode(self) -> Seq<u8> {
        self.t.encode()
    }

    open spec fn decode(bytes: Seq<u8>) -> Outer {
        Outer {
            t: Inner::decode(
                bytes.subrange(OUTER_T_OFFSET as int, OUTER_T_OFFSET + Inner::layout_size()),
            ),
        }
    }

    proof fn lemma_size_fits() {
    }

    proof fn lemma_layout(v: Outer) {
        assert(v.encode().subrange(0, 1) =~= v.encode());
    }

    fn size() -> (r: usize) {
        1
    }

    fn to_bytes(&self) -> (r: Vec<u8>) {
        self.t.to_bytes()
    }

    fn from_bytes(bytes: &Vec<u8>) -> (r: Outer) {
        assert(bytes@.subrange(0, 1) =~= bytes@);
        Outer { t: Inner::from_bytes(bytes) }
    }
}

impl Inner {
    /// A const method of the foreign type.
    pub fn t_const_method(&self) {
    }
}

impl<'a> NonConstRef<'a, Inner> {
    /// A non-const method of the foreign type. It is called on a reference,
    /// never on an `&mut Inner`, so the aliasing of the foreign side stays out
    /// of Rust's exclusive borrows.
    pub fn t_nonconst_method(&self) {
    }
}

impl Outer {
    /// Read-only field accessor.
    pub fn get_t_const(&self) -> (r: &Inner)
        ensures
            *r == self.t,
    {
        &self.t
    }

    /// A const method of the foreign type.
    pub fn outer_const_method(&self) {
    }
}

impl<'a> NonConstRef<'a, Outer> {
    /// Non-const field accessor: the reference to `t`, projected from this
    /// one, with the same lifetime.
    pub fn get_t_non_const(&self) -> (r: NonConstRef<'a, Inner>)
        ensures
            r@ == self@ + OUTER_T_OFFSET,
    {
        self.project(OUTER_T_OFFSET)
    }

    /// A non-const method of the foreign type.
    pub fn outer_nonconst_method(&self) {
    }
}

/// A foreign function that takes a const reference.
pub fn take_const_reference(_inner: &Inner) {
}

/// A foreign function that takes a non-const reference.
pub fn take_nonconst_reference(_inner: NonConstRef<Inner>) {
}

/// The field of a valid [`Outer`] is a valid [`Inner`], and it is what the
/// outer value reads as its `t`.
pub proof fn lemma_field_of_valid(r: NonConstRef<Outer>, f: NonConstRef<Inner>, mem: ForeignMemory)
    requires
        mem.wf(),
        r.valid_in(mem),
        f@ == r@ + OUTER_T_OFFSET,
    ensures
        f.valid_in(mem),
        f.value_in(mem) == r.value_in(mem).t,
{
    lemma_accessible_part(mem, r@ as int, 1, OUTER_T_OFFSET as int, 1);
    lemma_accessible_in_bounds(mem, r@ as int, 1);
    let c = mem.contents();
    assert(c.subrange(r@ as int, r@ + 1).subrange(0, 1) =~= c.subrange(f@ as int, f@ + 1));
}

/// A write through one projection of `r` to its field `t` is seen through
/// another projection made afresh, and through `r` itself.
pub proof fn lemma_field_write_visible(
    r: NonConstRef<Outer>,
    first: NonConstRef<Inner>,
    again: NonConstRef<Inner>,
    mem: ForeignMemory,
    v: Inner,
)
    requires
        mem.wf(),
        r.valid_in(mem),
        first@ == r@ + OUTER_T_OFFSET,
        again@ == r@ + OUTER_T_OFFSET,
    ensures
        first.valid_in(mem),
        again.value_at(overwrite(mem.contents(), first@ as int, v.encode())) == v,
        r.value_at(overwrite(mem.contents(), first@ as int, v.encode())) == (Outer { t: v }),
{
    lemma_field_of_valid(r, first, mem);
    lemma_accessible_in_bounds(mem, first@ as int, 1);
    lemma_overwrite_read_back(mem.contents(), first@ as int, v.encode());
    let c = overwrite(mem.contents(), first@ as int, v.encode());
    assert(c.subrange(r@ as int, r@ + 1).subrange(0, 1) =~= c.subrange(first@ as int, first@ + 1));
}

} // verus!
