//! Aliasable mutable handles to values that live in foreign memory.
//!
//! Foreign code lets several mutable references to one object coexist, which
//! Rust's `&mut` forbids. This crate models the foreign heap as a byte store
//! with an allocation table ([`foreign_memory::ForeignMemory`]), a copyable
//! non-owning handle into it ([`reference_wrapper::NonConstRef`]) and the
//! single owner of an allocation that issues such handles
//! ([`unique_ptr::UniquePtr`]). The module [`bindings`] shows how per-type
//! accessor pairs are written on top of these primitives.


pub mod foreign_memory;
pub mod reference_wrapper;
pub mod unique_ptr;
pub mod bindings;
