use nonconst_ref::bindings::{
    take_const_reference, take_nonconst_reference, Inner, Outer, OUTER_T_OFFSET,
};
use nonconst_ref::foreign_memory::ForeignMemory;
use nonconst_ref::reference_wrapper::NonConstRef;
use nonconst_ref::unique_ptr::UniquePtr;

#[test]
fn clones_read_the_same_value() {
    let mut mem = ForeignMemory::new();
    let mut p = UniquePtr::make(&mut mem, &Inner(42));
    let r = p.pin_mut();
    let copies: Vec<NonConstRef<Inner>> = (0..5).map(|_| r.clone()).collect();
    for c in &copies {
        assert_eq!(c.address(), r.address());
        assert_eq!(c.as_ref(&mem), Inner(42));
        assert_eq!(c.deref(&mem), r.as_ref(&mem));
    }
}

#[test]
fn write_through_one_clone_is_seen_by_the_others() {
    let mut mem = ForeignMemory::new();
    let mut p = UniquePtr::make(&mut mem, &Inner(1));
    let a = p.pin_mut();
    let b = a;
    let c = a.clone();
    b.store(&mut mem, Inner(200));
    assert_eq!(a.as_ref(&mem), Inner(200));
    assert_eq!(c.as_ref(&mem), Inner(200));
}

#[test]
fn projected_write_is_seen_by_fresh_projection() {
    let mut mem = ForeignMemory::new();
    let mut p = UniquePtr::make(&mut mem, &Outer { t: Inner(3) });
    let r = p.pin_mut();
    let first = r.get_t_non_const();
    first.t_nonconst_method();
    first.store(&mut mem, Inner(77));
    let again = r.get_t_non_const();
    assert_eq!(again.address(), first.address());
    assert_eq!(again.as_ref(&mem), Inner(77));
    assert_eq!(r.as_ref(&mem), Outer { t: Inner(77) });
}

#[test]
fn empty_owner_gives_no_reference() {
    let mut p: UniquePtr<Inner> = UniquePtr::null();
    assert!(p.is_null());
    assert_eq!(p.address(), None);
    assert!(p.as_mut().is_none());
}

#[test]
fn live_owner_reference_reads_construction_value() {
    let mut mem = ForeignMemory::new();
    let mut p = UniquePtr::make(&mut mem, &Outer { t: Inner(5) });
    let addr = p.address().unwrap();
    let r = p.as_mut().unwrap();
    assert_eq!(r.address(), addr);
    assert_eq!(r.as_ref(&mem), Outer { t: Inner(5) });
}

#[test]
fn owner_from_address_reads_allocated_value() {
    let mut mem = ForeignMemory::new();
    let _first = mem.allocate(&Inner(8));
    let addr = mem.allocate(&Inner(9));
    assert_eq!(addr, 1);
    let mut p: UniquePtr<Inner> = UniquePtr::new(addr);
    assert_eq!(p.address(), Some(addr));
    assert_eq!(p.pin_mut().as_ref(&mem), Inner(9));
}

#[test]
fn move_leaves_source_empty_and_releases_nothing() {
    let mut mem = ForeignMemory::new();
    let mut src = UniquePtr::make(&mut mem, &Inner(11));
    let addr = src.address();
    assert_eq!(mem.live_allocations(), 1);
    let mut dst = src.take();
    assert!(src.is_null());
    assert_eq!(dst.address(), addr);
    assert_eq!(mem.live_allocations(), 1);
    assert_eq!(dst.pin_mut().as_ref(&mem), Inner(11));
    assert!(src.as_mut().is_none());
}

#[test]
fn release_frees_exactly_once() {
    let mut mem = ForeignMemory::new();
    let mut a = UniquePtr::make(&mut mem, &Inner(1));
    let mut b = UniquePtr::make(&mut mem, &Outer { t: Inner(2) });
    assert_eq!(mem.live_allocations(), 2);
    a.release(&mut mem);
    assert!(a.is_null());
    assert_eq!(mem.live_allocations(), 1);
    a.release(&mut mem);
    assert_eq!(mem.live_allocations(), 1);
    assert_eq!(b.pin_mut().as_ref(&mem), Outer { t: Inner(2) });
    b.release(&mut mem);
    assert_eq!(mem.live_allocations(), 0);
}

#[test]
fn release_of_empty_owner_frees_nothing() {
    let mut mem = ForeignMemory::new();
    let _keep = UniquePtr::make(&mut mem, &Inner(4));
    let mut e: UniquePtr<Inner> = UniquePtr::null();
    e.release(&mut mem);
    assert!(e.is_null());
    assert_eq!(mem.live_allocations(), 1);
}

#[test]
fn scenario_field_mutation_visible_through_alias() {
    let mut mem = ForeignMemory::new();
    let mut p = UniquePtr::make(&mut mem, &Outer { t: Inner(5) });
    let r1 = p.pin_mut();
    let r2 = r1.get_t_non_const();
    r2.store(&mut mem, Inner(9));
    let r3 = r1.get_t_non_const();
    assert_eq!(r3.as_ref(&mem), Inner(9));
    assert_ne!(r3.as_ref(&mem), Inner(5));
}

#[test]
fn store_touches_only_its_own_allocation() {
    let mut mem = ForeignMemory::new();
    let mut a = UniquePtr::make(&mut mem, &Inner(10));
    let mut b = UniquePtr::make(&mut mem, &Inner(20));
    let ra = a.pin_mut();
    ra.store(&mut mem, Inner(99));
    assert_eq!(b.pin_mut().as_ref(&mem), Inner(20));
    assert_eq!(mem.read_bytes(0, 2), vec![99, 20]);
}

#[test]
fn projection_offsets_the_address() {
    let mut mem = ForeignMemory::new();
    let _pad = mem.allocate(&Inner(0));
    let mut p = UniquePtr::make(&mut mem, &Outer { t: Inner(6) });
    let r = p.pin_mut();
    assert_eq!(r.address(), 1);
    assert_eq!(r.get_t_non_const().address(), 1 + OUTER_T_OFFSET);
    let q: NonConstRef<Inner> = r.project(OUTER_T_OFFSET);
    assert_eq!(q.as_ref(&mem), Inner(6));
}

#[test]
fn const_accessors_read_the_field() {
    let o = Outer { t: Inner(13) };
    assert_eq!(*o.get_t_const(), Inner(13));
    o.outer_const_method();
    o.t.t_const_method();
    take_const_reference(o.get_t_const());
    let mut mem = ForeignMemory::new();
    let mut p = UniquePtr::make(&mut mem, &o);
    let r = p.pin_mut();
    r.outer_nonconst_method();
    take_nonconst_reference(r.get_t_non_const());
    assert_eq!(r.as_ref(&mem).get_t_const(), &Inner(13));
}

#[test]
fn heap_bytes_and_blocks() {
    let mut mem = ForeignMemory::new();
    assert_eq!(mem.live_allocations(), 0);
    let a = mem.allocate_bytes(&vec![1, 2, 3]);
    let b = mem.allocate_bytes(&vec![4]);
    assert_eq!((a, b), (0, 3));
    assert_eq!(mem.read_bytes(1, 3), vec![2, 3, 4]);
    mem.write_bytes(1, &vec![7, 8]);
    assert_eq!(mem.read_bytes(0, 4), vec![1, 7, 8, 4]);
    assert_eq!(mem.live_allocations(), 2);
    mem.deallocate(0, 3);
    assert_eq!(mem.live_allocations(), 1);
    assert_eq!(mem.read_bytes(0, 4), vec![1, 7, 8, 4]);
}

#[test]
fn new_reference_points_at_address() {
    let r: NonConstRef<Inner> = NonConstRef::new(17);
    assert_eq!(r.address(), 17);
}
