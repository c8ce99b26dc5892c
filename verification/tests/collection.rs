use region_arena::Arena;
use region_arena::ArenaHandle;
use region_arena::Handle;

fn bits(x: f64) -> u64 {
    x.to_bits()
}

fn read(arena: &Arena, handle: Handle) -> f64 {
    assert!((handle.index() as usize) < arena.len());
    f64::from_bits(*handle.local().get_value(arena))
}

#[test]
fn new_arena_holds_the_rooted_sentinel() {
    let (arena, _gc) = Arena::new(16);
    assert_eq!(arena.len(), 1);
    assert_eq!(arena.root_count(), 1);
}

#[test]
fn new_arena_with_zero_capacity() {
    let (mut arena, gc) = Arena::new(0);
    let h = arena.allocate(bits(4.5));
    gc.join(&h);
    assert_eq!(h.index(), 1);
    assert_eq!(read(&arena, h), 4.5);
}

#[test]
fn allocate_appends_and_returns_the_last_index() {
    let (mut arena, _gc) = Arena::new(4);
    let a = arena.allocate(bits(1.0));
    let b = arena.allocate(bits(2.0));
    assert_eq!(a.index(), 1);
    assert_eq!(b.index(), 2);
    assert_eq!(arena.len(), 3);
    assert_eq!(read(&arena, a), 1.0);
    assert_eq!(read(&arena, b), 2.0);
    assert!(matches!(a.get(&arena), ArenaHandle::Value(v) if *v == bits(1.0)));
}

#[test]
fn store_appends_a_reference_to_the_handle() {
    let (mut arena, _gc) = Arena::new(4);
    let a = arena.allocate(bits(7.25));
    let r = arena.store(a);
    assert_eq!(r.index(), 2);
    assert_eq!(arena.len(), 3);
    match r.get(&arena) {
        ArenaHandle::Ref(t) => assert_eq!(t.index(), 1),
        ArenaHandle::Value(_) => panic!("a reference was stored"),
    }
    assert_eq!(read(&arena, r), 7.25);
}

#[test]
fn get_value_follows_a_chain_of_references() {
    let (mut arena, _gc) = Arena::new(4);
    let a = arena.allocate(bits(-3.5));
    let r1 = arena.store(a);
    let r2 = arena.store(r1);
    let r3 = arena.store(r2);
    assert_eq!(read(&arena, r3), -3.5);
    assert_eq!(read(&arena, r1), -3.5);
}

#[test]
fn rooted_reference_survives_and_is_remapped() {
    let (mut arena, gc) = Arena::new(8);
    let _one = arena.allocate(bits(1.0));
    let two = arena.allocate(bits(2.0));
    let reference = arena.store(two);
    assert_eq!(arena.len(), 4);
    let root = reference.scope(&mut arena);
    let _gc = arena.gc(gc);
    // the sentinel, 2.0 and the reference are left: 1.0 is gone
    assert_eq!(arena.len(), 3);
    let reference = root.get(&arena);
    assert_eq!(reference.index(), 2);
    let target = match reference.get(&arena) {
        ArenaHandle::Ref(t) => t.copy(),
        ArenaHandle::Value(_) => panic!("the root names the reference cell"),
    };
    assert_eq!(target.index(), 1);
    assert!(matches!(target.get(&arena), ArenaHandle::Value(v) if *v == bits(2.0)));
    assert_eq!(read(&arena, reference), 2.0);
    // of the three cells, the first is the arena's own zero and the last is
    // the reference: no cell holds 1.0 any more
    let first = arena.allocate(0);
    assert_eq!(first.index(), 3);
    let own = root.get(&arena).get(&arena);
    assert!(matches!(own, ArenaHandle::Ref(_)));
}

#[test]
fn unrooted_values_are_all_collected() {
    let (mut arena, gc) = Arena::new(8);
    for i in 0..5 {
        arena.allocate(bits(i as f64));
    }
    assert_eq!(arena.len(), 6);
    let _gc = arena.gc(gc);
    // only the sentinel that the arena roots itself is left
    assert_eq!(arena.len(), 1);
    assert_eq!(arena.root_count(), 1);
}

#[test]
fn second_collection_is_a_fixed_point() {
    let (mut arena, mut gc) = Arena::new(8);
    let _garbage = arena.allocate(bits(9.0));
    let kept = arena.allocate(bits(6.5));
    let root = kept.scope(&mut arena);
    arena.gc(gc.reborrow());
    let first_index = root.get(&arena).index();
    let first_value = read(&arena, root.get(&arena));
    let first_len = arena.len();
    arena.gc(gc.reborrow());
    assert_eq!(root.get(&arena).index(), first_index);
    assert_eq!(read(&arena, root.get(&arena)), first_value);
    assert_eq!(arena.len(), first_len);
    assert_eq!(first_index, 1);
    assert_eq!(first_value, 6.5);
    assert_eq!(first_len, 2);
}

#[test]
fn every_reachable_value_is_read_after_collection() {
    let (mut arena, gc) = Arena::new(8);
    let a = arena.allocate(bits(10.0));
    let _g1 = arena.allocate(bits(11.0));
    let b = arena.allocate(bits(12.0));
    let rb = arena.store(b);
    let _g2 = arena.store(a);
    let rrb = arena.store(rb);
    let root_a = a.scope(&mut arena);
    let root_rrb = rrb.scope(&mut arena);
    let _gc = arena.gc(gc);
    // kept: sentinel, a, b, rb, rrb
    assert_eq!(arena.len(), 5);
    assert_eq!(read(&arena, root_a.get(&arena)), 10.0);
    assert_eq!(read(&arena, root_rrb.get(&arena)), 12.0);
    assert_eq!(root_a.get(&arena).index(), 1);
    assert_eq!(root_rrb.get(&arena).index(), 4);
    let rb = match root_rrb.get(&arena).get(&arena) {
        ArenaHandle::Ref(t) => t.copy(),
        ArenaHandle::Value(_) => panic!("a reference"),
    };
    assert_eq!(rb.index(), 3);
    let b = match rb.get(&arena) {
        ArenaHandle::Ref(t) => t.copy(),
        ArenaHandle::Value(_) => panic!("a reference"),
    };
    assert_eq!(b.index(), 2);
    assert!(matches!(b.get(&arena), ArenaHandle::Value(v) if *v == bits(12.0)));
}

#[test]
fn collection_without_garbage_changes_nothing() {
    let (mut arena, gc) = Arena::new(8);
    let a = arena.allocate(bits(1.5));
    let r = arena.store(a);
    let root = r.scope(&mut arena);
    assert_eq!(arena.len(), 3);
    let _gc = arena.gc(gc);
    assert_eq!(arena.len(), 3);
    assert_eq!(root.get(&arena).index(), 2);
    match root.get(&arena).get(&arena) {
        ArenaHandle::Ref(t) => assert_eq!(t.index(), 1),
        ArenaHandle::Value(_) => panic!("a reference"),
    }
    assert_eq!(read(&arena, root.get(&arena)), 1.5);
}

#[test]
fn released_root_no_longer_keeps_its_cell() {
    let (mut arena, mut gc) = Arena::new(8);
    let a = arena.allocate(bits(3.0));
    let root = a.scope(&mut arena);
    arena.gc(gc.reborrow());
    assert_eq!(arena.len(), 2);
    let a = root.take(&mut arena);
    assert_eq!(a.index(), 1);
    assert_eq!(arena.root_count(), 2);
    arena.gc(gc.reborrow());
    assert_eq!(arena.len(), 1);
    assert_eq!(arena.root_count(), 2);
}

#[test]
fn empty_root_entries_stay_in_place() {
    let (mut arena, mut gc) = Arena::new(8);
    let a = arena.allocate(bits(1.0));
    let b = arena.allocate(bits(2.0));
    let root_a = a.scope(&mut arena);
    let root_b = b.scope(&mut arena);
    assert_eq!(root_a.index(), 1);
    assert_eq!(root_b.index(), 2);
    let _ = root_a.take(&mut arena);
    arena.gc(gc.reborrow());
    assert_eq!(arena.root_count(), 3);
    assert_eq!(arena.len(), 2);
    assert_eq!(root_b.get(&arena).index(), 1);
    assert_eq!(read(&arena, root_b.get(&arena)), 2.0);
}

#[test]
fn two_roots_may_name_one_cell() {
    let (mut arena, gc) = Arena::new(8);
    let _garbage = arena.allocate(bits(0.5));
    let a = arena.allocate(bits(8.0));
    let first = a.scope(&mut arena);
    let second = a.scope(&mut arena);
    let _gc = arena.gc(gc);
    assert_eq!(arena.len(), 2);
    assert_eq!(first.get(&arena).index(), 1);
    assert_eq!(second.get(&arena).index(), 1);
    assert!(first.get(&arena) == second.get(&arena));
}

#[test]
fn set_value_overwrites_in_place() {
    let (mut arena, _gc) = Arena::new(8);
    let a = arena.allocate(bits(1.0));
    let r = arena.store(a);
    a.set_value(&mut arena, bits(2.0));
    assert_eq!(read(&arena, a), 2.0);
    assert_eq!(read(&arena, r), 2.0);
    r.set_value(&mut arena, bits(3.0));
    assert_eq!(read(&arena, r), 3.0);
    assert_eq!(read(&arena, a), 2.0);
    assert_eq!(arena.len(), 3);
}

#[test]
fn set_handle_turns_a_value_into_a_reference() {
    let (mut arena, gc) = Arena::new(8);
    let a = arena.allocate(bits(1.0));
    let b = arena.allocate(bits(2.0));
    // the chain from b is b alone, so a may refer to it
    a.set_handle(&mut arena, b);
    assert_eq!(read(&arena, a), 2.0);
    match a.get(&arena) {
        ArenaHandle::Ref(t) => assert_eq!(t.index(), 2),
        ArenaHandle::Value(_) => panic!("a reference"),
    }
    // a reference that points forward is collected like any other
    let root = a.scope(&mut arena);
    let _gc = arena.gc(gc);
    assert_eq!(arena.len(), 3);
    assert_eq!(read(&arena, root.get(&arena)), 2.0);
}

#[test]
fn collection_keeps_what_a_kept_reference_refers_to() {
    let (mut arena, gc) = Arena::new(8);
    let deep = arena.allocate(bits(42.0));
    let _g = arena.allocate(bits(0.0));
    let r1 = arena.store(deep);
    let _g = arena.allocate(bits(0.0));
    let r2 = arena.store(r1);
    let _g = arena.allocate(bits(0.0));
    let r3 = arena.store(r2);
    let root = r3.scope(&mut arena);
    let _gc = arena.gc(gc);
    assert_eq!(arena.len(), 5);
    assert_eq!(root.get(&arena).index(), 4);
    assert_eq!(read(&arena, root.get(&arena)), 42.0);
}

#[test]
fn payload_bits_are_kept_exactly() {
    let (mut arena, gc) = Arena::new(2);
    let nan = arena.allocate(f64::NAN.to_bits());
    let neg_zero = arena.allocate((-0.0f64).to_bits());
    let max = arena.allocate(u64::MAX);
    let r_nan = nan.scope(&mut arena);
    let r_neg = neg_zero.scope(&mut arena);
    let r_max = max.scope(&mut arena);
    let _gc = arena.gc(gc);
    assert_eq!(*r_nan.get(&arena).get_value(&arena), f64::NAN.to_bits());
    assert_eq!(*r_neg.get(&arena).get_value(&arena), (-0.0f64).to_bits());
    assert_eq!(*r_max.get(&arena).get_value(&arena), u64::MAX);
}
