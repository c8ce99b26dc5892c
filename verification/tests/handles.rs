use region_arena::Arena;
use region_arena::Gc;
use region_arena::Handle;
use region_arena::NoGc;
use std::collections::HashSet;

trait NotClone<Witness> {
    fn holds() -> bool {
        true
    }
}

impl<T: ?Sized> NotClone<()> for T {}

impl<T: ?Sized + Clone> NotClone<u8> for T {}

#[test]
fn collection_permission_cannot_be_duplicated() {
    // With a `Clone` impl for `Gc` both impls above would apply, and the
    // witness could not be inferred: this line would not compile.
    assert!(<Gc<'static> as NotClone<_>>::holds());
}

#[test]
fn handles_compare_by_index() {
    let (mut arena, _gc) = Arena::new(4);
    let a = arena.allocate(1);
    let b = arena.allocate(1);
    assert!(a == a.local());
    assert!(a != b);
    assert!(a < b);
    assert!(b > a);
    assert!(a <= a.copy());
    assert_eq!(a.partial_cmp(&b), Some(std::cmp::Ordering::Less));
    assert_eq!(b.cmp(&a), std::cmp::Ordering::Greater);
    assert_eq!(a.cmp(&a), std::cmp::Ordering::Equal);
    let mut sorted = vec![b, a];
    sorted.sort();
    assert_eq!(sorted[0].index(), 1);
    assert_eq!(sorted[1].index(), 2);
    let mut set = HashSet::new();
    set.insert(a);
    set.insert(a.copy());
    set.insert(b);
    assert_eq!(set.len(), 2);
}

#[test]
fn rebinding_keeps_the_index() {
    let (mut arena, gc) = Arena::new(4);
    let a = arena.allocate(5);
    assert_eq!(a.local().index(), a.index());
    assert_eq!(a.copy().index(), a.index());
    assert_eq!(a.unbind().index(), a.index());
    let nogc = gc.nogc();
    let bound = a.bind(nogc);
    assert_eq!(bound.index(), a.index());
    nogc.join(bound);
}

#[test]
fn scope_returns_consecutive_names() {
    let (mut arena, _gc) = Arena::new(4);
    let a = arena.allocate(5);
    let first = a.scope(&mut arena);
    let second = a.scope(&mut arena);
    assert_eq!(first.index(), 1);
    assert_eq!(second.index(), 2);
    assert_eq!(arena.root_count(), 3);
    assert_eq!(first.get(&arena).index(), a.index());
}

#[test]
fn take_returns_the_registered_handle() {
    let (mut arena, _gc) = Arena::new(4);
    let a = arena.allocate(5);
    let b = arena.allocate(6);
    let root_a = a.scope(&mut arena);
    let root_b = b.scope(&mut arena);
    let taken = root_a.take(&mut arena);
    assert_eq!(taken.index(), 1);
    assert_eq!(root_b.get(&arena).index(), 2);
    assert_eq!(arena.root_count(), 3);
    assert_eq!(arena.len(), 3);
}

fn reads_under_certificate<'a: 'g, 'g>(
    arena: &Arena<'a>,
    handle: Handle<'g>,
    nogc: NoGc<'g>,
) -> u64 {
    nogc.join(handle);
    *handle.get_value(arena)
}

fn reads_with_permission<'a: 'g, 'g>(arena: &Arena<'a>, handle: Handle<'g>, gc: Gc<'g>) -> u64 {
    let handle = handle.local();
    gc.join(&handle);
    *handle.get_value(arena)
}

#[test]
fn tokens_are_threaded_through_calls() {
    let (mut arena, mut gc) = Arena::new(4);
    let a = arena.allocate(17);
    let b = arena.allocate(18);
    // each call gets a copy of the handle in a region of its own, which the
    // token of that call covers
    assert_eq!(reads_under_certificate(&arena, a.local(), gc.nogc()), 17);
    assert_eq!(reads_with_permission(&arena, b.local(), gc.reborrow()), 18);
    assert_eq!(reads_with_permission(&arena, a.local(), gc.bind_one(a.local())), 17);
    assert_eq!(
        reads_with_permission(&arena, b.local(), gc.bind_two(a.local(), b.local())),
        18
    );
    {
        let nogc = gc.nogc();
        let copy = nogc;
        nogc.join(a.local());
        copy.join(b.local());
    }
    let nogc = gc.into_nogc();
    assert_eq!(reads_under_certificate(&arena, a.local(), nogc), 17);
    let from: NoGc = NoGc::from(Arena::new(1).1);
    from.join(a.local());
    a.test_usage();
}
