use region_arena::Arena;
use region_arena::Gc;
use region_arena::Handle;

fn inner<'a: 'gc, 'gc>(arena: &mut Arena<'a>, handle: Handle<'gc>, gc: Gc<'gc>) -> Handle<'gc> {
    let handle = handle.local();
    gc.join(&handle);
    let handle = arena.store(handle);
    gc.join(&handle);
    let handle = arena.store(handle);
    gc.join(&handle);
    let handle = arena.allocate(f64::to_bits(0.123456));
    gc.join(&handle);
    let handle = arena.store(handle);
    gc.join(&handle);
    let handle = arena.store(handle);
    gc.join(&handle);
    let handle = arena.store(handle);
    gc.join(&handle);
    handle
}

fn outer<'a: 'gc, 'gc>(
    arena: &mut Arena<'a>,
    handle: Handle<'gc>,
    mut gc: Gc<'gc>,
) -> Handle<'gc> {
    let handle = handle.local();
    gc.join(&handle);
    handle.test_usage();
    let result = inner(arena, handle, gc.reborrow());
    gc.join(&result);
    let storage = arena.store(result);
    gc.join(&storage);
    let bad_result = result;
    println!(
        "Stored result: {}",
        f64::from_bits(*storage.get_value(arena))
    );
    let storage = storage.scope(arena);
    println!(
        "Stored result: {}",
        f64::from_bits(*storage.get(arena).get_value(arena))
    );
    arena.gc(gc.reborrow());
    let storage = storage.take(arena);
    gc.join(&storage);
    println!(
        "Stored result: {}",
        f64::from_bits(*storage.get_value(arena))
    );
    assert_eq!(f64::from_bits(*storage.get_value(arena)), 0.123456);
    bad_result
}

#[test]
fn test_invalidation() {
    let (mut arena, gc) = Arena::new(256);
    let handle = arena.allocate(f64::to_bits(1.235));
    gc.join(&handle);
    outer(&mut arena, handle, gc);
}
