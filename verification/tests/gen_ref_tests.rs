use raw_util::{GenArena, GenRef};

#[test]
fn allocate_then_borrow() {
    let mut arena: GenArena<u32> = GenArena::new();
    let a = arena.allocate(10);
    let b = arena.allocate(20);
    assert_eq!(arena.borrow(&a), Some(&10));
    assert_eq!(arena.borrow(&b), Some(&20));
    assert_eq!(a.deref(&arena), Some(&10));
    assert_eq!(arena.arena.len(), 2);
}

#[test]
fn free_makes_handle_stale_and_reuse_raises_generation() {
    let mut arena: GenArena<u32> = GenArena::new();
    let a = arena.allocate(1);
    let b = arena.allocate(2);
    arena.free(&a);
    assert_eq!(arena.borrow(&a), None);
    assert_eq!(arena.borrow(&b), Some(&2));
    let c = arena.allocate(3);
    assert_eq!(arena.arena.len(), 2);
    assert_eq!(arena.arena[0].generation, 1);
    assert_eq!(arena.borrow(&c), Some(&3));
    assert_eq!(arena.borrow(&a), None);
    assert!(a != c);
}

#[test]
fn reuse_takes_lowest_free_bucket() {
    let mut arena: GenArena<u32> = GenArena::new();
    let a = arena.allocate(1);
    let b = arena.allocate(2);
    let c = arena.allocate(3);
    arena.free(&c);
    arena.free(&a);
    let d = arena.allocate(4);
    assert_eq!(arena.arena[0].item, Some(4));
    assert_eq!(arena.borrow(&d), Some(&4));
    assert_eq!(arena.borrow(&b), Some(&2));
    assert_eq!(arena.borrow(&c), None);
}

#[test]
fn free_through_handle() {
    let mut arena: GenArena<u32> = GenArena::new();
    let a = arena.allocate(1);
    a.free(&mut arena);
    assert!(arena.arena[0].free);
    assert_eq!(a.deref(&arena), None);
    a.free(&mut arena);
    assert!(arena.arena[0].free);
    assert_eq!(arena.arena[0].generation, 0);
}

#[test]
fn free_with_wrong_generation_does_nothing() {
    let mut arena: GenArena<u32> = GenArena::new();
    let a = arena.allocate(1);
    arena.free(&a);
    let b = arena.allocate(2);
    arena.free(&a);
    assert!(!arena.arena[0].free);
    assert_eq!(arena.borrow(&b), Some(&2));
}

#[test]
fn borrow_mut_writes_item() {
    let mut arena: GenArena<u32> = GenArena::new();
    let a = arena.allocate(1);
    *arena.borrow_mut(&a).unwrap() = 5;
    assert_eq!(arena.borrow(&a), Some(&5));
    *a.deref_mut(&mut arena).unwrap() += 1;
    assert_eq!(arena.borrow(&a), Some(&6));
    arena.free(&a);
    assert!(arena.borrow_mut(&a).is_none());
}

#[test]
fn borrow_2_and_many() {
    let mut arena: GenArena<u32> = GenArena::new();
    let a = arena.allocate(1);
    let b = arena.allocate(2);
    let c = arena.allocate(3);
    assert_eq!(arena.borrow_2(&a, &c), Some((&1, &3)));
    let refs = vec![c, a, b, a];
    assert_eq!(arena.borrow_many(&refs), Some(vec![&3, &1, &2, &1]));
    arena.free(&b);
    assert_eq!(arena.borrow_2(&a, &b), None);
    assert_eq!(arena.borrow_many(&refs), None);
    let none: Vec<GenRef<u32>> = vec![];
    assert_eq!(arena.borrow_many(&none), Some(vec![]));
}

#[test]
fn default_handle_reaches_nothing() {
    let mut arena: GenArena<u32> = GenArena::new();
    let _ = arena.allocate(1);
    let d: GenRef<u32> = GenRef::default();
    assert_eq!(arena.borrow(&d), None);
    assert!(d == GenRef::default());
}

#[test]
fn handle_out_of_range_reaches_nothing() {
    let mut big: GenArena<u32> = GenArena::new();
    let _ = big.allocate(1);
    let far = big.allocate(2);
    let small: GenArena<u32> = GenArena::new();
    assert_eq!(small.borrow(&far), None);
}

#[test]
fn change_arenas_moves_a_clone() {
    let mut from: GenArena<String> = GenArena::new();
    let mut to: GenArena<String> = GenArena::new();
    let _ = to.allocate("x".to_string());
    let mut r = from.allocate("hello".to_string());
    let orig = r;
    r.change_arenas(&from, &mut to);
    assert_eq!(to.borrow(&r).map(|s| s.as_str()), Some("hello"));
    assert_eq!(from.borrow(&orig).map(|s| s.as_str()), Some("hello"));
    assert_eq!(to.arena.len(), 2);

    let mut stale = orig;
    from.free(&orig);
    stale.change_arenas(&from, &mut to);
    assert!(stale == GenRef::default());
    assert_eq!(to.arena.len(), 2);
}

#[test]
fn borrow_2_mut_writes_both_items() {
    let mut arena: GenArena<u32> = GenArena::new();
    let a = arena.allocate(1);
    let b = arena.allocate(2);
    {
        let (x, y) = arena.borrow_2_mut(&b, &a).unwrap();
        assert_eq!((*x, *y), (2, 1));
        *x = 20;
        *y = 10;
    }
    assert_eq!(arena.borrow(&a), Some(&10));
    assert_eq!(arena.borrow(&b), Some(&20));
    arena.free(&a);
    assert!(arena.borrow_2_mut(&a, &b).is_none());
}

#[test]
fn change_arenas_handle_reaches_clone_in_target() {
    let mut from: GenArena<u32> = GenArena::new();
    let mut to: GenArena<u32> = GenArena::new();
    let a = to.allocate(1);
    to.free(&a);
    let mut r = from.allocate(7);
    r.change_arenas(&from, &mut to);
    assert_eq!(to.borrow(&r), Some(&7));
    assert_eq!(to.borrow(&a), None);
    assert_eq!(to.arena[0].generation, 1);
}

#[test]
fn borrow_many_mut_writes_every_item() {
    let mut arena: GenArena<u32> = GenArena::new();
    let a = arena.allocate(1);
    let b = arena.allocate(2);
    let c = arena.allocate(3);
    let refs = vec![c, a];
    {
        let items = arena.borrow_many_mut(&refs).unwrap();
        assert_eq!(items.len(), 2);
        let mut it = items.into_iter();
        let x = it.next().unwrap();
        let y = it.next().unwrap();
        assert_eq!((*x, *y), (3, 1));
        *x = 30;
        *y = 10;
    }
    assert_eq!(arena.borrow(&a), Some(&10));
    assert_eq!(arena.borrow(&b), Some(&2));
    assert_eq!(arena.borrow(&c), Some(&30));
    arena.free(&b);
    let refs2 = vec![a, b];
    assert!(arena.borrow_many_mut(&refs2).is_none());
    let none: Vec<GenRef<u32>> = vec![];
    assert_eq!(arena.borrow_many_mut(&none).map(|v| v.len()), Some(0));
}
