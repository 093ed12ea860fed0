use kona_diagnostic::typed_arena::TypedArena;

#[test]
fn values_stay_in_place() {
    let mut arena: TypedArena<u64> = TypedArena::new();
    let mut refs = Vec::new();
    for i in 0..1000u64 {
        refs.push(arena.allocate(i * 3));
    }
    for (i, r) in refs.iter().enumerate() {
        assert_eq!(*arena.get(*r), i as u64 * 3);
    }
}

#[test]
fn slices_are_contiguous() {
    let mut arena: TypedArena<String> = TypedArena::new();
    let first = arena.allocate("a".to_string());
    let s = arena.alloc_slice(vec!["b".to_string(), "c".to_string(), "d".to_string()]);
    assert_eq!(s.len, 3);
    assert_eq!(arena.get(first), "a");
    let big = arena.alloc_slice((0..5000).map(|i| i.to_string()).collect());
    assert_eq!(big.len, 5000);
    assert_eq!(arena.get(first), "a");
}

#[test]
fn zero_sized_values() {
    let mut arena: TypedArena<()> = TypedArena::new();
    let r = arena.allocate(());
    assert_eq!(*arena.get(r), ());
}

#[test]
fn slots_are_fresh() {
    let mut arena: TypedArena<u8> = TypedArena::new();
    let a = arena.allocate(7);
    let b = arena.allocate(7);
    assert_ne!((a.chunk, a.index), (b.chunk, b.index));
    let s = arena.alloc_slice(vec![7, 7]);
    assert!(s.chunk != b.chunk || s.start > b.index);
}
