use kona_diagnostic::symbol::{Interner, Symbol};

#[test]
fn intern_is_idempotent() {
    let mut interner = Interner::new();
    let a = Symbol::intern(&mut interner, "hello");
    let b = Symbol::intern(&mut interner, "world");
    let c = Symbol::intern(&mut interner, "hello");
    assert_eq!(a, c);
    assert_ne!(a, b);
    assert_eq!(a.as_str(&interner), "hello");
    assert_eq!(b.to_string(&interner), "world");
}

#[test]
fn intern_empty_string() {
    let mut interner = Interner::new();
    let e = interner.intern("");
    assert_eq!(interner.get(e), "");
    assert_eq!(interner.intern(""), e);
}
