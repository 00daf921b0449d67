use language::Interner;

#[test]
fn resolve_gives_back_the_interned_string() {
    let mut interner = Interner::default();
    let foo = interner.intern("foo");
    let bar = interner.intern("bar");
    assert_eq!(interner.resolve(foo), "foo");
    assert_eq!(interner.resolve(bar), "bar");
}

#[test]
fn interning_twice_gives_the_same_symbol() {
    let mut interner = Interner::default();
    let a = interner.intern("λx");
    let b = interner.intern("y");
    let c = interner.intern("λx");
    assert_eq!(a, c);
    assert_ne!(a, b);
    assert_eq!(interner.resolve(c), "λx");
}

#[test]
fn empty_string_is_a_symbol_too() {
    let mut interner = Interner::default();
    let empty = interner.intern("");
    let other = interner.intern("x");
    assert_ne!(empty, other);
    assert_eq!(interner.resolve(empty), "");
}

#[test]
fn symbols_keep_their_strings_after_more_interning() {
    let mut interner = Interner::default();
    let first = interner.intern("first");
    for word in ["a", "b", "c", "first", "d"] {
        interner.intern(word);
    }
    assert_eq!(interner.resolve(first), "first");
    assert_eq!(interner.intern("first"), first);
}
