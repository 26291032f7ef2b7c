use bfront::sema::symbol_table::{Interner, SymbolId, SymbolTable};

#[test]
fn interning_numbers_the_names_in_order() {
    let mut interner = Interner::new();
    assert_eq!(interner.intern("main"), SymbolId(0));
    assert_eq!(interner.intern("x"), SymbolId(1));
    assert_eq!(interner.intern("y"), SymbolId(2));
}

#[test]
fn a_name_keeps_its_number() {
    let mut interner = Interner::new();
    let first = interner.intern("x");
    let other = interner.intern("y");
    assert_ne!(first, other);
    assert_eq!(interner.intern("x"), first);
    assert_eq!(interner.intern("y"), other);
    assert_eq!(interner.intern("z"), SymbolId(2));
}

#[test]
fn resolve_gives_the_name_back() {
    let mut interner = Interner::new();
    let a = interner.intern("alpha");
    let b = interner.intern("");
    assert_eq!(interner.resolve(a), "alpha");
    assert_eq!(interner.resolve(b), "");
}

#[test]
fn id_of_does_not_intern() {
    let mut interner = Interner::new();
    assert_eq!(interner.id_of("x"), None);
    let id = interner.intern("x");
    assert_eq!(interner.id_of("x"), Some(id));
    assert_eq!(interner.id_of("y"), None);
    assert_eq!(interner.intern("y"), SymbolId(1));
}

#[test]
fn a_new_table_knows_no_name() {
    let table = SymbolTable::new();
    assert_eq!(table.interner.id_of("x"), None);
    assert!(table.global.symbols.is_empty());
}

#[test]
fn len_counts_the_names() {
    let mut interner = Interner::new();
    assert!(interner.is_empty());
    assert_eq!(interner.len(), 0);
    interner.intern("a");
    interner.intern("b");
    interner.intern("a");
    assert!(!interner.is_empty());
    assert_eq!(interner.len(), 2);
}
