use defunct::memory::Heap;
use defunct::values::symbols::{Symbol, SymbolTable};
use defunct::values::Val;

#[test]
fn symbols_compare_by_value_not_identity() {
    let first = "HELLO";
    let second = String::from("hello").to_uppercase();
    let third = String::from("Nope");
    let mut heap = Heap::new();
    let mut table = SymbolTable::new();

    let first_symbol = table.intern(first, &mut heap).unwrap();
    let second_symbol = table.intern(&second, &mut heap).unwrap();
    let third_symbol = table.intern(&third, &mut heap).unwrap();
    assert_eq!(first_symbol, first_symbol);
    assert_eq!(first_symbol, second_symbol);
    assert_ne!(first_symbol, third_symbol);
}

#[test]
fn interning_is_idempotent() {
    let mut heap = Heap::new();
    let mut table = SymbolTable::new();
    let a = table.intern("alpha", &mut heap).unwrap();
    let b = table.intern("beta", &mut heap).unwrap();
    let copy = String::from("alpha");
    assert_eq!(table.intern(&copy, &mut heap), Some(a));
    assert_eq!(table.intern("beta", &mut heap), Some(b));
    assert_eq!(table.len(), 2);
}

#[test]
fn symbol_slots() {
    let mut heap = Heap::new();
    let mut table = SymbolTable::new();
    let x = table.intern("x", &mut heap).unwrap();
    let y = table.intern("y", &mut heap).unwrap();
    assert_eq!(table.get(x), None);
    table.set(x, Val::from_int(7));
    assert_eq!(table.get(x), Some(Val::from_int(7)));
    assert_eq!(table.get(y), None);
    assert_eq!(table.get(Symbol(0)), Some(Val::nil()));
    assert_eq!(table.get(Symbol(0x10)), Some(Val::t()));
    assert_eq!(table.get_name(x).unwrap(), "x");
    assert_eq!(table.get_name(Symbol(0)).unwrap(), "nil");
    assert_eq!(table.get_name(Symbol(0x10)).unwrap(), "t");
    assert_eq!(table.get_name(Symbol(0x1234560)), None);
    assert!(table.has_cell(y));
    assert!(!table.has_cell(Symbol(0x1234560)));
}

#[test]
fn symbol_addresses_are_aligned_heap_addresses() {
    let mut heap = Heap::new();
    let mut table = SymbolTable::new();
    let x = table.intern("x", &mut heap).unwrap();
    assert_eq!(x.addr() % 16, 0);
    assert!(x.addr() >= 0x400_0000);
    assert_eq!(x.as_val().bits(), x.addr());
    assert!(x.as_val().is_ptr());
    assert!(!x.is_nil());
    assert!(!x.is_t());
    assert_eq!(Symbol::nil(), Val::nil());
    assert_eq!(Symbol::t(), Val::t());
}
