use graphics::mdl::{Interpreter, Kind, LookupError, SymTable, Symbol};
use graphics::RGB;

#[test]
fn gray_sets_all_channels() {
    let c = RGB::gray(200);
    assert_eq!(c.red, 200);
    assert_eq!(c.green, 200);
    assert_eq!(c.blue, 200);
}

#[test]
fn new_keeps_channel_order() {
    let c = RGB::new(1, 2, 3);
    assert_eq!((c.red, c.green, c.blue), (1, 2, 3));
}

#[test]
fn white_and_black() {
    assert_eq!(RGB::white(), RGB::new(255, 255, 255));
    assert_eq!(RGB::black(), RGB::new(0, 0, 0));
    assert_eq!(RGB::black(), RGB::gray(0));
}

#[test]
fn symbol_from_opt() {
    let s = Symbol::from_opt(Some("knob1")).unwrap();
    assert_eq!(s.0, "knob1");
    assert!(Symbol::from_opt(None).is_none());
}

#[test]
fn symtable_insert_get_and_overwrite() {
    let mut t: SymTable<i32> = SymTable::new();
    assert!(t.insert(Symbol(String::from("a")), 1).is_none());
    assert!(t.insert(Symbol(String::from("b")), 2).is_none());
    assert_eq!(t.get(&Symbol(String::from("a"))), Some(&1));
    assert_eq!(t.get(&Symbol(String::from("b"))), Some(&2));
    assert_eq!(t.get(&Symbol(String::from("c"))), None);
    // overwriting hands the old value back and rebinds the name
    assert_eq!(t.insert(Symbol(String::from("a")), 10), Some(1));
    assert_eq!(t.get(&Symbol(String::from("a"))), Some(&10));
    assert_eq!(t.get(&Symbol(String::from("b"))), Some(&2));
}

#[test]
fn symtable_find() {
    let mut t: SymTable<u64> = SymTable::new();
    t.insert(Symbol(String::from("brass")), 7);
    assert!(matches!(t.find(&None), Ok(None)));
    assert!(matches!(t.find(&Some(Symbol(String::from("brass")))), Ok(Some(&7))));
    match t.find(&Some(Symbol(String::from("gold")))) {
        Err(LookupError::SymbolNotFound { name }) => assert_eq!(name, "gold"),
        other => panic!("expected a not-found error, got {:?}", other.is_ok()),
    }
}

#[test]
fn symtable_check_kinds() {
    let mut t: SymTable<Kind> = SymTable::new();
    t.insert(Symbol(String::from("k")), Kind::Knob);
    assert!(t.check(&None, Kind::Const).is_ok());
    assert!(t.check(&Some(Symbol(String::from("k"))), Kind::Knob).is_ok());
    match t.check(&Some(Symbol(String::from("k"))), Kind::Const) {
        Err(LookupError::SymbolTypeMismatch { name, expected, found }) => {
            assert_eq!(name, "k");
            assert_eq!(expected, Kind::Knob);
            assert_eq!(found, Kind::Const);
        }
        _ => panic!("expected a type mismatch"),
    }
    match t.check(&Some(Symbol(String::from("zz"))), Kind::Coord) {
        Err(LookupError::SymbolNotFound { name }) => assert_eq!(name, "zz"),
        _ => panic!("expected a not-found error"),
    }
}

#[test]
fn interpreter_keeps_path() {
    let it = Interpreter::new("scene.mdl");
    assert_eq!(it.filename, "scene.mdl");
}
