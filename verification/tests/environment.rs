use minilang::environment::SymbolTable;
use minilang::value::Value;

#[test]
fn new_table_binds_nothing() {
    let table = SymbolTable::new();
    assert_eq!(table.get("x"), None);
}

#[test]
fn set_then_get() {
    let mut table = SymbolTable::new();
    table.set("x".to_string(), Value::Integer(1));
    table.set("y".to_string(), Value::Boolean(true));
    table.set("x".to_string(), Value::Integer(2));
    assert_eq!(table.get("x"), Some(Value::Integer(2)));
    assert_eq!(table.get("y"), Some(Value::Boolean(true)));
    assert_eq!(table.get("z"), None);
}

#[test]
fn get_walks_out_to_the_root() {
    let mut root = SymbolTable::new();
    root.set("g".to_string(), Value::Integer(1));
    let mut middle = SymbolTable::with_parent(Box::new(root));
    middle.set("m".to_string(), Value::Integer(2));
    let inner = SymbolTable::with_parent(Box::new(middle));
    assert_eq!(inner.get("g"), Some(Value::Integer(1)));
    assert_eq!(inner.get("m"), Some(Value::Integer(2)));
    assert_eq!(inner.get("none"), None);
}

#[test]
fn set_shadows_and_leaves_the_ancestor_as_it_was() {
    let mut root = SymbolTable::new();
    root.set("x".to_string(), Value::Integer(1));
    let mut frame = SymbolTable::with_parent(Box::new(root));
    assert_eq!(frame.get("x"), Some(Value::Integer(1)));
    frame.set("x".to_string(), Value::Integer(99));
    assert_eq!(frame.get("x"), Some(Value::Integer(99)));
    let root = frame.into_parent();
    assert_eq!(root.get("x"), Some(Value::Integer(1)));
}

#[test]
fn into_parent_of_a_root_is_the_root() {
    let mut root = SymbolTable::new();
    root.set("x".to_string(), Value::Integer(1));
    let root = root.into_parent();
    assert_eq!(root.get("x"), Some(Value::Integer(1)));
}
