use smis_assembler::symbols::SymbolTable;

#[test]
fn empty_table_finds_nothing() {
    let t = SymbolTable::new();
    assert_eq!(t.len(), 0);
    assert_eq!(t.find_address("loop"), None);
}

#[test]
fn added_label_is_found() {
    let mut t = SymbolTable::new();
    t.add_label("loop", 4);
    assert_eq!(t.find_address("loop"), Some(4));
    assert_eq!(t.len(), 1);
}

#[test]
fn adding_leaves_other_labels() {
    let mut t = SymbolTable::new();
    t.add_label("start", 0);
    t.add_label("end", 10);
    assert_eq!(t.find_address("start"), Some(0));
    assert_eq!(t.find_address("end"), Some(10));
    assert_eq!(t.find_address("middle"), None);
    assert_eq!(t.find_address("star"), None);
}

#[test]
fn later_label_wins() {
    let mut t = SymbolTable::new();
    t.add_label("x", 2);
    t.add_label("x", 8);
    assert_eq!(t.find_address("x"), Some(8));
}

#[test]
fn labels_by_characters() {
    let mut t = SymbolTable::new();
    t.add_label_chars(vec!['a', 'b'], 6);
    assert_eq!(t.find_address_chars(&vec!['a', 'b']), Some(6));
    assert_eq!(t.find_address("ab"), Some(6));
    assert_eq!(t.find_address_chars(&vec!['a']), None);
}
