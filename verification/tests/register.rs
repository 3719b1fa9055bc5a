use register_machine::error::ErrorKind;
use register_machine::register::{Register, RegisterBank};
use register_machine::table::NameTable;

#[test]
fn register_write_replaces_the_value() {
    let mut register = Register { value: 3 };
    register.write(9);
    assert_eq!(register.value, 9);
    register.write(0);
    assert_eq!(register, Register { value: 0 });
}

#[test]
fn new_bank_holds_the_accumulator_at_zero() {
    let bank = RegisterBank::new();
    assert_eq!(bank.len(), 1);
    assert_eq!(bank.read("acc"), Ok(0));
    assert_eq!(bank.entry(0), (String::from("acc"), 0));
}

#[test]
fn reading_an_unwritten_register_fails() {
    let bank = RegisterBank::new();
    assert_eq!(bank.read("x1"), Err(ErrorKind::UndefinedRegister));
    assert_eq!(bank.read(""), Err(ErrorKind::UndefinedRegister));
    assert_eq!(bank.read("ACC"), Err(ErrorKind::UndefinedRegister));
}

#[test]
fn write_then_read_gives_the_value() {
    let mut bank = RegisterBank::new();
    bank.write("x1", 5);
    assert_eq!(bank.read("x1"), Ok(5));
    assert_eq!(bank.read("acc"), Ok(0));
    assert_eq!(bank.len(), 2);
}

#[test]
fn write_overwrites_and_leaves_the_rest() {
    let mut bank = RegisterBank::new();
    bank.write("x1", 5);
    bank.write("x2", 6);
    bank.write("x1", 7);
    bank.write("acc", u64::MAX);
    assert_eq!(bank.len(), 3);
    assert_eq!(bank.read("x1"), Ok(7));
    assert_eq!(bank.read("x2"), Ok(6));
    assert_eq!(bank.read("acc"), Ok(u64::MAX));
}

#[test]
fn entries_come_in_the_order_of_first_writing() {
    let mut bank = RegisterBank::new();
    bank.write("x2", 2);
    bank.write("x1", 1);
    bank.write("x2", 22);
    let entries: Vec<(String, u64)> = (0..bank.len()).map(|i| bank.entry(i)).collect();
    assert_eq!(
        entries,
        vec![
            (String::from("acc"), 0),
            (String::from("x2"), 22),
            (String::from("x1"), 1)
        ]
    );
}

#[test]
fn name_table_keeps_each_name_once() {
    let mut table: NameTable<usize> = NameTable::new();
    assert_eq!(table.len(), 0);
    assert_eq!(table.get("a"), None);
    table.insert("a", 1);
    table.insert("b", 2);
    table.insert("a", 3);
    assert_eq!(table.len(), 2);
    assert_eq!(table.get("a"), Some(3));
    assert_eq!(table.get("b"), Some(2));
    assert_eq!(table.get("c"), None);
    assert_eq!(table.entry(0), (String::from("a"), 3));
    assert_eq!(table.entry(1), (String::from("b"), 2));
}
