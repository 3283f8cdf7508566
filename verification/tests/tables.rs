use table_expr::{Table, TableSet};

#[test]
fn new_keeps_name_and_data() {
    let table = Table::new("prices".to_string(), vec![vec![1, 2], vec![3]]);
    assert_eq!(table.name, "prices");
    assert_eq!(table.data, vec![vec![1, 2], vec![3]]);
}

#[test]
fn get_reads_cells() {
    let table = Table::new("t".to_string(), vec![vec![1, 2, 3], vec![4, 5, 6]]);
    assert_eq!(table.get(0, 0), Some(&1));
    assert_eq!(table.get(2, 0), Some(&3));
    assert_eq!(table.get(0, 1), Some(&4));
    assert_eq!(table.get(2, 1), Some(&6));
}

#[test]
fn get_beyond_the_grid_finds_nothing() {
    let table = Table::new("t".to_string(), vec![vec![1, 2, 3]]);
    assert_eq!(table.get(3, 0), None);
    assert_eq!(table.get(0, 1), None);
    assert_eq!(table.get(3, 1), None);
    assert_eq!(table.get(usize::MAX, 0), None);
    assert_eq!(table.get(0, usize::MAX), None);
}

#[test]
fn get_on_an_empty_table_finds_nothing() {
    let table = Table::new("t".to_string(), vec![]);
    assert_eq!(table.get(0, 0), None);
    let table = Table::new("t".to_string(), vec![vec![]]);
    assert_eq!(table.get(0, 0), None);
}

#[test]
fn rows_may_differ_in_length() {
    let table = Table::new("t".to_string(), vec![vec![1], vec![2, 3, 4], vec![]]);
    assert_eq!(table.get(0, 0), Some(&1));
    assert_eq!(table.get(1, 0), None);
    assert_eq!(table.get(2, 1), Some(&4));
    assert_eq!(table.get(0, 2), None);
}

#[test]
fn set_writes_one_cell() {
    let mut table = Table::new("t".to_string(), vec![vec![1, 2, 3], vec![4, 5, 6]]);
    table.set(1, 1, 50);
    assert_eq!(table.data, vec![vec![1, 2, 3], vec![4, 50, 6]]);
    assert_eq!(table.get(1, 1), Some(&50));
    assert_eq!(table.name, "t");
}

#[test]
fn set_beyond_the_grid_is_ignored() {
    let mut table = Table::new("t".to_string(), vec![vec![1, 2, 3], vec![4]]);
    table.set(3, 0, 9);
    table.set(1, 1, 9);
    table.set(0, 2, 9);
    table.set(usize::MAX, usize::MAX, 9);
    assert_eq!(table.data, vec![vec![1, 2, 3], vec![4]]);
}

#[test]
fn empty_set_holds_no_table() {
    let table_set = TableSet::new();
    assert!(table_set.get("t1").is_none());
    assert!(table_set.get("").is_none());
}

#[test]
fn insert_then_get() {
    let mut table_set = TableSet::new();
    let previous = table_set.insert("a".to_string(), Table::new("a".to_string(), vec![vec![1]]));
    assert!(previous.is_none());
    let previous = table_set.insert("b".to_string(), Table::new("b".to_string(), vec![vec![2]]));
    assert!(previous.is_none());
    assert_eq!(table_set.get("a").unwrap().data, vec![vec![1]]);
    assert_eq!(table_set.get("b").unwrap().data, vec![vec![2]]);
    assert!(table_set.get("c").is_none());
}

#[test]
fn insert_under_a_taken_name_replaces() {
    let mut table_set = TableSet::new();
    table_set.insert("a".to_string(), Table::new("first".to_string(), vec![vec![1]]));
    table_set.insert("b".to_string(), Table::new("other".to_string(), vec![vec![7]]));
    let previous = table_set.insert("a".to_string(), Table::new("second".to_string(), vec![vec![2]]));
    let previous = previous.unwrap();
    assert_eq!(previous.name, "first");
    assert_eq!(previous.data, vec![vec![1]]);
    assert_eq!(table_set.get("a").unwrap().name, "second");
    assert_eq!(table_set.get("a").unwrap().data, vec![vec![2]]);
    assert_eq!(table_set.get("b").unwrap().data, vec![vec![7]]);
}

#[test]
fn tables_are_found_by_key_not_by_their_own_name() {
    let mut table_set = TableSet::new();
    table_set.insert("key".to_string(), Table::new("name".to_string(), vec![vec![1]]));
    assert!(table_set.get("key").is_some());
    assert!(table_set.get("name").is_none());
}

#[test]
fn get_mut_changes_the_stored_table_only() {
    let mut table_set = TableSet::new();
    table_set.insert("a".to_string(), Table::new("a".to_string(), vec![vec![1, 2]]));
    table_set.insert("b".to_string(), Table::new("b".to_string(), vec![vec![1, 2]]));
    table_set.get_mut("a").unwrap().set(1, 0, 20);
    assert_eq!(table_set.get("a").unwrap().data, vec![vec![1, 20]]);
    assert_eq!(table_set.get("b").unwrap().data, vec![vec![1, 2]]);
    assert!(table_set.get_mut("c").is_none());
}
