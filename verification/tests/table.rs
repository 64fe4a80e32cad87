use price_oracle::table::{same_key, KeyedTable};

#[test]
fn table_starts_empty() {
    let table: KeyedTable<u64> = KeyedTable::new();
    assert!(table.is_empty());
    assert_eq!(table.len(), 0);
    assert!(table.keys().is_empty());
    assert!(table.get("a").is_none());
    assert!(!table.contains_key("a"));
}

#[test]
fn table_insert_get_replace() {
    let mut table: KeyedTable<u64> = KeyedTable::new();
    assert_eq!(table.insert("b".to_string(), 2), None);
    assert_eq!(table.insert("a".to_string(), 1), None);
    assert_eq!(table.insert("b".to_string(), 20), Some(2));
    assert_eq!(table.len(), 2);
    assert_eq!(table.get("a"), Some(&1));
    assert_eq!(table.get("b"), Some(&20));
    assert!(table.contains_key("a"));
    assert!(!table.contains_key("c"));
}

#[test]
fn table_lists_keys_in_ascending_byte_order() {
    let mut table: KeyedTable<u64> = KeyedTable::new();
    for (i, key) in ["b", "", "ab", "a", "B", "\u{e9}", "abc", "z"].iter().enumerate() {
        table.insert(key.to_string(), i as u64);
    }
    assert_eq!(table.keys(), vec!["", "B", "a", "ab", "abc", "b", "z", "\u{e9}"]);
    assert_eq!(table.key_at(0), "");
    assert_eq!(*table.value_at(0), 1);
    assert_eq!(table.key_at(3), "ab");
    assert_eq!(*table.value_at(3), 2);
    assert_eq!(table.key_at(7), "\u{e9}");
    assert_eq!(*table.value_at(7), 5);
}

#[test]
fn table_get_mut_changes_in_place() {
    let mut table: KeyedTable<Vec<u64>> = KeyedTable::new();
    table.insert("k".to_string(), vec![1]);
    table.insert("j".to_string(), vec![9]);
    match table.get_mut("k") {
        Some(value) => value.push(2),
        None => panic!("key is held"),
    }
    assert!(table.get_mut("x").is_none());
    assert_eq!(table.get("k"), Some(&vec![1, 2]));
    assert_eq!(table.get("j"), Some(&vec![9]));
    assert_eq!(table.keys(), vec!["j", "k"]);
}

#[test]
fn table_remove() {
    let mut table: KeyedTable<u64> = KeyedTable::new();
    for (i, key) in ["c", "a", "b"].iter().enumerate() {
        table.insert(key.to_string(), i as u64);
    }
    assert_eq!(table.remove("x"), None);
    assert_eq!(table.remove("a"), Some(1));
    assert_eq!(table.remove("a"), None);
    assert_eq!(table.keys(), vec!["b", "c"]);
    assert_eq!(table.get("b"), Some(&2));
    assert_eq!(table.get("c"), Some(&0));
    assert_eq!(table.remove("c"), Some(0));
    assert_eq!(table.remove("b"), Some(2));
    assert!(table.is_empty());
}

#[test]
fn keys_compare_by_content() {
    assert!(same_key("abc", "abc"));
    assert!(same_key("", ""));
    assert!(!same_key("abc", "abd"));
    assert!(!same_key("abc", "ab"));
    assert!(!same_key("ab", "abc"));
}
