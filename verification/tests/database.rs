//! Tests of the database of one board and of the stored values.

use databoard::{Database, Entry, EntryData, Error, Hierarchy, Opaque, Storable, Value};

#[test]
fn create_read_update_delete() {
    let mut db = Database::default();
    assert!(!db.contains_key("k"));
    assert_eq!(db.contains::<i32>("k").unwrap(), false);
    db.create("k", 1i32).unwrap();
    assert!(db.contains_key("k"));
    assert_eq!(db.contains::<i32>("k").unwrap(), true);
    assert_eq!(db.read::<i32>("k").unwrap(), 1);
    assert_eq!(db.sequence_id("k").unwrap(), 1);
    assert_eq!(db.update("k", 2i32).unwrap(), 1);
    assert_eq!(db.read::<i32>("k").unwrap(), 2);
    assert_eq!(db.sequence_id("k").unwrap(), 2);
    assert!(db.contains::<i32>("k").unwrap());
    assert_eq!(db.entry("k").unwrap().sequence_id(), 2);
    assert_eq!(db.delete::<i32>("k").unwrap(), 2);
    assert!(!db.contains_key("k"));
    assert_eq!(db.len(), 0);
}

#[test]
fn database_errors() {
    let mut db = Database::default();
    db.create("k", 1i32).unwrap();
    match db.create("k", 2i32) {
        Err(Error::AlreadyExists { key }) => assert_eq!(key, "k"),
        other => panic!("unexpected: {:?}", other),
    }
    match db.contains::<String>("k") {
        Err(Error::WrongType { key }) => assert_eq!(key, "k"),
        other => panic!("unexpected: {:?}", other),
    }
    match db.read::<String>("k") {
        Err(Error::WrongType { key }) => assert_eq!(key, "k"),
        other => panic!("unexpected: {:?}", other),
    }
    match db.update("k", "text".to_string()) {
        Err(Error::WrongType { key }) => assert_eq!(key, "k"),
        other => panic!("unexpected: {:?}", other),
    }
    match db.delete::<u32>("k") {
        Err(Error::WrongType { key }) => assert_eq!(key, "k"),
        other => panic!("unexpected: {:?}", other),
    }
    // what failed changed nothing
    assert_eq!(db.read::<i32>("k").unwrap(), 1);
    assert_eq!(db.sequence_id("k").unwrap(), 1);
    match db.read::<i32>("none") {
        Err(Error::NotFound { key }) => assert_eq!(key, "none"),
        other => panic!("unexpected: {:?}", other),
    }
    match db.update("none", 1i32) {
        Err(Error::NotFound { key }) => assert_eq!(key, "none"),
        other => panic!("unexpected: {:?}", other),
    }
    match db.delete::<i32>("none") {
        Err(Error::NotFound { key }) => assert_eq!(key, "none"),
        other => panic!("unexpected: {:?}", other),
    }
    match db.sequence_id("none") {
        Err(Error::NotFound { key }) => assert_eq!(key, "none"),
        other => panic!("unexpected: {:?}", other),
    }
    match db.entry("none") {
        Err(Error::NotFound { key }) => assert_eq!(key, "none"),
        other => panic!("unexpected: {:?}", other),
    }
}

#[test]
fn keys_are_kept_in_order() {
    let mut db = Database::default();
    for key in ["m", "b", "z", "", "ma", "a", "B", "é"] {
        db.create(key, key.len() as u64).unwrap();
    }
    let mut keys = Vec::new();
    for i in 0..db.len() {
        keys.push(db.at(i).0.to_string());
    }
    assert_eq!(keys, vec!["", "B", "a", "b", "m", "ma", "z", "é"]);
    let mut sorted = keys.clone();
    sorted.sort();
    assert_eq!(keys, sorted);
    db.delete::<u64>("m").unwrap();
    assert_eq!(db.at(4).0, "ma");
    assert_eq!(db.at(4).1.read::<u64>(), Some(2));
    assert_eq!(db.debug_string(), "Entries { [(key: , sequence_id: 1, value: Any { .. }), (key: B, sequence_id: 1, value: Any { .. }), (key: a, sequence_id: 1, value: Any { .. }), (key: b, sequence_id: 1, value: Any { .. }), (key: ma, sequence_id: 1, value: Any { .. }), (key: z, sequence_id: 1, value: Any { .. }), (key: é, sequence_id: 1, value: Any { .. })] }");
}

#[test]
fn entry_data() {
    let data = EntryData::new(7u32);
    assert_eq!(data.sequence_id(), 1);
    assert!(matches!(data.data(), Value::U32(7)));
    let mut entry = Entry::new(true);
    assert_eq!(entry.update(false), Some(true));
    assert_eq!(entry.update(1i32), None);
    assert_eq!(entry.sequence_id(), 2);
    assert_eq!(entry.read::<bool>(), Some(false));
    assert_eq!(entry.into_inner::<bool>().unwrap(), false);
    let entry = Entry::new(1i32);
    assert!(entry.into_inner::<bool>().is_err());
}

#[test]
fn every_stored_type_comes_back_as_itself_only() {
    let mut boards = Hierarchy::new();
    let board = boards.first();
    boards.set(board, "bool", true).unwrap();
    boards.set(board, "i32", -5i32).unwrap();
    boards.set(board, "i64", -6i64).unwrap();
    boards.set(board, "u32", 7u32).unwrap();
    boards.set(board, "u64", 8u64).unwrap();
    boards.set(board, "text", "words".to_string()).unwrap();
    boards
        .set(board, "opaque", Opaque::<99> { content: vec![1, 2, 3] })
        .unwrap();
    assert_eq!(boards.get::<bool>(board, "bool").unwrap(), true);
    assert_eq!(boards.get::<i32>(board, "i32").unwrap(), -5);
    assert_eq!(boards.get::<i64>(board, "i64").unwrap(), -6);
    assert_eq!(boards.get::<u32>(board, "u32").unwrap(), 7);
    assert_eq!(boards.get::<u64>(board, "u64").unwrap(), 8);
    assert_eq!(boards.get::<String>(board, "text").unwrap(), "words");
    let opaque = boards.get::<Opaque<99>>(board, "opaque").unwrap();
    assert_eq!(opaque.content, vec![1, 2, 3]);
    // bytes of one token are no bytes of another
    assert!(matches!(boards.get::<Opaque<98>>(board, "opaque"), Err(Error::WrongType { .. })));
    assert!(matches!(
        boards.set(board, "opaque", Opaque::<98> { content: vec![] }),
        Err(Error::WrongType { .. })
    ));
    assert!(matches!(boards.delete::<Opaque<98>>(board, "opaque"), Err(Error::WrongType { .. })));
    assert_eq!(boards.sequence_id(board, "opaque").unwrap(), 1);
    assert_eq!(
        boards.set(board, "opaque", Opaque::<99> { content: vec![4] }).unwrap().unwrap().content,
        vec![1, 2, 3]
    );
    for key in ["i32", "i64", "u32", "u64", "text", "opaque"] {
        assert!(matches!(boards.get::<bool>(board, key), Err(Error::WrongType { .. })));
    }
    for key in ["bool", "i64", "u32", "u64", "text", "opaque"] {
        assert!(matches!(boards.get::<i32>(board, key), Err(Error::WrongType { .. })));
    }
    for key in ["bool", "i32", "u32", "u64", "text", "opaque"] {
        assert!(matches!(boards.get::<i64>(board, key), Err(Error::WrongType { .. })));
    }
    for key in ["bool", "i32", "i64", "u64", "text", "opaque"] {
        assert!(matches!(boards.get::<u32>(board, key), Err(Error::WrongType { .. })));
    }
    for key in ["bool", "i32", "i64", "u32", "text", "opaque"] {
        assert!(matches!(boards.get::<u64>(board, key), Err(Error::WrongType { .. })));
    }
    for key in ["bool", "i32", "i64", "u32", "u64", "opaque"] {
        assert!(matches!(boards.get::<String>(board, key), Err(Error::WrongType { .. })));
    }
    for key in ["bool", "i32", "i64", "u32", "u64", "text"] {
        assert!(matches!(boards.get::<Opaque<99>>(board, key), Err(Error::WrongType { .. })));
    }
}

#[test]
fn small_numbers_and_characters() {
    let mut boards = Hierarchy::new();
    let board = boards.first();
    boards.set(board, "i8", -1i8).unwrap();
    boards.set(board, "i16", -2i16).unwrap();
    boards.set(board, "u8", 3u8).unwrap();
    boards.set(board, "u16", 4u16).unwrap();
    boards.set(board, "usize", 5usize).unwrap();
    boards.set(board, "isize", -6isize).unwrap();
    boards.set(board, "char", 'x').unwrap();
    assert_eq!(boards.get::<i8>(board, "i8").unwrap(), -1);
    assert_eq!(boards.get::<i16>(board, "i16").unwrap(), -2);
    assert_eq!(boards.get::<u8>(board, "u8").unwrap(), 3);
    assert_eq!(boards.get::<u16>(board, "u16").unwrap(), 4);
    assert_eq!(boards.get::<usize>(board, "usize").unwrap(), 5);
    assert_eq!(boards.get::<isize>(board, "isize").unwrap(), -6);
    assert_eq!(boards.get::<char>(board, "char").unwrap(), 'x');
    let keys = ["i8", "i16", "u8", "u16", "usize", "isize", "char"];
    for key in keys {
        let fits = [
            boards.contains::<i8>(board, key).is_ok(),
            boards.contains::<i16>(board, key).is_ok(),
            boards.contains::<u8>(board, key).is_ok(),
            boards.contains::<u16>(board, key).is_ok(),
            boards.contains::<usize>(board, key).is_ok(),
            boards.contains::<isize>(board, key).is_ok(),
            boards.contains::<char>(board, key).is_ok(),
            boards.contains::<i32>(board, key).is_ok(),
            boards.contains::<u64>(board, key).is_ok(),
        ];
        assert_eq!(fits.iter().filter(|fit| **fit).count(), 1);
        assert!(fits[keys.iter().position(|k| *k == key).unwrap()]);
    }
    assert_eq!(boards.set(board, "u8", 200u8).unwrap(), Some(3));
    assert!(matches!(u8::from_value(&Value::U16(1)), None));
    assert!(matches!('a'.into_value(), Value::Char('a')));
    assert!(usize::accepts(&Value::Usize(0)));
    assert!(!usize::accepts(&Value::U64(0)));
}

#[test]
fn values_by_hand() {
    assert!(matches!(5i32.into_value(), Value::I32(5)));
    assert_eq!(i32::from_value(&Value::I32(5)), Some(5));
    assert_eq!(i32::from_value(&Value::I64(5)), None);
    assert_eq!(String::from_value(&Value::Text("a".to_string())), Some("a".to_string()));
    assert_eq!(bool::from_value(&Value::Text("true".to_string())), None);
}

#[test]
fn sequence_id_moves_by_one_per_change_only() {
    let mut boards = Hierarchy::new();
    let board = boards.first();
    boards.set(board, "k", 1i32).unwrap();
    assert_eq!(boards.sequence_id(board, "k").unwrap(), 1);
    // reading, asking and failing change nothing
    let _ = boards.get::<i32>(board, "k");
    let _ = boards.get::<String>(board, "k");
    let _ = boards.contains::<i32>(board, "k");
    let _ = boards.contains_key(board, "k");
    let _ = boards.set(board, "k", "text".to_string());
    let _ = boards.delete::<String>(board, "k");
    let _ = boards.entry(board, "k");
    assert_eq!(boards.sequence_id(board, "k").unwrap(), 1);
    for i in 2..10usize {
        boards.set(board, "k", i as i32).unwrap();
        assert_eq!(boards.sequence_id(board, "k").unwrap(), i);
    }
    // a new entry under the same key starts at 1 again
    boards.delete::<i32>(board, "k").unwrap();
    boards.set(board, "k", 1i32).unwrap();
    assert_eq!(boards.sequence_id(board, "k").unwrap(), 1);
}

#[test]
fn calls_on_a_database_that_would_wait_fail_with_is_locked() {
    fn is_locked<T: std::fmt::Debug>(r: Result<T, Error>) {
        match r {
            Err(Error::IsLocked { key }) => assert_eq!(key, "k"),
            other => panic!("unexpected: {:?}", other),
        }
    }
    let mut db = Database::default();
    db.create("k", 1i32).unwrap();
    assert_eq!(db.try_update("k", 2i32).unwrap(), 1);
    assert_eq!(db.try_read::<i32>("k").unwrap(), 2);
    assert_eq!(db.try_sequence_id("k").unwrap(), 2);
    assert_eq!(db.try_contains::<i32>("k").unwrap(), true);
    let reader = db.try_get_ref::<i32>("k").unwrap();
    is_locked(db.try_update("k", 3i32));
    is_locked(db.try_delete::<i32>("k"));
    assert_eq!(db.try_read::<i32>("k").unwrap(), 2);
    assert_eq!(db.try_sequence_id("k").unwrap(), 2);
    assert_eq!(db.try_contains::<i32>("k").unwrap(), true);
    db.release_ref(reader);
    let writer = db.try_get_mut_ref::<i32>("k").unwrap();
    is_locked(db.try_update("k", 3i32));
    is_locked(db.try_delete::<i32>("k"));
    is_locked(db.try_read::<i32>("k"));
    is_locked(db.try_sequence_id("k"));
    is_locked(db.try_contains::<i32>("k"));
    db.release_mut(writer);
    assert_eq!(db.try_sequence_id("k").unwrap(), 2);
    assert!(matches!(db.try_update("k", 1u8), Err(Error::WrongType { .. })));
    assert!(matches!(db.try_update("none", 1i32), Err(Error::NotFound { .. })));
    assert!(matches!(db.try_read::<i32>("none"), Err(Error::NotFound { .. })));
    assert_eq!(db.try_contains::<i32>("none").unwrap(), false);
    assert_eq!(db.try_delete::<i32>("k").unwrap(), 2);
    assert!(matches!(db.try_delete::<i32>("k"), Err(Error::NotFound { .. })));
}
