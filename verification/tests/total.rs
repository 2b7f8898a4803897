//! Tests of the calls that answer in every state of a hierarchy.

use databoard::{Databoard, Entry, Error, Hierarchy, Opaque, Remappings, Storable, Value};

fn is_locked<T: std::fmt::Debug>(r: Result<T, Error>, k: &str) {
    match r {
        Err(Error::IsLocked { key }) => assert_eq!(key, k),
        other => panic!("unexpected: {:?}", other),
    }
}

fn not_found<T: std::fmt::Debug>(r: Result<T, Error>, k: &str) {
    match r {
        Err(Error::NotFound { key }) => assert_eq!(key, k),
        other => panic!("unexpected: {:?}", other),
    }
}

#[test]
fn calls_that_would_wait_fail_with_is_locked() {
    let mut boards = Hierarchy::new();
    let root = boards.first();
    let mut rules = Remappings::default();
    rules.add("mine", "{k}").unwrap();
    let child = boards.with(Some(root), Some(rules), false).unwrap();
    boards.try_set(root, "k", 1i32).unwrap();

    let writer = boards.try_get_mut_ref::<i32>(root, "k").unwrap();
    is_locked(boards.try_get::<i32>(child, "mine"), "k");
    is_locked(boards.try_contains::<i32>(child, "mine"), "k");
    is_locked(boards.try_sequence_id(child, "mine"), "k");
    is_locked(boards.try_set(child, "mine", 2i32), "k");
    is_locked(boards.try_delete::<i32>(child, "mine"), "k");
    assert!(boards.try_entry(child, "mine").unwrap().is_write_locked());
    boards.release_mut(writer);
    assert_eq!(boards.try_get::<i32>(child, "mine").unwrap(), 1);
    assert_eq!(boards.try_sequence_id(child, "mine").unwrap(), 1);

    let reader = boards.try_get_ref::<i32>(child, "mine").unwrap();
    // a reader lets readers in and keeps writers out
    assert_eq!(boards.try_get::<i32>(root, "k").unwrap(), 1);
    assert_eq!(boards.try_contains::<i32>(root, "k").unwrap(), true);
    assert_eq!(boards.try_sequence_id(root, "k").unwrap(), 1);
    assert_eq!(boards.try_entry(root, "k").unwrap().reader_count(), 1);
    is_locked(boards.try_set(root, "k", 2i32), "k");
    is_locked(boards.try_delete::<i32>(root, "k"), "k");
    boards.release_ref(reader);
    assert_eq!(boards.try_set(root, "k", 2i32).unwrap(), Some(1));
    assert_eq!(boards.try_delete::<i32>(root, "k").unwrap(), 2);
    not_found(boards.try_get::<i32>(child, "mine"), "k");
    not_found(boards.try_entry(child, "mine"), "k");
    assert_eq!(boards.try_contains::<i32>(child, "mine").unwrap(), false);
}

#[test]
fn a_board_that_is_not_there() {
    let mut large = Hierarchy::new();
    let far = large.with_parent(large.first());
    let mut small = Hierarchy::new();
    assert!(large.holds(far));
    assert!(!small.holds(far));
    not_found(small.try_get::<i32>(far, "k"), "k");
    not_found(small.try_set(far, "@k", 1i32), "@k");
    not_found(small.try_delete::<i32>(far, "k"), "k");
    not_found(small.try_sequence_id(far, "k"), "k");
    not_found(small.try_entry(far, "k"), "k");
    not_found(small.try_get_ref::<i32>(far, "k"), "k");
    not_found(small.try_get_mut_ref::<i32>(far, "k"), "k");
    assert_eq!(small.try_contains::<i32>(far, "k").unwrap(), false);
    match small.with(Some(far), None, true) {
        Err(Error::NoParent { key, remapped }) => {
            assert_eq!(key, "");
            assert_eq!(remapped, "");
        }
        other => panic!("unexpected: {:?}", other),
    }
    assert_eq!(small.len(), 1);
    assert_eq!(small.database(small.first()).len(), 0);
}

#[test]
fn a_guard_that_does_not_fit_comes_back() {
    let mut boards = Hierarchy::new();
    let mut others = Hierarchy::new();
    let board = boards.first();
    boards.set(board, "k", 1i32).unwrap();
    others.set(board, "other", 1i32).unwrap();
    let writer = boards.try_get_mut_ref::<i32>(board, "k").unwrap();
    // no entry of that key there
    let writer = others.try_release_mut(writer).unwrap_err();
    others.set(board, "k", "text".to_string()).unwrap();
    // an entry without a writer
    let writer = others.try_release_mut(writer).unwrap_err();
    let theirs = others.try_get_mut_ref::<String>(board, "k").unwrap();
    // an entry of another type
    let writer = others.try_release_mut(writer).unwrap_err();
    others.try_release_mut(theirs).unwrap();
    boards.try_release_mut(writer).unwrap();
    let reader = boards.try_get_ref::<i32>(board, "k").unwrap();
    let reader = others.try_release_ref(reader).unwrap_err();
    boards.try_release_ref(reader).unwrap();
    assert!(!boards.entry(board, "k").unwrap().is_locked());
    assert_eq!(others.get::<String>(board, "k").unwrap(), "text");
    assert_eq!(others.sequence_id(board, "k").unwrap(), 1);
}

#[test]
fn a_hierarchy_without_boards() {
    let mut boards = Hierarchy::empty();
    assert_eq!(boards.len(), 0);
    let first = boards.with(None, None, true).unwrap();
    assert_eq!(first.position(), 0);
    assert!(boards.autoremap(first));
    assert!(boards.parent(first).is_none());
    assert_eq!(boards.root(first).position(), 0);
    assert_eq!(boards.set(first, "k", 1i32).unwrap(), None);
}

#[test]
fn copies() {
    let mut rules = Remappings::default();
    rules.add("a", "{b}").unwrap();
    rules.add("c", "d").unwrap();
    let copy = rules.duplicate();
    rules.overwrite("a", "changed");
    assert_eq!(copy.len(), 2);
    assert_eq!(copy.rule(0), ("a", "{b}"));
    assert_eq!(copy.rule(1), ("c", "d"));

    let mut entry = Entry::new("text".to_string());
    entry.update("more".to_string());
    let copy = entry.duplicate();
    assert_eq!(copy.sequence_id(), 2);
    assert_eq!(copy.read::<String>().unwrap(), "more");
    assert_eq!(copy.content().duplicate().sequence_id(), 2);

    let value = Opaque::<7> { content: vec![1, 2] }.into_value();
    match value.duplicate() {
        Value::Opaque { type_token, content } => {
            assert_eq!(type_token, 7);
            assert_eq!(content, vec![1, 2]);
        }
        other => panic!("unexpected: {:?}", other),
    }
    assert!(i32::accepts(&Value::I32(1)));
    assert!(!i32::accepts(&Value::U32(1)));
    assert!(String::accepts(&Value::Text(String::new())));
    assert!(Opaque::<7>::accepts(&value));
    assert!(!Opaque::<8>::accepts(&value));
    assert_eq!(Opaque::<7>::from_value(&value).unwrap().duplicate().content, vec![1, 2]);
    assert!(!bool::accepts(&value));
}

#[test]
fn entry_and_rules_of_a_shared_board() {
    let root = Databoard::new();
    assert!(root.remappings().is_none());
    let mut rules = Remappings::default();
    rules.add("mine", "{k}").unwrap();
    let child = Databoard::with(Some(root.clone()), Some(rules), false).unwrap();
    let rules = child.remappings().unwrap();
    assert_eq!(rules.rule(0), ("mine", "{k}"));
    not_found(child.entry("mine"), "k");
    root.set("k", 5i32).unwrap();
    root.set("k", 6i32).unwrap();
    let entry = child.entry("mine").unwrap();
    assert_eq!(entry.sequence_id(), 2);
    assert_eq!(entry.read::<i32>(), Some(6));
    assert!(!entry.is_locked());
    let guard = child.try_get_mut_ref::<i32>("mine").unwrap();
    assert!(root.entry("k").unwrap().is_write_locked());
    child.release_mut(guard).unwrap();
    assert!(!root.entry("k").unwrap().is_locked());
}

#[test]
fn text_of_a_board_that_is_not_there() {
    let mut large = Hierarchy::new();
    let far = large.with_parent(large.first());
    let small = Hierarchy::new();
    assert_eq!(small.try_debug_string(far), "");
    assert_eq!(large.try_debug_string(far), large.debug_string(far));
    assert_eq!(
        small.try_debug_string(small.first()),
        "Databoard { autoremap: false, Entries { [] }, Remappings { [] }, parent: None }"
    );
}

#[test]
fn a_value_that_cannot_be_stored_now_comes_back() {
    let mut boards = Hierarchy::new();
    let board = boards.first();
    assert!(!boards.is_held(board, "k"));
    assert_eq!(boards.try_store(board, "k", "one".to_string()).unwrap().unwrap(), None);
    let reader = boards.try_get_ref::<String>(board, "k").unwrap();
    assert!(boards.is_held(board, "k"));
    assert!(boards.is_held(board, "@k"));
    assert!(!boards.is_held(board, "other"));
    let back = boards.try_store(board, "k", "two".to_string()).unwrap_err();
    assert_eq!(back, "two");
    assert_eq!(boards.sequence_id(board, "k").unwrap(), 1);
    boards.release_ref(reader);
    let old = boards.try_store(board, "k", back).unwrap().unwrap();
    assert_eq!(old, Some("one".to_string()));
    assert_eq!(boards.get::<String>(board, "k").unwrap(), "two");
    assert!(matches!(boards.try_store(board, "k", 1i32).unwrap(), Err(Error::WrongType { .. })));

    let shared = Databoard::new();
    assert_eq!(shared.try_store("k", 1u8).unwrap().unwrap(), None);
    let writer = shared.try_get_mut_ref::<u8>("k").unwrap();
    assert_eq!(shared.try_store("k", 2u8).unwrap_err(), 2);
    shared.release_mut(writer).unwrap();
    assert_eq!(shared.try_store("k", 2u8).unwrap().unwrap(), Some(1));
}
