//! Tests of boards that share a hierarchy behind a lock.

use databoard::{Databoard, Error, Remappings};

fn is_locked<T: std::fmt::Debug>(r: Result<T, Error>, k: &str) {
    match r {
        Err(Error::IsLocked { key }) => assert_eq!(key, k),
        other => panic!("unexpected: {:?}", other),
    }
}

#[test]
fn a_clone_is_the_same_board() {
    let board = Databoard::new();
    let same = board.clone();
    assert_eq!(board.position(), same.position());
    board.set("k", 1i32).unwrap();
    assert_eq!(same.get::<i32>("k").unwrap(), 1);
    same.set("k", 2i32).unwrap();
    assert_eq!(board.get::<i32>("k").unwrap(), 2);
    assert_eq!(board.sequence_id("k").unwrap(), 2);
    // a new board is another board in another hierarchy
    let other = Databoard::new();
    assert!(!other.contains_key("k"));
}

#[test]
fn children_share_the_parent() {
    let root = Databoard::new();
    let left = Databoard::with_parent(root.clone());
    let right = Databoard::with_parent(root.clone());
    assert_eq!(root.position(), 0);
    assert_eq!(left.position(), 1);
    assert_eq!(right.position(), 2);
    left.set("@k", 5i32).unwrap();
    assert_eq!(right.get::<i32>("k").unwrap(), 5);
    assert_eq!(root.get::<i32>("k").unwrap(), 5);
    right.set("mine", 6i32).unwrap();
    assert!(!left.contains_key("mine"));
    assert!(!root.contains_key("mine"));
    drop(root);
    assert_eq!(left.get::<i32>("k").unwrap(), 5);
}

#[test]
fn rules_without_a_parent_are_refused() {
    let mut rules = Remappings::default();
    rules.add("k", "{other}").unwrap();
    match Databoard::with(None, Some(rules), true) {
        Err(Error::NoParent { key, remapped }) => {
            assert_eq!(key, "k");
            assert_eq!(remapped, "{other}");
        }
        Ok(_) => panic!("accepted"),
        Err(other) => panic!("unexpected: {:?}", other),
    }
    let alone = Databoard::with(None, Some(Remappings::default()), true).unwrap();
    assert_eq!(alone.position(), 0);
    assert_eq!(alone.set("k", 1i32).unwrap(), None);
    assert_eq!(
        alone.debug_string(),
        "Databoard { autoremap: true, Entries { [(key: k, sequence_id: 1, value: Any { .. })] }, Remappings { [] }, parent: None }"
    );
}

#[test]
fn guards_and_contention() {
    let board = Databoard::new();
    let other = board.clone();
    board.set("k", 42i32).unwrap();
    let mut guard = board.try_get_mut_ref::<i32>("k").unwrap();
    is_locked(other.try_get_ref::<i32>("k"), "k");
    is_locked(other.try_get_mut_ref::<i32>("k"), "k");
    // what would wait for the guard fails the same way
    is_locked(other.get::<i32>("k"), "k");
    is_locked(other.set("k", 1i32), "k");
    is_locked(other.delete::<i32>("k"), "k");
    is_locked(other.sequence_id("k"), "k");
    is_locked(other.contains::<i32>("k"), "k");
    assert!(other.contains_key("k"));
    *guard.deref_mut() = 22;
    *guard.deref_mut() += 4;
    *guard.deref_mut() -= 2;
    other.release_mut(guard).unwrap();
    let reader = other.try_get_ref::<i32>("k").unwrap();
    assert_eq!(*reader.deref(), 24);
    // readers keep writers out and let readers in
    is_locked(board.set("k", 1i32), "k");
    is_locked(board.delete::<i32>("k"), "k");
    assert_eq!(board.get::<i32>("k").unwrap(), 24);
    assert_eq!(board.sequence_id("k").unwrap(), 2);
    board.release_ref(reader).unwrap();
    let writer = board.try_get_mut_ref::<i32>("k").unwrap();
    board.release_mut(writer).unwrap();
    assert_eq!(board.sequence_id("k").unwrap(), 2);
    assert_eq!(board.delete::<i32>("k").unwrap(), 24);
}

#[test]
fn a_guard_of_another_hierarchy_comes_back() {
    let board = Databoard::new();
    let other = Databoard::new();
    board.set("k", 1i32).unwrap();
    other.set("k", 1i32).unwrap();
    let guard = board.try_get_mut_ref::<i32>("k").unwrap();
    // the entry of the other hierarchy has no writer
    let guard = other.release_mut(guard).unwrap_err();
    assert_eq!(other.sequence_id("k").unwrap(), 1);
    board.release_mut(guard).unwrap();
    let reader = board.try_get_ref::<i32>("k").unwrap();
    let reader = other.release_ref(reader).unwrap_err();
    board.release_ref(reader).unwrap();
    assert!(board.try_get_mut_ref::<i32>("k").is_ok());
}

#[test]
fn a_board_keeps_the_rules_it_was_made_with() {
    let root = Databoard::new();
    let mut rules = Remappings::default();
    rules.add("a", "{b}").unwrap();
    rules.add("c", "{=}").unwrap();
    let child = Databoard::with(Some(root.clone()), Some(rules), false).unwrap();
    let same = child.clone();
    let kept = same.remappings().unwrap();
    assert_eq!(kept.len(), 2);
    assert_eq!(kept.rule(0), ("a", "{b}"));
    assert_eq!(kept.rule(1), ("c", "{=}"));
    let leaf = Databoard::with_parent(same);
    assert!(leaf.remappings().is_none());
    assert_eq!(leaf.position(), 2);
    assert!(Databoard::with(Some(root), Some(Remappings::default()), true)
        .unwrap()
        .remappings()
        .is_none());
    assert_eq!(
        leaf.debug_string(),
        "Databoard { autoremap: true, Entries { [] }, Remappings { [] }, parent: Databoard { autoremap: false, Entries { [] }, Remappings { [(\"a\", \"{b}\"), (\"c\", \"{=}\")] }, parent: Databoard { autoremap: false, Entries { [] }, Remappings { [] }, parent: None } } }"
    );
}

#[test]
fn a_board_is_added_behind_the_boards_that_are_there() {
    let root = Databoard::new();
    let mut rules = Remappings::default();
    rules.add("k", "{other}").unwrap();
    let first = Databoard::with(Some(root.clone()), Some(rules), true).unwrap();
    let second = Databoard::with(Some(first.clone()), None, false).unwrap();
    let third = Databoard::with(Some(root.clone()), None, false).unwrap();
    assert_eq!(first.position(), 1);
    assert_eq!(second.position(), 2);
    assert_eq!(third.position(), 3);
    root.set("other", 7i32).unwrap();
    // the second board has no autoremap and the third no rule
    assert_eq!(first.get::<i32>("k").unwrap(), 7);
    assert!(!second.contains_key("k"));
    assert!(!third.contains_key("k"));
    assert_eq!(
        second.debug_string(),
        "Databoard { autoremap: false, Entries { [] }, Remappings { [] }, parent: Databoard { autoremap: true, Entries { [] }, Remappings { [(\"k\", \"{other}\")] }, parent: Databoard { autoremap: false, Entries { [(key: other, sequence_id: 1, value: Any { .. })] }, Remappings { [] }, parent: None } } }"
    );
}
