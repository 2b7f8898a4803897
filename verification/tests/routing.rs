//! Tests of the routing rules on chosen boards.

use databoard::{Hierarchy, DataboardPtr, Error, Remappings, Route};

fn chain(autoremap: bool) -> (Hierarchy, DataboardPtr, DataboardPtr, DataboardPtr) {
    let mut boards = Hierarchy::new();
    let root = boards.first();
    let level1 = boards.with(Some(root), None, autoremap).unwrap();
    let level2 = boards.with(Some(level1), None, autoremap).unwrap();
    (boards, root, level1, level2)
}

fn at(route: Route) -> (usize, String, bool) {
    match route {
        Route::At { board, key, plain } => (board.position(), key, plain),
        other => panic!("no entry: {:?}", other),
    }
}

#[test]
fn contains_key_says_whether_the_route_ends_at_an_entry() {
    let (mut boards, root, level1, level2) = chain(true);
    assert!(!boards.contains_key(level2, "k"));
    boards.set(root, "k", 1i32).unwrap();
    for board in [root, level1, level2] {
        let route = boards.resolve(board, "k");
        assert!(boards.is_present(&route));
        assert_eq!(at(route), (0, "k".to_string(), true));
        assert!(boards.contains_key(board, "k"));
    }
    assert!(!boards.is_present(&boards.resolve(level2, "other")));
    assert!(!boards.contains_key(level2, "other"));
}

#[test]
fn top_level_key_is_the_key_on_the_root() {
    let (mut boards, root, level1, level2) = chain(false);
    boards.set(root, "k", 7i32).unwrap();
    boards.set(level2, "k", 8i32).unwrap();
    for board in [root, level1, level2] {
        assert_eq!(at(boards.resolve(board, "@k")), at(boards.resolve(root, "k")));
        assert_eq!(boards.get::<i32>(board, "@k").unwrap(), boards.get::<i32>(root, "k").unwrap());
        assert_eq!(boards.sequence_id(board, "@k").unwrap(), boards.sequence_id(root, "k").unwrap());
        assert_eq!(boards.contains_key(board, "@k"), boards.contains_key(root, "k"));
        assert_eq!(boards.root(board).position(), root.position());
    }
    assert_eq!(at(boards.resolve(level2, "@@k")), (0, "k".to_string(), true));
    assert_eq!(at(boards.resolve(level2, "@_k")), (0, "k".to_string(), false));
}

#[test]
fn local_key_stays_on_the_board() {
    let (mut boards, root, level1, level2) = chain(true);
    boards.set(root, "k", 1i32).unwrap();
    assert_eq!(at(boards.resolve(level2, "_k")), (level2.position(), "k".to_string(), false));
    assert!(!boards.contains_key(level2, "_k"));
    assert!(boards.contains_key(level2, "k"));
    // a local key changes an entry that is there and makes none
    match boards.set(level2, "_k", 5i32) {
        Err(Error::NotFound { key }) => assert_eq!(key, "k"),
        other => panic!("unexpected: {:?}", other),
    }
    assert_eq!(boards.get::<i32>(root, "k").unwrap(), 1);
    assert_eq!(boards.sequence_id(root, "k").unwrap(), 1);
    assert!(!boards.contains_key(level1, "_k"));
    assert!(boards.database(level1).len() == 0);
    assert!(boards.database(level2).len() == 0);
}

#[test]
fn a_rule_beats_autoremap() {
    for autoremap in [false, true] {
        let mut boards = Hierarchy::new();
        let root = boards.first();
        boards.set(root, "k", 1i32).unwrap();
        boards.set(root, "other", 2i32).unwrap();
        let mut rules = Remappings::default();
        rules.add("k", "{other}").unwrap();
        let child = boards.with(Some(root), Some(rules), autoremap).unwrap();
        assert_eq!(at(boards.resolve(child, "k")), (0, "other".to_string(), true));
        assert_eq!(boards.get::<i32>(child, "k").unwrap(), 2);
        assert_eq!(boards.autoremap(child), autoremap);
    }
}

#[test]
fn a_constant_target_is_an_assignment() {
    let mut boards = Hierarchy::new();
    let root = boards.first();
    boards.set(root, "manual", 1i32).unwrap();
    let mut rules = Remappings::default();
    rules.add("manual", "value").unwrap();
    rules.add("json", r#"{"x":1,"y":2}"#).unwrap();
    let child = boards.with(Some(root), Some(rules), true).unwrap();

    fn is_assignment<T: std::fmt::Debug>(r: Result<T, Error>, k: &str, v: &str) {
        match r {
            Err(Error::Assignment { key, value }) => {
                assert_eq!(key, k);
                assert_eq!(value, v);
            }
            other => panic!("unexpected: {:?}", other),
        }
    }
    is_assignment(boards.get::<i32>(child, "manual"), "manual", "value");
    is_assignment(boards.set(child, "manual", 2i32), "manual", "value");
    is_assignment(boards.delete::<i32>(child, "manual"), "manual", "value");
    is_assignment(boards.sequence_id(child, "manual"), "manual", "value");
    is_assignment(boards.entry(child, "manual").map(|e| e.sequence_id()), "manual", "value");
    is_assignment(boards.try_get_ref::<i32>(child, "manual"), "manual", "value");
    is_assignment(boards.try_get_mut_ref::<i32>(child, "manual"), "manual", "value");
    is_assignment(boards.get_ref::<i32>(child, "manual"), "manual", "value");
    is_assignment(boards.get_mut_ref::<i32>(child, "manual"), "manual", "value");
    is_assignment(boards.get::<i32>(child, "json"), "json", r#"{"x":1,"y":2}"#);
    assert!(!boards.contains_key(child, "manual"));
    assert_eq!(boards.contains::<i32>(child, "manual").unwrap(), false);
    assert_eq!(boards.get::<i32>(root, "manual").unwrap(), 1);
    assert_eq!(boards.sequence_id(root, "manual").unwrap(), 1);
}

#[test]
fn routed_board_gives_the_same_answer() {
    let (mut boards, root, level1, level2) = chain(true);
    boards.set(level1, "k", 5i32).unwrap();
    let (board, key, plain) = at(boards.resolve(level2, "k"));
    assert_eq!((board, key.as_str(), plain), (level1.position(), "k", true));
    assert_eq!(boards.get::<i32>(level2, "k").unwrap(), boards.get::<i32>(level1, "k").unwrap());
    assert_eq!(boards.get::<i32>(level2, "k").unwrap(), boards.get::<i32>(level1, "_k").unwrap());
    assert!(boards.get::<i32>(root, "k").is_err());
}

#[test]
fn autoremap_creates_on_the_leaf_and_updates_on_the_root() {
    let (mut boards, root, level1, level2) = chain(true);
    assert_eq!(boards.set(level2, "k", 1i32).unwrap(), None);
    assert!(boards.contains_key(level2, "_k"));
    assert!(!boards.contains_key(level1, "k"));
    assert!(!boards.contains_key(root, "k"));

    let (mut boards, root, level1, level2) = chain(true);
    boards.set(root, "k", 1i32).unwrap();
    assert_eq!(boards.set(level2, "k", 2i32).unwrap(), Some(1));
    assert_eq!(boards.get::<i32>(root, "_k").unwrap(), 2);
    assert_eq!(boards.sequence_id(root, "k").unwrap(), 2);
    assert!(!boards.contains_key(level1, "_k"));
    assert!(!boards.contains_key(level2, "_k"));
}

#[test]
fn an_entry_in_the_shadow_comes_forward_after_a_delete() {
    let (mut boards, root, _level1, level2) = chain(true);
    boards.set(level2, "k", 1i32).unwrap();
    boards.set(root, "k", 2i32).unwrap();
    // the root's entry is the one that the key leads to
    assert_eq!(boards.get::<i32>(level2, "k").unwrap(), 2);
    assert_eq!(boards.get::<i32>(level2, "_k").unwrap(), 1);
    assert_eq!(boards.delete::<i32>(level2, "k").unwrap(), 2);
    assert!(!boards.contains_key(root, "k"));
    assert!(boards.contains_key(level2, "k"));
    assert_eq!(boards.get::<i32>(level2, "k").unwrap(), 1);
}

#[test]
fn delete_hides_the_key_from_every_board_that_led_to_it() {
    let mut boards = Hierarchy::new();
    let root = boards.first();
    let mut rules = Remappings::default();
    rules.add("a", "{k}").unwrap();
    let left = boards.with(Some(root), Some(rules), false).unwrap();
    let right = boards.with_parent(root);
    let mut rules = Remappings::default();
    rules.add("b", "{@k}").unwrap();
    rules.add("c", "{=}").unwrap();
    let below = boards.with(Some(right), Some(rules), false).unwrap();
    boards.set(root, "k", 1i32).unwrap();
    boards.set(root, "c", 3i32).unwrap();
    assert!(boards.contains_key(left, "a"));
    assert!(boards.contains_key(right, "k"));
    assert!(boards.contains_key(below, "b"));
    assert_eq!(boards.get::<i32>(below, "c").unwrap(), 3);
    assert_eq!(boards.delete::<i32>(below, "b").unwrap(), 1);
    assert!(!boards.contains_key(root, "k"));
    assert!(!boards.contains_key(left, "a"));
    assert!(!boards.contains_key(right, "k"));
    assert!(!boards.contains_key(below, "b"));
    assert!(boards.contains_key(below, "c"));
}

#[test]
fn restricted_pointers() {
    let mut boards = Hierarchy::new();
    let root = boards.first();
    let middle = boards.with_parent(root);
    let mut rules = Remappings::default();
    rules.add("mine", "{_k}").unwrap();
    rules.add("top", "{@k}").unwrap();
    let leaf = boards.with(Some(middle), Some(rules), false).unwrap();
    boards.set(root, "k", 1i32).unwrap();
    assert_eq!(at(boards.resolve(leaf, "mine")), (middle.position(), "k".to_string(), false));
    assert_eq!(at(boards.resolve(leaf, "top")), (root.position(), "k".to_string(), true));
    assert!(!boards.contains_key(leaf, "mine"));
    assert_eq!(boards.get::<i32>(leaf, "top").unwrap(), 1);
    assert!(boards.parent(leaf).unwrap().same(&middle));
    assert!(boards.parent(root).is_none());
    assert_eq!(boards.len(), 3);
}

#[test]
fn rules_need_a_parent() {
    let mut boards = Hierarchy::new();
    let mut rules = Remappings::default();
    rules.add("k", "{other}").unwrap();
    rules.add("l", "{more}").unwrap();
    match boards.with(None, Some(rules), false) {
        Err(Error::NoParent { key, remapped }) => {
            assert_eq!(key, "k");
            assert_eq!(remapped, "{other}");
        }
        other => panic!("unexpected: {:?}", other),
    }
    assert_eq!(boards.len(), 1);
    // a table without rules asks for no parent
    let second = boards.with(None, Some(Remappings::default()), true).unwrap();
    assert_eq!(second.position(), 1);
    assert!(boards.parent(second).is_none());
    assert!(boards.remappings(second).is_none());
    assert_eq!(boards.set(second, "k", 1i32).unwrap(), None);
    assert!(!boards.contains_key(boards.first(), "k"));
}

#[test]
fn remappings_of_a_board() {
    let mut boards = Hierarchy::new();
    let root = boards.first();
    assert!(boards.remappings(root).is_none());
    let mut rules = Remappings::default();
    rules.add("k", "{other}").unwrap();
    let child = boards.with(Some(root), Some(rules), false).unwrap();
    let rules = boards.remappings(child).unwrap();
    assert_eq!(rules.len(), 1);
    assert_eq!(rules.rule(0), ("k", "{other}"));
}

#[test]
fn a_constant_of_the_parent_is_an_assignment_on_the_child_too() {
    let mut boards = Hierarchy::new();
    let root = boards.first();
    let mut rules = Remappings::default();
    rules.add("k", "value").unwrap();
    let middle = boards.with(Some(root), Some(rules), false).unwrap();
    let leaf = boards.with_parent(middle);
    assert!(matches!(boards.resolve(leaf, "k"), Route::Assignment { .. }));
    match boards.get::<i32>(leaf, "k") {
        Err(Error::Assignment { key, value }) => {
            assert_eq!(key, "k");
            assert_eq!(value, "value");
        }
        other => panic!("unexpected: {:?}", other),
    }
    assert!(matches!(boards.set(leaf, "k", 1i32), Err(Error::Assignment { .. })));
    assert!(!boards.contains_key(leaf, "k"));
    assert_eq!(boards.database(leaf).len(), 0);
    // the board's own entry of that name is reached by the local key only
    assert!(matches!(boards.set(leaf, "_k", 1i32), Err(Error::NotFound { .. })));
    // a key that leads to a missing entry of the parent stays on the leaf
    assert_eq!(boards.set(leaf, "other", 1i32).unwrap(), None);
    assert_eq!(boards.database(leaf).len(), 1);
}
