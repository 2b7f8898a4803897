//! Tests of a hierarchy that one caller owns: routing, values, sequence ids.

use databoard::{Hierarchy, Remappings};

#[test]
fn hierarchy_standalone() {
    let mut boards = Hierarchy::new();
    let databoard = boards.first();
    assert!(!boards.contains_key(databoard, "test"));
    assert!(boards.get::<i32>(databoard, "test").is_err());
    assert!(boards.get::<String>(databoard, "test").is_err());

    let old = boards.set::<i32>(databoard, "test", 42).unwrap();
    assert_eq!(old, None);

    assert!(boards.contains_key(databoard, "test"));
    assert!(boards.contains::<i32>(databoard, "test").unwrap());
    assert!(boards.contains::<String>(databoard, "test").is_err());
    assert_eq!(boards.sequence_id(databoard, "test").unwrap(), 1);
    assert_eq!(boards.get::<i32>(databoard, "test").unwrap(), 42);
    assert!(boards.get::<String>(databoard, "test").is_err());

    assert!(boards.set::<String>(databoard, "test", "fail".into()).is_err());

    assert_eq!(boards.set::<i32>(databoard, "test", 24).unwrap(), Some(42));
    assert_eq!(boards.sequence_id(databoard, "test").unwrap(), 2);
    assert!(boards.get::<String>(databoard, "test").is_err());

    assert!(boards.delete::<String>(databoard, "test").is_err());
    assert_eq!(boards.delete::<i32>(databoard, "test").unwrap(), 24);
    assert!(!boards.contains_key(databoard, "test"));
}

#[test]
fn hierarchy_root_access_no_remapping() {
    let mut boards = Hierarchy::new();
    let root = boards.first();
    let level1 = boards.with(Some(root), None, false).unwrap();
    let level2 = boards.with(Some(level1), None, false).unwrap();

    // set 'test' from level2 in root
    assert_eq!(boards.set(level2, "@test", 42).unwrap(), None);
    // access from root
    assert!(boards.contains_key(root, "test"));
    assert!(boards.contains_key(root, "@test"));
    assert!(boards.contains::<String>(root, "test").is_err());
    assert!(boards.contains::<String>(root, "@test").is_err());
    assert_eq!(boards.get::<i32>(root, "test").unwrap(), 42);
    assert_eq!(boards.get::<i32>(root, "@test").unwrap(), 42);
    assert!(boards.get::<String>(root, "test").is_err());
    assert!(boards.get::<String>(root, "@test").is_err());
    assert_eq!(boards.sequence_id(root, "test").unwrap(), 1);
    assert_eq!(boards.sequence_id(root, "@test").unwrap(), 1);
    // access from level1
    assert!(!boards.contains_key(level1, "test"));
    assert!(boards.contains_key(level1, "@test"));
    assert_eq!(boards.get::<i32>(level1, "@test").unwrap(), 42);
    assert!(boards.get::<String>(level1, "@test").is_err());
    assert_eq!(boards.sequence_id(level1, "@test").unwrap(), 1);
    // access from level2
    assert!(!boards.contains_key(level2, "test"));
    assert_eq!(boards.get::<i32>(level2, "@test").unwrap(), 42);
    assert!(boards.get::<String>(level2, "@test").is_err());
    assert_eq!(boards.sequence_id(level2, "@test").unwrap(), 1);

    // set 'test' in level2
    assert_eq!(boards.set(level2, "test", 44).unwrap(), None);
    assert!(!boards.contains_key(level1, "test"));
    assert!(boards.contains_key(level2, "test"));
    assert!(boards.contains::<i32>(level2, "test").unwrap());
    assert!(boards.contains::<String>(level2, "test").is_err());
    assert_eq!(boards.get::<i32>(level2, "test").unwrap(), 44);
    assert_eq!(boards.sequence_id(level2, "test").unwrap(), 1);
    assert_eq!(boards.get::<i32>(level2, "@test").unwrap(), 42);
    assert_eq!(boards.sequence_id(level2, "@test").unwrap(), 1);

    // update 'test' from level2 in root
    assert_eq!(boards.set(level2, "@test", 24).unwrap(), Some(42));
    assert!(!boards.contains_key(level1, "test"));
    assert_eq!(boards.get::<i32>(level2, "@test").unwrap(), 24);
    assert_eq!(boards.sequence_id(level2, "@test").unwrap(), 2);
    assert_eq!(boards.get::<i32>(level2, "test").unwrap(), 44);
    assert_eq!(boards.sequence_id(level2, "test").unwrap(), 1);

    // update 'test' in level2
    assert_eq!(boards.set(level2, "test", 22).unwrap(), Some(44));
    assert!(!boards.contains_key(level1, "test"));
    assert_eq!(boards.get::<i32>(level2, "@test").unwrap(), 24);
    assert_eq!(boards.sequence_id(level2, "@test").unwrap(), 2);
    assert_eq!(boards.get::<i32>(level2, "test").unwrap(), 22);
    assert_eq!(boards.sequence_id(level2, "test").unwrap(), 2);

    // delete 'test'
    assert_eq!(boards.delete::<i32>(level2, "test").unwrap(), 22);
    assert_eq!(boards.delete::<i32>(level2, "@test").unwrap(), 24);
    assert!(!boards.contains_key(root, "test"));
    assert!(!boards.contains_key(level1, "test"));
    assert!(!boards.contains_key(level2, "test"));
}

#[test]
fn hierarchy_root_access_auto_remapping() {
    let mut boards = Hierarchy::new();
    let root = boards.first();
    let level1 = boards.with_parent(root);
    let level2 = boards.with_parent(level1);

    // set 'test' from level2 in root
    assert_eq!(boards.set(level2, "@test", 42).unwrap(), None);
    // access from root
    assert!(boards.contains_key(root, "test"));
    assert!(boards.contains::<i32>(root, "test").unwrap());
    assert!(boards.contains::<String>(root, "test").is_err());
    assert_eq!(boards.get::<i32>(root, "@test").unwrap(), 42);
    assert_eq!(boards.get::<i32>(root, "test").unwrap(), 42);
    assert!(boards.get::<String>(root, "@test").is_err());
    assert!(boards.get::<String>(root, "test").is_err());
    assert_eq!(boards.sequence_id(root, "@test").unwrap(), 1);
    assert_eq!(boards.sequence_id(root, "test").unwrap(), 1);
    // access from level1
    assert!(boards.contains_key(level1, "test"));
    assert!(boards.contains::<i32>(level1, "test").unwrap());
    assert!(boards.contains::<String>(level1, "test").is_err());
    assert_eq!(boards.get::<i32>(level1, "@test").unwrap(), 42);
    assert_eq!(boards.get::<i32>(level1, "test").unwrap(), 42);
    assert!(boards.get::<String>(level1, "@test").is_err());
    assert!(boards.get::<String>(level1, "test").is_err());
    assert_eq!(boards.sequence_id(level1, "@test").unwrap(), 1);
    assert_eq!(boards.sequence_id(level1, "test").unwrap(), 1);
    // access from level2
    assert!(boards.contains_key(level2, "test"));
    assert!(boards.contains::<i32>(level2, "test").unwrap());
    assert!(boards.contains::<String>(level2, "test").is_err());
    assert_eq!(boards.get::<i32>(level2, "@test").unwrap(), 42);
    assert_eq!(boards.get::<i32>(level2, "test").unwrap(), 42);
    assert!(boards.get::<String>(level2, "@test").is_err());
    assert!(boards.get::<String>(level2, "test").is_err());
    assert_eq!(boards.sequence_id(level2, "@test").unwrap(), 1);
    assert_eq!(boards.sequence_id(level2, "test").unwrap(), 1);

    // set 'test' in level2 (should alter '@test')
    assert_eq!(boards.set(level2, "test", 44).unwrap(), Some(42));
    assert_eq!(boards.get::<i32>(level1, "test").unwrap(), 44);
    assert_eq!(boards.sequence_id(level1, "test").unwrap(), 2);
    assert_eq!(boards.get::<i32>(level1, "@test").unwrap(), 44);
    assert_eq!(boards.sequence_id(level1, "@test").unwrap(), 2);
    assert_eq!(boards.get::<i32>(level2, "test").unwrap(), 44);
    assert_eq!(boards.sequence_id(level2, "test").unwrap(), 2);
    assert_eq!(boards.get::<i32>(level2, "@test").unwrap(), 44);
    assert_eq!(boards.sequence_id(level2, "@test").unwrap(), 2);

    // update 'test' from level2 in root
    assert_eq!(boards.set(level2, "@test", 22).unwrap(), Some(44));
    assert_eq!(boards.get::<i32>(level1, "test").unwrap(), 22);
    assert_eq!(boards.sequence_id(level1, "test").unwrap(), 3);
    assert_eq!(boards.get::<i32>(level1, "@test").unwrap(), 22);
    assert_eq!(boards.sequence_id(level1, "@test").unwrap(), 3);
    assert_eq!(boards.get::<i32>(level2, "@test").unwrap(), 22);
    assert_eq!(boards.sequence_id(level2, "@test").unwrap(), 3);
    assert_eq!(boards.get::<i32>(level2, "test").unwrap(), 22);
    assert_eq!(boards.sequence_id(level2, "test").unwrap(), 3);

    // delete 'test' in level2
    assert_eq!(boards.delete::<i32>(level2, "test").unwrap(), 22);
    assert!(!boards.contains_key(root, "test"));
    assert!(!boards.contains_key(level1, "test"));
    assert!(!boards.contains_key(level2, "test"));
}

#[test]
fn hierarchy_auto_remapping() {
    let mut boards = Hierarchy::new();
    let root = boards.first();
    let level1 = boards.with_parent(root);
    let level2 = boards.with_parent(level1);

    // set 'test' in root
    assert_eq!(boards.set(root, "test", 40).unwrap(), None);
    // set 'test1' in level1
    assert_eq!(boards.set(level1, "test1", 41).unwrap(), None);
    // set 'test2' in level2
    assert_eq!(boards.set(level2, "test2", 42).unwrap(), None);
    assert_eq!(boards.get::<i32>(root, "test").unwrap(), 40);
    assert_eq!(boards.get::<i32>(level1, "test").unwrap(), 40);
    assert_eq!(boards.get::<i32>(level2, "test").unwrap(), 40);
    assert!(boards.get::<i32>(root, "test1").is_err());
    assert_eq!(boards.get::<i32>(level1, "test1").unwrap(), 41);
    assert_eq!(boards.get::<i32>(level2, "test1").unwrap(), 41);
    assert!(boards.get::<i32>(root, "test2").is_err());
    assert!(boards.get::<i32>(level1, "test2").is_err());
    assert_eq!(boards.get::<i32>(level2, "test2").unwrap(), 42);

    // set 'test' in level1
    assert_eq!(boards.set(level1, "test", 41).unwrap(), Some(40));
    // set 'test' in level2
    assert_eq!(boards.set(level1, "test", 42).unwrap(), Some(41));

    assert_eq!(boards.sequence_id(root, "test").unwrap(), 3);
    assert_eq!(boards.sequence_id(level1, "test").unwrap(), 3);
    assert_eq!(boards.sequence_id(level2, "test").unwrap(), 3);
    assert_eq!(boards.sequence_id(level1, "test1").unwrap(), 1);
    assert_eq!(boards.sequence_id(level2, "test2").unwrap(), 1);

    assert_eq!(boards.delete::<i32>(root, "test").unwrap(), 42);
    assert!(!boards.contains_key(root, "test"));
    assert_eq!(boards.delete::<i32>(level1, "test1").unwrap(), 41);
    assert!(!boards.contains_key(level1, "test1"));
    assert_eq!(boards.delete::<i32>(level2, "test2").unwrap(), 42);
    assert!(!boards.contains_key(level2, "test"));
}

#[test]
fn hierarchy_manual_remapping() {
    let mut boards = Hierarchy::new();
    let root = boards.first();
    let mut remappings = Remappings::default();
    remappings.add("test", "{test}").unwrap();
    remappings.add("test1", "{test}").unwrap();
    let level1 = boards.with(Some(root), Some(remappings), false).unwrap();
    let mut remappings = Remappings::default();
    remappings.add("test", "{test}").unwrap();
    remappings.add("test1", "{test1}").unwrap();
    remappings.add("test2", "{test}").unwrap();
    remappings.add("testX", "{test1}").unwrap();
    let level2 = boards.with(Some(level1), Some(remappings), false).unwrap();

    // set 'test' in level2
    assert_eq!(boards.set(level2, "test", 40).unwrap(), None);
    assert!(boards.contains_key(level2, "test"));
    assert!(boards.contains_key(level2, "test1"));
    assert!(boards.contains_key(level2, "test2"));
    assert!(boards.contains_key(level2, "testX"));
    assert!(boards.contains_key(level1, "test"));
    assert!(boards.contains_key(level1, "test1"));
    assert!(!boards.contains_key(level1, "test2"));
    assert!(!boards.contains_key(level1, "testX"));
    assert!(boards.contains_key(root, "test"));
    assert!(!boards.contains_key(root, "test1"));
    assert!(!boards.contains_key(root, "test2"));
    assert!(!boards.contains_key(root, "testX"));
    // set 'test1' in level2
    assert_eq!(boards.set(level2, "test1", 41).unwrap(), Some(40));
    assert!(boards.contains_key(level2, "test1"));
    assert!(boards.contains_key(level1, "test1"));
    assert!(!boards.contains_key(root, "test1"));
    // set 'test2' in level2
    assert_eq!(boards.set(level2, "test2", 42).unwrap(), Some(41));
    assert!(boards.contains_key(level2, "test2"));
    // set 'testX' in level2
    assert_eq!(boards.set(level2, "testX", 44).unwrap(), Some(42));
    assert!(boards.contains_key(level2, "testX"));

    assert_eq!(boards.get::<i32>(root, "test").unwrap(), 44);
    assert_eq!(boards.get::<i32>(level1, "test").unwrap(), 44);
    assert_eq!(boards.get::<i32>(level1, "test1").unwrap(), 44);
    assert_eq!(boards.get::<i32>(level2, "test").unwrap(), 44);
    assert_eq!(boards.get::<i32>(level2, "test1").unwrap(), 44);
    assert_eq!(boards.get::<i32>(level2, "test2").unwrap(), 44);
    assert_eq!(boards.get::<i32>(level2, "testX").unwrap(), 44);

    assert_eq!(boards.sequence_id(root, "test").unwrap(), 4);
    assert_eq!(boards.sequence_id(level1, "test").unwrap(), 4);
    assert_eq!(boards.sequence_id(level2, "test").unwrap(), 4);

    assert_eq!(boards.delete::<i32>(level2, "test2").unwrap(), 44);
    assert!(!boards.contains_key(root, "test"));
    assert!(!boards.contains_key(level1, "test"));
    assert!(!boards.contains_key(level1, "test1"));
    assert!(!boards.contains_key(level2, "test"));
    assert!(!boards.contains_key(level2, "test1"));
    assert!(!boards.contains_key(level2, "test2"));
}

#[test]
fn hierarchy_mixed_remapping() {
    let mut boards = Hierarchy::new();
    let root = boards.first();
    let mut remappings = Remappings::default();
    remappings.add("manual1", "{manual}").unwrap();
    let level1 = boards.with(Some(root), Some(remappings), true).unwrap();
    let mut remappings = Remappings::default();
    remappings.add("manual2", "{manual1}").unwrap();
    let level2 = boards.with(Some(level1), Some(remappings), true).unwrap();

    // set 'test' in root
    assert_eq!(boards.set(root, "test", 42).unwrap(), None);
    assert_eq!(boards.get::<i32>(root, "test").unwrap(), 42);
    assert_eq!(boards.get::<i32>(level1, "test").unwrap(), 42);
    assert_eq!(boards.get::<i32>(level2, "test").unwrap(), 42);

    assert!(boards.contains_key(root, "test"));
    assert!(boards.contains_key(level1, "test"));
    assert!(boards.contains_key(level2, "test"));

    assert_eq!(boards.sequence_id(level2, "test").unwrap(), 1);
    assert_eq!(boards.delete::<i32>(level2, "test").unwrap(), 42);
    assert!(!boards.contains_key(root, "test"));
    assert!(!boards.contains_key(level1, "test"));
    assert!(!boards.contains_key(level2, "test"));

    // set 'manual2' in level2
    assert_eq!(boards.set(level2, "manual2", 24).unwrap(), None);
    assert_eq!(boards.get::<i32>(root, "manual").unwrap(), 24);
    assert_eq!(boards.get::<i32>(level1, "manual1").unwrap(), 24);
    assert_eq!(boards.get::<i32>(level2, "manual2").unwrap(), 24);

    assert!(boards.contains_key(root, "manual"));
    assert!(boards.contains_key(level1, "manual1"));
    assert!(boards.contains_key(level2, "manual2"));

    assert_eq!(boards.sequence_id(level2, "manual").unwrap(), 1);
    assert_eq!(boards.delete::<i32>(level2, "manual2").unwrap(), 24);
    assert!(!boards.contains_key(root, "manual"));
    assert!(!boards.contains_key(level1, "manual1"));
    assert!(!boards.contains_key(level2, "manual2"));
}

#[test]
fn hierarchy_referencing() {
    let mut boards = Hierarchy::new();
    let databoard = boards.first();
    assert!(boards.get_mut_ref::<i32>(databoard, "test)").is_err());
    assert!(boards.get_mut_ref::<String>(databoard, "test)").is_err());

    let old = boards.set::<i32>(databoard, "test", 42).unwrap();
    assert_eq!(old, None);
    assert!(boards.get_mut_ref::<String>(databoard, "test)").is_err());

    let mut entry = boards.get_mut_ref::<i32>(databoard, "test").unwrap();
    // read tests
    assert_eq!(*entry.deref(), 42);
    // write tests
    *entry.deref_mut() = 22;
    *entry.deref_mut() += 4;
    *entry.deref_mut() -= 2;
    assert_eq!(*entry.deref(), 24);
    boards.release_mut(entry);
    assert_eq!(boards.get::<i32>(databoard, "test").unwrap(), 24);
    assert_eq!(boards.sequence_id(databoard, "test").unwrap(), 2);

    assert_eq!(boards.delete::<i32>(databoard, "test").unwrap(), 24);
    assert!(!boards.contains_key(databoard, "test"));
}
