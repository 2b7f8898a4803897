//! Tests of the text forms.

use databoard::{Databoard, Hierarchy, Remappings};

#[test]
fn remappings() {
    let mut remappings = Remappings::default();

    remappings.add("value1", "remapped1").unwrap();
    remappings.add("value2", "remapped2").unwrap();
    remappings.add("value3", "remapped3").unwrap();

    let remapping_string = remappings.debug_string();
    assert_eq!(
        remapping_string.as_str(),
        "Remappings { [(\"value1\", \"remapped1\"), (\"value2\", \"remapped2\"), (\"value3\", \"remapped3\")] }"
    );

    remappings.shrink();

    let remapping_string = remappings.debug_string();
    assert_eq!(
        remapping_string.as_str(),
        "Remappings { [(\"value1\", \"remapped1\"), (\"value2\", \"remapped2\"), (\"value3\", \"remapped3\")] }"
    );
}

#[test]
fn databoard() {
    let databoard = Databoard::new();
    databoard.set("entry1", "value1".to_string()).unwrap();
    databoard.set("entry2", "value2".to_string()).unwrap();

    let databoard_string = databoard.debug_string();
    assert_eq!(
        databoard_string.as_str(),
        "Databoard { autoremap: false, Entries { [(key: entry1, sequence_id: 1, value: Any { .. }), (key: entry2, sequence_id: 1, value: Any { .. })] }, Remappings { [] }, parent: None }"
    );

    // rules need a parent, so the board with a rule stands under an empty one
    let mut remappings = Remappings::default();
    remappings.add("entry", "remapped").unwrap();
    let databoard = Databoard::with(Some(Databoard::new()), Some(remappings), true).unwrap();
    databoard.set("entry1", "value11".to_string()).unwrap();

    let databoard_string = databoard.debug_string();
    assert_eq!(
        databoard_string.as_str(),
        "Databoard { autoremap: true, Entries { [(key: entry1, sequence_id: 1, value: Any { .. })] }, Remappings { [(\"entry\", \"remapped\")] }, parent: Databoard { autoremap: false, Entries { [] }, Remappings { [] }, parent: None } }"
    );

    let parent = Databoard::new();
    let databoard = Databoard::with_parent(parent);

    let databoard_string = databoard.debug_string();
    assert_eq!(
        databoard_string.as_str(),
        "Databoard { autoremap: true, Entries { [] }, Remappings { [] }, parent: Databoard { autoremap: false, Entries { [] }, Remappings { [] }, parent: None } }"
    );

    let parent = Databoard::new();
    parent.set("p_entry", "p_value".to_string()).unwrap();
    let databoard = Databoard::with_parent(parent);

    let databoard_string = databoard.debug_string();
    assert_eq!(
        databoard_string.as_str(),
        "Databoard { autoremap: true, Entries { [] }, Remappings { [] }, parent: Databoard { autoremap: false, Entries { [(key: p_entry, sequence_id: 1, value: Any { .. })] }, Remappings { [] }, parent: None } }"
    );
}

#[test]
fn entries_are_listed_in_the_order_of_their_keys() {
    let mut boards = Hierarchy::new();
    let board = boards.first();
    boards.set(board, "b", 2i32).unwrap();
    boards.set(board, "a", 1i32).unwrap();
    boards.set(board, "ab", 3i32).unwrap();
    boards.set(board, "a", 10i32).unwrap();
    assert_eq!(
        boards.debug_string(board).as_str(),
        "Databoard { autoremap: false, Entries { [(key: a, sequence_id: 2, value: Any { .. }), (key: ab, sequence_id: 1, value: Any { .. }), (key: b, sequence_id: 1, value: Any { .. })] }, Remappings { [] }, parent: None }"
    );
}

#[test]
fn strings_are_quoted_as_debug_writes_them() {
    let mut remappings = Remappings::default();
    remappings.add("a\"b", "tab\there").unwrap();
    assert_eq!(
        remappings.debug_string().as_str(),
        "Remappings { [(\"a\\\"b\", \"tab\\there\")] }"
    );
    assert_eq!(Remappings::default().debug_string().as_str(), "Remappings { [] }");
}

#[test]
fn sequence_ids_are_written_in_decimal() {
    let mut boards = Hierarchy::new();
    let board = boards.first();
    boards.set(board, "n", 0u64).unwrap();
    for i in 1..123u64 {
        boards.set(board, "n", i).unwrap();
    }
    assert_eq!(boards.sequence_id(board, "n").unwrap(), 123);
    assert_eq!(
        boards.debug_string(board).as_str(),
        "Databoard { autoremap: false, Entries { [(key: n, sequence_id: 123, value: Any { .. })] }, Remappings { [] }, parent: None }"
    );
}
