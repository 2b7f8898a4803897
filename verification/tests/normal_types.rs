//! The types of the library can be sent to and shared between threads.

use databoard::{
    Database, Databoard, DataboardInner, DataboardPtr, Entry, EntryData, EntryReadGuard,
    EntryWriteGuard, Error, Hierarchy, Remappings,
};

fn is_normal<T: Sized + Send + Sync>() {}

#[test]
fn remappings_normal_types() {
    is_normal::<Remappings>();
    is_normal::<(String, String)>();
}

#[test]
fn error_normal_types() {
    is_normal::<Error>();
}

#[test]
fn entry_normal_types() {
    is_normal::<EntryData>();
    is_normal::<Entry>();
    is_normal::<EntryReadGuard<i32>>();
    is_normal::<EntryWriteGuard<String>>();
}

#[test]
fn database_normal_types() {
    is_normal::<Database>();
}

#[test]
fn databoard_normal_types() {
    is_normal::<DataboardInner>();
    is_normal::<Databoard>();
    is_normal::<DataboardPtr>();
    is_normal::<Hierarchy>();
}
