//! A board that threads share.
//!
//! A [`Databoard`] is one board of a [`Hierarchy`] that stands behind a
//! reader/writer lock. Boards made from one another share the hierarchy, and
//! a clone of a board is the same board. Every operation takes the lock,
//! asks the hierarchy and gives the lock back, so it sees the hierarchy as it
//! is at that moment. No operation waits for a guard on an entry: where it
//! would have to, it fails with `IsLocked`, and the caller may ask again.

use std::sync::Arc;
use vstd::prelude::*;
use crate::entry::{Entry, EntryReadGuard, EntryWriteGuard};
use crate::error::{Error, ErrorView};
use crate::database::Pair;
use crate::hierarchy::{
    contains_now, delete_now, entry_now, get_now, parents_first, read_guard_now,
    read_release_now, sequence_id_now, set_now, store_now, text_now, with_outcome,
    write_guard_now, write_release_now, BoardView, DataboardPtr, Hierarchy,
};
use crate::remappings::{Remappings, Rule};
use crate::value::Storable;

verus! {

/// The spinning strategy of the lock, which the library hands through.
#[verifier::external_type_specification]
#[verifier::external_body]
pub struct ExSpin(spin::relax::Spin);

/// The reader/writer lock, which the library hands through.
#[verifier::external_type_specification]
#[verifier::external_body]
#[verifier::reject_recursive_types(T)]
#[verifier::reject_recursive_types(R)]
pub struct ExRwLock<T: ?Sized, R>(spin::rwlock::RwLock<T, R>);

/// A reader's hold on the lock, which the library hands through.
#[verifier::external_type_specification]
#[verifier::external_body]
#[verifier::reject_recursive_types(T)]
pub struct ExRwLockReadGuard<'a, T: ?Sized>(spin::rwlock::RwLockReadGuard<'a, T>);

/// The writer's hold on the lock, which the library hands through.
#[verifier::external_type_specification]
#[verifier::external_body]
#[verifier::reject_recursive_types(T)]
#[verifier::reject_recursive_types(R)]
pub struct ExRwLockWriteGuard<'a, T: 'a + ?Sized, R>(spin::rwlock::RwLockWriteGuard<'a, T, R>);

/// Puts a hierarchy behind a new lock.
///
/// Trusted: calls `spin::RwLock::new`. Nothing is claimed of the result.
#[verifier::external_body]
fn lock_around(boards: Hierarchy) -> spin::RwLock<Hierarchy> {
    spin::RwLock::new(boards)
}

/// Takes the lock for reading and waits until no writer holds it.
///
/// Trusted: calls `spin::RwLock::read`. Nothing is claimed of the result:
/// what the lock holds is what the last writer left. The call comes back
/// once no writer holds the lock, and every holder in this module lets go
/// before its function ends. The lock panics where more than
/// `usize::MAX / 8` readers hold it at one time, which no machine reaches.
#[verifier::external_body]
fn lock_for_reading<'a>(lock: &'a spin::RwLock<Hierarchy>) -> spin::RwLockReadGuard<
    'a,
    Hierarchy,
> {
    lock.read()
}

/// Takes the lock for writing and waits until nobody else holds it.
///
/// Trusted: calls `spin::RwLock::write`. Nothing is claimed of the result:
/// what the lock holds is what the last writer left. The call comes back
/// once nobody holds the lock, and every holder in this module lets go
/// before its function ends.
#[verifier::external_body]
fn lock_for_writing<'a>(lock: &'a spin::RwLock<Hierarchy>) -> spin::RwLockWriteGuard<
    'a,
    Hierarchy,
> {
    lock.write()
}

/// The hierarchy behind a lock that is held for reading.
///
/// Trusted: calls `deref` of `spin::RwLockReadGuard`. Nothing is claimed of
/// the result.
#[verifier::external_body]
fn read_access<'a, 'b>(guard: &'b spin::RwLockReadGuard<'a, Hierarchy>) -> &'b Hierarchy {
    &**guard
}

/// The hierarchy behind a lock that is held for writing.
///
/// Trusted: calls `deref_mut` of `spin::RwLockWriteGuard`. Nothing is claimed
/// of the result.
#[verifier::external_body]
fn write_access<'a, 'b>(guard: &'b mut spin::RwLockWriteGuard<'a, Hierarchy>) -> &'b mut Hierarchy {
    &mut **guard
}

/// A second handle on what `shared` points to.
///
/// Trusted: calls `Arc::clone`. Nothing is claimed of the result.
#[verifier::external_body]
fn share(shared: &Arc<spin::RwLock<Hierarchy>>) -> Arc<spin::RwLock<Hierarchy>> {
    Arc::clone(shared)
}

/// `r` is what `try_contains` of some hierarchy gives.
pub open spec fn may_contain<T: Storable>(b: int, key: Seq<char>, r: Result<bool, Error>) -> bool {
    exists|boards: Seq<BoardView>|
        parents_first(boards) && #[trigger] contains_now::<T>(boards, b, key, r)
}

/// `r` is what `try_get` of some hierarchy gives.
pub open spec fn may_get<T: Storable>(b: int, key: Seq<char>, r: Result<T, Error>) -> bool {
    exists|boards: Seq<BoardView>| parents_first(boards) && #[trigger] get_now(boards, b, key, r)
}

/// `r` is what `try_sequence_id` of some hierarchy gives.
pub open spec fn may_number(b: int, key: Seq<char>, r: Result<usize, Error>) -> bool {
    exists|boards: Seq<BoardView>|
        parents_first(boards) && #[trigger] sequence_id_now(boards, b, key, r)
}

/// `r` is what `try_entry` of some hierarchy gives.
pub open spec fn may_find(b: int, key: Seq<char>, r: Result<Entry, Error>) -> bool {
    exists|boards: Seq<BoardView>| parents_first(boards) && #[trigger] entry_now(boards, b, key, r)
}

/// `r` is what `try_set` of some hierarchy gives.
pub open spec fn may_set<T: Storable>(
    b: int,
    key: Seq<char>,
    value: T,
    r: Result<Option<T>, Error>,
) -> bool {
    exists|boards: Seq<BoardView>, after: Seq<BoardView>|
        parents_first(boards) && #[trigger] set_now(boards, b, key, value, r, after)
}

/// `r` is what `try_store` of some hierarchy gives.
pub open spec fn may_store<T: Storable>(
    b: int,
    key: Seq<char>,
    value: T,
    r: Result<Result<Option<T>, Error>, T>,
) -> bool {
    exists|boards: Seq<BoardView>, after: Seq<BoardView>|
        parents_first(boards) && #[trigger] store_now(boards, b, key, value, r, after)
}

/// `r` is what `try_delete` of some hierarchy gives.
pub open spec fn may_delete<T: Storable>(b: int, key: Seq<char>, r: Result<T, Error>) -> bool {
    exists|boards: Seq<BoardView>, after: Seq<BoardView>|
        parents_first(boards) && #[trigger] delete_now(boards, b, key, r, after)
}

/// `r` is what `try_get_ref` of some hierarchy gives.
pub open spec fn may_read<T: Storable>(
    b: int,
    key: Seq<char>,
    r: Result<EntryReadGuard<T>, Error>,
) -> bool {
    exists|boards: Seq<BoardView>, after: Seq<BoardView>|
        parents_first(boards) && #[trigger] read_guard_now(boards, b, key, r, after)
}

/// `r` is what `try_get_mut_ref` of some hierarchy gives.
pub open spec fn may_write<T: Storable>(
    b: int,
    key: Seq<char>,
    r: Result<EntryWriteGuard<T>, Error>,
) -> bool {
    exists|boards: Seq<BoardView>, after: Seq<BoardView>|
        parents_first(boards) && #[trigger] write_guard_now(boards, b, key, r, after)
}

/// `r` is what `try_release_ref` of some hierarchy gives for `guard`.
pub open spec fn may_release_ref<T: Storable>(
    guard: EntryReadGuard<T>,
    r: Result<(), EntryReadGuard<T>>,
) -> bool {
    exists|boards: Seq<BoardView>, after: Seq<BoardView>|
        parents_first(boards) && #[trigger] read_release_now(boards, guard, r, after)
}

/// `r` is what `try_release_mut` of some hierarchy gives for `guard`.
pub open spec fn may_release_mut<T: Storable>(
    guard: EntryWriteGuard<T>,
    r: Result<(), EntryWriteGuard<T>>,
) -> bool {
    exists|boards: Seq<BoardView>, after: Seq<BoardView>|
        parents_first(boards) && #[trigger] write_release_now(boards, guard, r, after)
}

/// `text` is what `try_debug_string` of some hierarchy gives for board `b`.
pub open spec fn may_describe(b: int, text: Seq<char>) -> bool {
    exists|boards: Seq<BoardView>, listings: Seq<Seq<Pair>>|
        parents_first(boards) && #[trigger] text_now(boards, listings, b, text)
}

/// What `with_parent` gives and leaves behind among `boards`: where `parent`
/// is one of them, a board without rules and with the autoremap flag on is
/// added under it, and `place` names that board; where it is not, nothing
/// changes, and `place` is `parent` itself.
pub open spec fn joined(
    boards: Seq<BoardView>,
    parent: DataboardPtr,
    place: DataboardPtr,
    after: Seq<BoardView>,
) -> bool {
    if 0 <= parent.index() < boards.len() {
        with_outcome(
            boards,
            Some(parent),
            None,
            true,
            Ok::<DataboardPtr, Error>(place),
            after,
        )
    } else {
        place == parent && after == boards
    }
}

/// `r` is what `Hierarchy::with` gives in some hierarchy for a board under
/// `parent` with the given rules and flag: the name of the board that was
/// added behind the others, or, where `parent` is not among the boards,
/// `NoParent` with empty strings.
pub open spec fn may_add(
    parent: DataboardPtr,
    remappings: Option<Remappings>,
    autoremap: bool,
    r: Result<DataboardPtr, Error>,
) -> bool {
    exists|boards: Seq<BoardView>, after: Seq<BoardView>|
        parents_first(boards) && #[trigger] with_outcome(
            boards,
            Some(parent),
            remappings,
            autoremap,
            r,
            after,
        )
}

/// `place` is what `with_parent` gives for `parent` in some hierarchy.
pub open spec fn may_join(parent: DataboardPtr, place: DataboardPtr) -> bool {
    exists|boards: Seq<BoardView>, after: Seq<BoardView>|
        parents_first(boards) && #[trigger] joined(boards, parent, place, after)
}

/// The rules that a board is made with: those that are given, or none.
pub open spec fn rules_of(remappings: Option<Remappings>) -> Seq<Rule> {
    match remappings {
        Some(rules) => rules@,
        None => Seq::empty(),
    }
}

/// One board of a hierarchy that threads share. Beside its place in the
/// hierarchy it keeps a copy of the rules that it was made with, which never
/// change.
pub struct Databoard {
    boards: Arc<spin::RwLock<Hierarchy>>,
    board: DataboardPtr,
    rules: Remappings,
}

impl Clone for Databoard {
    /// The same board once more.
    fn clone(&self) -> (r: Databoard)
        ensures
            r.ptr() == self.ptr(),
            r.rules() == self.rules(),
    {
        Databoard {
            boards: share(&self.boards),
            board: self.board,
            rules: self.rules.duplicate(),
        }
    }
}

impl Default for Databoard {
    /// A board as `new` makes it.
    fn default() -> (r: Databoard)
        ensures
            r.place() == 0,
            r.rules() == Seq::<Rule>::empty(),
    {
        Databoard::new()
    }
}

impl Databoard {
    /// The name of the board in its hierarchy.
    pub closed spec fn ptr(&self) -> DataboardPtr {
        self.board
    }

    /// The place of the board in its hierarchy.
    pub open spec fn place(&self) -> int {
        self.ptr().index()
    }

    /// The rules that the board was made with.
    pub closed spec fn rules(&self) -> Seq<Rule> {
        self.rules@
    }

    /// The place of the board in its hierarchy.
    pub fn position(&self) -> (i: usize)
        ensures
            i == self.place(),
    {
        self.board.position()
    }

    /// A board with an empty database, no parent, no rules and the autoremap
    /// flag off, in a hierarchy of its own.
    pub fn new() -> (r: Databoard)
        ensures
            r.place() == 0,
            r.rules() == Seq::<Rule>::empty(),
    {
        let boards = Hierarchy::new();
        let board = boards.first();
        Databoard { boards: Arc::new(lock_around(boards)), board, rules: Remappings::default() }
    }

    /// A board with an empty database and the given parent, rules and
    /// autoremap flag. With a parent it joins the parent's hierarchy behind
    /// the boards that are there; without one it starts a hierarchy of its
    /// own. Rules for a board without a parent are refused with `NoParent`
    /// and the first rule.
    pub fn with(parent: Option<Databoard>, remappings: Option<Remappings>, autoremap: bool) -> (r:
        Result<Databoard, Error>)
        ensures
            (parent is None && (remappings matches Some(rules) && rules@.len() > 0)) ==> (
            r matches Err(e) && e@ == (ErrorView::NoParent {
                key: remappings->Some_0@[0].0,
                remapped: remappings->Some_0@[0].1,
            })),
            (parent is None && !(remappings matches Some(rules) && rules@.len() > 0)) ==> (
            r matches Ok(board) && board.place() == 0),
            parent matches Some(p) ==> match r {
                Ok(board) => may_add(
                    p.ptr(),
                    remappings,
                    autoremap,
                    Ok::<DataboardPtr, Error>(board.ptr()),
                ),
                Err(e) => may_add(p.ptr(), remappings, autoremap, Err::<DataboardPtr, Error>(e)),
            },
            r matches Ok(board) ==> board.rules() == rules_of(remappings),
    {
        let (rules, given) = match remappings {
            Some(given) => (given.duplicate(), Some(given)),
            None => (Remappings::default(), None),
        };
        match parent {
            Some(parent) => {
                let added = {
                    let mut guard = lock_for_writing(&parent.boards);
                    let boards = write_access(&mut guard);
                    boards.validity();
                    let ghost before = boards@;
                    let added = boards.with(Some(parent.board), given, autoremap);
                    assert(with_outcome(
                        before,
                        Some(parent.ptr()),
                        remappings,
                        autoremap,
                        added,
                        boards@,
                    ));
                    added
                };
                match added {
                    Ok(board) => Ok(Databoard { boards: parent.boards, board, rules }),
                    Err(e) => Err(e),
                }
            },
            None => {
                let mut boards = Hierarchy::empty();
                match boards.with(None, given, autoremap) {
                    Ok(board) => Ok(
                        Databoard { boards: Arc::new(lock_around(boards)), board, rules },
                    ),
                    Err(e) => Err(e),
                }
            },
        }
    }

    /// A board under `parent` with an empty database, no rules and the
    /// autoremap flag on. It joins the hierarchy of `parent` behind the
    /// boards that are there.
    pub fn with_parent(parent: Databoard) -> (r: Databoard)
        ensures
            may_join(parent.ptr(), r.ptr()),
            r.rules() == Seq::<Rule>::empty(),
    {
        let added = {
            let mut guard = lock_for_writing(&parent.boards);
            let boards = write_access(&mut guard);
            boards.validity();
            let ghost before = boards@;
            let added = boards.with(Some(parent.board), None, true);
            proof {
                let place = match added {
                    Ok(board) => board,
                    Err(_) => parent.board,
                };
                assert(joined(before, parent.ptr(), place, boards@));
            }
            added
        };
        match added {
            Ok(board) => Databoard { boards: parent.boards, board, rules: Remappings::default() },
            Err(_) => Databoard {
                boards: parent.boards,
                board: parent.board,
                rules: Remappings::default(),
            },
        }
    }

    /// Whether `key` leads to an entry that exists, in the hierarchy as it is
    /// when the call is made. Either answer is possible, whatever the board
    /// and the key are, so nothing is stated of it here; what decides it is
    /// stated at `Hierarchy::contains_key`.
    pub fn contains_key(&self, key: &str) -> bool {
        let guard = lock_for_reading(&self.boards);
        let boards = read_access(&guard);
        boards.holds(self.board) && boards.contains_key(self.board, key)
    }

    /// Whether `key` leads to an entry, which must then hold a `T`.
    pub fn contains<T: Storable>(&self, key: &str) -> (r: Result<bool, Error>)
        ensures
            may_contain::<T>(self.place(), key@, r),
    {
        let guard = lock_for_reading(&self.boards);
        let boards = read_access(&guard);
        boards.validity();
        let r = boards.try_contains::<T>(self.board, key);
        assert(contains_now::<T>(boards@, self.place(), key@, r));
        r
    }

    /// A copy of the value to which `key` leads, as a `T`.
    pub fn get<T: Storable>(&self, key: &str) -> (r: Result<T, Error>)
        ensures
            may_get(self.place(), key@, r),
    {
        let guard = lock_for_reading(&self.boards);
        let boards = read_access(&guard);
        boards.validity();
        let r = boards.try_get::<T>(self.board, key);
        assert(get_now(boards@, self.place(), key@, r));
        r
    }

    /// The sequence id of the entry to which `key` leads.
    pub fn sequence_id(&self, key: &str) -> (r: Result<usize, Error>)
        ensures
            may_number(self.place(), key@, r),
    {
        let guard = lock_for_reading(&self.boards);
        let boards = read_access(&guard);
        boards.validity();
        let r = boards.try_sequence_id(self.board, key);
        assert(sequence_id_now(boards@, self.place(), key@, r));
        r
    }

    /// A copy of the entry to which `key` leads, as it stands: its value, its
    /// sequence id and the state of its lock.
    pub fn entry(&self, key: &str) -> (r: Result<Entry, Error>)
        ensures
            may_find(self.place(), key@, r),
    {
        let guard = lock_for_reading(&self.boards);
        let boards = read_access(&guard);
        boards.validity();
        let r = boards.try_entry(self.board, key);
        assert(entry_now(boards@, self.place(), key@, r));
        r
    }

    /// A copy of the rules that the board was made with, or `None` where it
    /// was made with none.
    pub fn remappings(&self) -> (r: Option<Remappings>)
        ensures
            match r {
                Some(rules) => rules@ == self.rules() && rules@.len() > 0,
                None => self.rules().len() == 0,
            },
    {
        if self.rules.is_empty() {
            None
        } else {
            Some(self.rules.duplicate())
        }
    }

    /// Stores `value` where `key` leads: in place of the value of an existing
    /// entry, whose old value comes back, or as a new entry.
    pub fn set<T: Storable>(&self, key: &str, value: T) -> (r: Result<Option<T>, Error>)
        ensures
            may_set(self.place(), key@, value, r),
    {
        let mut guard = lock_for_writing(&self.boards);
        let boards = write_access(&mut guard);
        boards.validity();
        let ghost before = boards@;
        let r = boards.try_set(self.board, key, value);
        assert(set_now(before, self.place(), key@, value, r, boards@));
        r
    }

    /// Stores `value` as `set` does, but hands it back untouched where a
    /// guard holds the entry, so that the caller can try again with it.
    pub fn try_store<T: Storable>(&self, key: &str, value: T) -> (r: Result<
        Result<Option<T>, Error>,
        T,
    >)
        ensures
            may_store(self.place(), key@, value, r),
            r matches Err(back) ==> back == value,
    {
        let mut guard = lock_for_writing(&self.boards);
        let boards = write_access(&mut guard);
        boards.validity();
        let ghost before = boards@;
        let r = boards.try_store(self.board, key, value);
        assert(store_now(before, self.place(), key@, value, r, boards@));
        r
    }

    /// Takes the entry to which `key` leads out of its database and hands
    /// back its value as a `T`.
    pub fn delete<T: Storable>(&self, key: &str) -> (r: Result<T, Error>)
        ensures
            may_delete(self.place(), key@, r),
    {
        let mut guard = lock_for_writing(&self.boards);
        let boards = write_access(&mut guard);
        boards.validity();
        let ghost before = boards@;
        let r = boards.try_delete::<T>(self.board, key);
        assert(delete_now(before, self.place(), key@, r, boards@));
        r
    }

    /// Takes the entry to which `key` leads for reading now.
    pub fn try_get_ref<T: Storable>(&self, key: &str) -> (r: Result<EntryReadGuard<T>, Error>)
        ensures
            may_read(self.place(), key@, r),
    {
        let mut guard = lock_for_writing(&self.boards);
        let boards = write_access(&mut guard);
        boards.validity();
        let ghost before = boards@;
        let r = boards.try_get_ref::<T>(self.board, key);
        assert(read_guard_now(before, self.place(), key@, r, boards@));
        r
    }

    /// Takes the entry to which `key` leads for writing now.
    pub fn try_get_mut_ref<T: Storable>(&self, key: &str) -> (r: Result<EntryWriteGuard<T>, Error>)
        ensures
            may_write(self.place(), key@, r),
    {
        let mut guard = lock_for_writing(&self.boards);
        let boards = write_access(&mut guard);
        boards.validity();
        let ghost before = boards@;
        let r = boards.try_get_mut_ref::<T>(self.board, key);
        assert(write_guard_now(before, self.place(), key@, r, boards@));
        r
    }

    /// Hands a read guard back: its entry has one reader less. A guard that
    /// the hierarchy of this board cannot take comes back.
    pub fn release_ref<T: Storable>(&self, guard: EntryReadGuard<T>) -> (r: Result<
        (),
        EntryReadGuard<T>,
    >)
        ensures
            may_release_ref(guard, r),
    {
        let mut lock = lock_for_writing(&self.boards);
        let boards = write_access(&mut lock);
        boards.validity();
        let ghost before = boards@;
        let r = boards.try_release_ref(guard);
        assert(read_release_now(before, guard, r, boards@));
        r
    }

    /// Hands a write guard back. A modified guard stores its value and moves
    /// the sequence id on by one; an unmodified guard leaves both as they
    /// are. A guard that the hierarchy of this board cannot take comes back.
    pub fn release_mut<T: Storable>(&self, guard: EntryWriteGuard<T>) -> (r: Result<
        (),
        EntryWriteGuard<T>,
    >)
        ensures
            may_release_mut(guard, r),
    {
        let mut lock = lock_for_writing(&self.boards);
        let boards = write_access(&mut lock);
        boards.validity();
        let ghost before = boards@;
        let r = boards.try_release_mut(guard);
        assert(write_release_now(before, guard, r, boards@));
        r
    }

    /// The board as text, with its parents, as the hierarchy holds them when
    /// the call is made.
    pub fn debug_string(&self) -> (r: String)
        ensures
            may_describe(self.place(), r@),
    {
        let guard = lock_for_reading(&self.boards);
        let boards = read_access(&guard);
        boards.validity();
        let r = boards.try_debug_string(self.board);
        assert(text_now(boards@, boards.listings(), self.place(), r@));
        r
    }
}

} // verus!
