//! One entry of a database: a value with its sequence counter, behind a
//! reader/writer lock, and the guards that hold the lock.
//!
//! The lock is part of the entry's state. A read guard counts as one reader
//! from the call that makes it to its release, a write guard as the writer. A
//! guard carries its own copy of the value; a write guard hands the copy back
//! on release, and the counter moves by one if the copy was borrowed mutably,
//! however often.

use std::collections::hash_map::RandomState;
use vstd::prelude::*;
use crate::error::{Error, ErrorView};
use crate::value::{Storable, Value, ValueView};

verus! {

/// A new source of numbers that differ from process to process and from call
/// to call.
///
/// Trusted: calls `RandomState::new`. Nothing is claimed of the result.
#[verifier::external_body]
fn new_seed() -> RandomState {
    RandomState::new()
}

/// A number from the source.
///
/// Trusted: calls `BuildHasher::hash_one` of `RandomState`. Nothing is
/// claimed of the result.
#[verifier::external_body]
fn number_from(seed: &RandomState) -> u64 {
    std::hash::BuildHasher::hash_one(seed, 0u8)
}

/// A number for a new entry, drawn at random.
fn draw_token() -> u64 {
    let seed = new_seed();
    number_from(&seed)
}

/// The sequence id that follows `n`: one more, and 1 after the largest.
pub open spec fn next_sequence_id(n: usize) -> usize {
    if n < usize::MAX {
        (n + 1) as usize
    } else {
        1
    }
}

/// The value of an entry and the counter of its changes.
#[derive(Debug)]
pub struct EntryData {
    sequence_id: usize,
    data: Value,
}

/// An [`EntryData`] as plain values.
pub struct EntryDataView {
    pub sequence_id: usize,
    pub data: ValueView,
}

impl View for EntryData {
    type V = EntryDataView;

    closed spec fn view(&self) -> EntryDataView {
        EntryDataView { sequence_id: self.sequence_id, data: self.data@ }
    }
}

impl EntryData {
    /// A new entry's content: `value` with the sequence id 1.
    pub fn new<T: Storable>(value: T) -> (e: EntryData)
        ensures
            e@ == (EntryDataView { sequence_id: 1, data: value.stored() }),
    {
        EntryData { sequence_id: 1, data: value.into_value() }
    }

    /// The stored value.
    pub fn data(&self) -> (v: &Value)
        ensures
            v@ == self@.data,
    {
        &self.data
    }

    /// The number of the last change; 1 where there was none.
    pub fn sequence_id(&self) -> (n: usize)
        ensures
            n == self@.sequence_id,
    {
        self.sequence_id
    }

    /// A copy of the value and the counter.
    pub fn duplicate(&self) -> (r: EntryData)
        ensures
            r@ == self@,
    {
        EntryData { sequence_id: self.sequence_id, data: self.data.duplicate() }
    }

    /// Puts `value` in place of the stored value and moves the counter on.
    fn replace(&mut self, value: Value)
        ensures
            final(self)@ == (EntryDataView {
                sequence_id: next_sequence_id(old(self)@.sequence_id),
                data: value@,
            }),
    {
        self.data = value;
        if self.sequence_id < usize::MAX {
            self.sequence_id += 1;
        } else {
            self.sequence_id = 1;
        }
    }
}

/// An [`Entry`] as plain values.
pub struct EntryView {
    /// The stored value.
    pub data: ValueView,
    /// The number of the last change.
    pub sequence_id: usize,
    /// How many read guards hold the entry.
    pub readers: usize,
    /// Whether a write guard holds the entry.
    pub writer: bool,
    /// The number that was drawn for the entry when it was made. A guard
    /// carries the number of the entry that it holds, and only that entry
    /// takes it back.
    pub token: u64,
}

impl EntryView {
    /// A new entry: `data` with the sequence id 1, held by no guard, under
    /// the number `token`.
    pub open spec fn fresh(data: ValueView, token: u64) -> EntryView {
        EntryView { data, sequence_id: 1, readers: 0, writer: false, token }
    }

    /// The same entry under the number `token`.
    pub open spec fn numbered(self, token: u64) -> EntryView {
        EntryView { token, ..self }
    }

    /// The counter is at least 1, and readers and a writer never hold the
    /// entry together.
    pub open spec fn wf(self) -> bool {
        self.sequence_id >= 1 && !(self.writer && self.readers > 0)
    }

    /// No guard holds the entry.
    pub open spec fn free(self) -> bool {
        !self.writer && self.readers == 0
    }

    /// One more reader may take the entry now.
    pub open spec fn readable(self) -> bool {
        !self.writer && self.readers < usize::MAX
    }

    /// The entry after one change: `data` stored, the counter moved on.
    pub open spec fn changed(self, data: ValueView) -> EntryView {
        EntryView { data, sequence_id: next_sequence_id(self.sequence_id), ..self }
    }

    /// The entry with one reader more.
    pub open spec fn read_locked(self) -> EntryView {
        EntryView { readers: (self.readers + 1) as usize, ..self }
    }

    /// The entry with one reader less.
    pub open spec fn read_unlocked(self) -> EntryView {
        EntryView { readers: (self.readers - 1) as usize, ..self }
    }

    /// The entry held by a writer.
    pub open spec fn write_locked(self) -> EntryView {
        EntryView { writer: true, ..self }
    }

    /// The entry after its writer left: unchanged where the writer did not
    /// borrow the value mutably, and else with `data` stored as one change.
    pub open spec fn write_unlocked(self, modified: bool, data: ValueView) -> EntryView {
        if modified {
            EntryView { writer: false, ..self.changed(data) }
        } else {
            EntryView { writer: false, ..self }
        }
    }
}

/// A value with its sequence counter and the state of its lock.
#[derive(Debug)]
pub struct Entry {
    content: EntryData,
    readers: usize,
    writer: bool,
    token: u64,
}

impl View for Entry {
    type V = EntryView;

    closed spec fn view(&self) -> EntryView {
        EntryView {
            data: self.content@.data,
            sequence_id: self.content@.sequence_id,
            readers: self.readers,
            writer: self.writer,
            token: self.token,
        }
    }
}

impl Entry {
    /// A new entry that holds `value`, under a number of its own.
    pub fn new<T: Storable>(value: T) -> (e: Entry)
        ensures
            e@ == EntryView::fresh(value.stored(), e@.token),
    {
        Entry { content: EntryData::new(value), readers: 0, writer: false, token: draw_token() }
    }

    /// A copy of the entry as it stands, lock state included. The copy is an
    /// entry of its own, under a number of its own: no guard of this entry
    /// fits it, and no guard of the copy fits this entry.
    pub fn duplicate(&self) -> (r: Entry)
        ensures
            r@ == self@.numbered(r@.token),
    {
        Entry {
            content: self.content.duplicate(),
            readers: self.readers,
            writer: self.writer,
            token: draw_token(),
        }
    }

    /// The value and the counter.
    pub fn content(&self) -> (c: &EntryData)
        ensures
            c@.data == self@.data,
            c@.sequence_id == self@.sequence_id,
    {
        &self.content
    }

    /// The number of the last change.
    pub fn sequence_id(&self) -> (n: usize)
        ensures
            n == self@.sequence_id,
    {
        self.content.sequence_id()
    }

    /// Whether a write guard holds the entry.
    pub fn is_write_locked(&self) -> (r: bool)
        ensures
            r == self@.writer,
    {
        self.writer
    }

    /// How many read guards hold the entry.
    pub fn reader_count(&self) -> (n: usize)
        ensures
            n == self@.readers,
    {
        self.readers
    }

    /// Whether any guard holds the entry.
    pub fn is_locked(&self) -> (r: bool)
        ensures
            r == !self@.free(),
    {
        self.writer || self.readers > 0
    }

    /// Whether the value was stored as a `T`.
    pub fn holds<T: Storable>(&self) -> (r: bool)
        ensures
            r == T::holds(self@.data),
    {
        T::accepts(self.content.data())
    }

    /// A copy of the value as a `T`; `None` if it was stored as another type.
    pub fn read<T: Storable>(&self) -> (r: Option<T>)
        ensures
            match r {
                Some(t) => T::holds(self@.data) && t.stored() == self@.data,
                None => !T::holds(self@.data),
            },
    {
        T::from_value(self.content.data())
    }

    /// Stores `value` in place of a value of the same type and hands the old
    /// value back. An entry of another type stays as it is, and `None` comes
    /// back.
    pub fn update<T: Storable>(&mut self, value: T) -> (r: Option<T>)
        ensures
            match r {
                Some(previous) => T::holds(old(self)@.data) && previous.stored() == old(self)@.data
                    && final(self)@ == old(self)@.changed(value.stored()),
                None => !T::holds(old(self)@.data) && final(self)@ == old(self)@,
            },
    {
        match T::from_value(self.content.data()) {
            Some(previous) => {
                self.content.replace(value.into_value());
                Some(previous)
            },
            None => None,
        }
    }

    /// Takes the value out of the entry as a `T`, or hands the entry back
    /// where it was stored as another type.
    pub fn into_inner<T: Storable>(self) -> (r: Result<T, Entry>)
        ensures
            match r {
                Ok(t) => T::holds(self@.data) && t.stored() == self@.data,
                Err(same) => !T::holds(self@.data) && same@ == self@,
            },
    {
        match T::from_value(self.content.data()) {
            Some(t) => Ok(t),
            None => Err(self),
        }
    }
}

/// A read guard: one reader's hold on an entry, with a copy of the value.
#[derive(Debug)]
pub struct EntryReadGuard<T> {
    board: usize,
    key: String,
    value: T,
    token: u64,
}

impl<T: Storable> EntryReadGuard<T> {
    /// The index of the board whose database holds the entry; 0 for a guard
    /// that was taken from an entry or a database directly.
    pub closed spec fn board(&self) -> usize {
        self.board
    }

    /// The key of the entry in its database.
    pub closed spec fn key(&self) -> Seq<char> {
        self.key@
    }

    /// The value that the guard read.
    pub closed spec fn value(&self) -> T {
        self.value
    }

    /// The number of the entry that the guard holds.
    pub closed spec fn token(&self) -> u64 {
        self.token
    }

    /// The guard is one of the readers of `entry`: readers hold `entry`, and
    /// the guard carries its number.
    pub open spec fn holds(&self, entry: EntryView) -> bool {
        entry.readers > 0 && entry.token == self.token()
    }

    /// Whether the guard carries the number of `entry`.
    pub fn is_of(&self, entry: &Entry) -> (r: bool)
        ensures
            r == (entry@.token == self.token()),
    {
        entry.token == self.token
    }

    /// Takes `entry` for reading now. Fails with `IsLocked` where a writer
    /// holds it or no further reader can be counted, and else with
    /// `WrongType` where the value was not stored as a `T`; a failure leaves
    /// the entry as it was.
    pub fn try_new(key: &str, entry: &mut Entry) -> (r: Result<Self, Error>)
        ensures
            match r {
                Ok(guard) => old(entry)@.readable() && T::holds(old(entry)@.data) && final(entry)@
                    == old(entry)@.read_locked() && guard.key() == key@ && guard.board() == 0
                    && guard.value().stored() == old(entry)@.data && guard.token() == old(
                    entry,
                )@.token,
                Err(e) => final(entry)@ == old(entry)@ && if !old(entry)@.readable() {
                    e@ == (ErrorView::IsLocked { key: key@ })
                } else {
                    !T::holds(old(entry)@.data) && e@ == (ErrorView::WrongType { key: key@ })
                },
            },
    {
        if entry.writer || entry.readers == usize::MAX {
            return Err(Error::is_locked(key));
        }
        match T::from_value(entry.content.data()) {
            Some(value) => {
                entry.readers += 1;
                Ok(EntryReadGuard { board: 0, key: key.to_owned(), value, token: entry.token })
            },
            None => Err(Error::wrong_type(key)),
        }
    }

    /// Takes `entry` for reading. The caller sees to it that a reader can
    /// take the entry: where a writer holds it, a reader would wait for ever.
    pub fn new(key: &str, entry: &mut Entry) -> (r: Result<Self, Error>)
        requires
            old(entry)@.readable(),
        ensures
            match r {
                Ok(guard) => T::holds(old(entry)@.data) && final(entry)@ == old(
                    entry,
                )@.read_locked() && guard.key() == key@ && guard.board() == 0
                    && guard.value().stored() == old(entry)@.data && guard.token() == old(
                    entry,
                )@.token,
                Err(e) => final(entry)@ == old(entry)@ && !T::holds(old(entry)@.data) && e@ == (
                ErrorView::WrongType { key: key@ }),
            },
    {
        Self::try_new(key, entry)
    }

    /// The value that the guard read.
    pub fn deref(&self) -> (v: &T)
        ensures
            *v == self.value(),
    {
        &self.value
    }

    /// The key of the entry in its database.
    pub fn entry_key(&self) -> (k: &str)
        ensures
            k@ == self.key(),
    {
        self.key.as_str()
    }

    /// The index of the board whose database holds the entry.
    pub fn board_index(&self) -> (b: usize)
        ensures
            b == self.board(),
    {
        self.board
    }

    /// The same guard, marked as taken from the board with index `board`.
    pub(crate) fn on_board(self, board: usize) -> (g: Self)
        ensures
            g.board() == board,
            g.key() == self.key(),
            g.value() == self.value(),
            g.token() == self.token(),
    {
        EntryReadGuard { board, key: self.key, value: self.value, token: self.token }
    }

    /// Ends the guard: `entry` has one reader less.
    pub fn release(self, entry: &mut Entry)
        requires
            self.holds(old(entry)@),
        ensures
            final(entry)@ == old(entry)@.read_unlocked(),
    {
        if entry.readers > 0 {
            entry.readers -= 1;
        }
    }
}

/// A write guard: the writer's hold on an entry, with a copy of the value to
/// work on.
#[derive(Debug)]
pub struct EntryWriteGuard<T> {
    board: usize,
    key: String,
    value: T,
    modified: bool,
    token: u64,
}

impl<T: Storable> EntryWriteGuard<T> {
    /// The index of the board whose database holds the entry; 0 for a guard
    /// that was taken from an entry or a database directly.
    pub closed spec fn board(&self) -> usize {
        self.board
    }

    /// The key of the entry in its database.
    pub closed spec fn key(&self) -> Seq<char> {
        self.key@
    }

    /// The value as the guard has it now.
    pub closed spec fn value(&self) -> T {
        self.value
    }

    /// Whether the value was borrowed mutably through the guard.
    pub closed spec fn modified(&self) -> bool {
        self.modified
    }

    /// The number of the entry that the guard holds.
    pub closed spec fn token(&self) -> u64 {
        self.token
    }

    /// The guard is the writer of `entry`: a writer holds `entry`, which has
    /// a value of the guard's type, and the guard carries its number.
    pub open spec fn holds(&self, entry: EntryView) -> bool {
        entry.writer && entry.readers == 0 && T::holds(entry.data) && entry.token == self.token()
    }

    /// Whether the guard carries the number of `entry`.
    pub fn is_of(&self, entry: &Entry) -> (r: bool)
        ensures
            r == (entry@.token == self.token()),
    {
        entry.token == self.token
    }

    /// Takes `entry` for writing now. Fails with `IsLocked` where any guard
    /// holds it, and else with `WrongType` where the value was not stored as
    /// a `T`; a failure leaves the entry as it was.
    pub fn try_new(key: &str, entry: &mut Entry) -> (r: Result<Self, Error>)
        ensures
            match r {
                Ok(guard) => old(entry)@.free() && T::holds(old(entry)@.data) && final(entry)@
                    == old(entry)@.write_locked() && guard.key() == key@ && guard.board() == 0
                    && guard.value().stored() == old(entry)@.data && !guard.modified()
                    && guard.token() == old(entry)@.token,
                Err(e) => final(entry)@ == old(entry)@ && if !old(entry)@.free() {
                    e@ == (ErrorView::IsLocked { key: key@ })
                } else {
                    !T::holds(old(entry)@.data) && e@ == (ErrorView::WrongType { key: key@ })
                },
            },
    {
        if entry.writer || entry.readers > 0 {
            return Err(Error::is_locked(key));
        }
        match T::from_value(entry.content.data()) {
            Some(value) => {
                entry.writer = true;
                Ok(
                    EntryWriteGuard {
                        board: 0,
                        key: key.to_owned(),
                        value,
                        modified: false,
                        token: entry.token,
                    },
                )
            },
            None => Err(Error::wrong_type(key)),
        }
    }

    /// Takes `entry` for writing. The caller sees to it that no guard holds
    /// the entry: where one does, a writer would wait for ever.
    pub fn new(key: &str, entry: &mut Entry) -> (r: Result<Self, Error>)
        requires
            old(entry)@.free(),
        ensures
            match r {
                Ok(guard) => T::holds(old(entry)@.data) && final(entry)@ == old(
                    entry,
                )@.write_locked() && guard.key() == key@ && guard.board() == 0
                    && guard.value().stored() == old(entry)@.data && !guard.modified()
                    && guard.token() == old(entry)@.token,
                Err(e) => final(entry)@ == old(entry)@ && !T::holds(old(entry)@.data) && e@ == (
                ErrorView::WrongType { key: key@ }),
            },
    {
        Self::try_new(key, entry)
    }

    /// The value as the guard has it now. Reading does not count as a change.
    pub fn deref(&self) -> (v: &T)
        ensures
            *v == self.value(),
    {
        &self.value
    }

    /// The value, to be changed in place. From this call on the guard counts
    /// as modified, whether or not the caller then writes.
    pub fn deref_mut(&mut self) -> (v: &mut T)
        ensures
            *v == old(self).value(),
            final(self).value() == *final(v),
            final(self).modified(),
            final(self).key() == old(self).key(),
            final(self).board() == old(self).board(),
            final(self).token() == old(self).token(),
    {
        self.modified = true;
        &mut self.value
    }

    /// The key of the entry in its database.
    pub fn entry_key(&self) -> (k: &str)
        ensures
            k@ == self.key(),
    {
        self.key.as_str()
    }

    /// The index of the board whose database holds the entry.
    pub fn board_index(&self) -> (b: usize)
        ensures
            b == self.board(),
    {
        self.board
    }

    /// Whether the value was borrowed mutably through the guard.
    pub fn is_modified(&self) -> (m: bool)
        ensures
            m == self.modified(),
    {
        self.modified
    }

    /// The same guard, marked as taken from the board with index `board`.
    pub(crate) fn on_board(self, board: usize) -> (g: Self)
        ensures
            g.board() == board,
            g.key() == self.key(),
            g.value() == self.value(),
            g.modified() == self.modified(),
            g.token() == self.token(),
    {
        EntryWriteGuard {
            board,
            key: self.key,
            value: self.value,
            modified: self.modified,
            token: self.token,
        }
    }

    /// Ends the guard. A modified guard stores its value and moves the
    /// counter on by one; an unmodified guard leaves value and counter as
    /// they are. Either way the entry has no writer afterwards.
    pub fn release(self, entry: &mut Entry)
        requires
            self.holds(old(entry)@),
        ensures
            final(entry)@ == old(entry)@.write_unlocked(self.modified(), self.value().stored()),
    {
        if self.modified {
            entry.content.replace(self.value.into_value());
        }
        entry.writer = false;
    }
}

/// The sequence id moves by exactly one step with every change, whether the
/// change is an update or the release of a modified write guard; taking or
/// releasing a lock without a change leaves it as it is. A step leads from
/// `n` to `n + 1`, from the largest number to 1, and never to 0.
pub proof fn law_sequence_id_steps(entry: EntryView, data: ValueView)
    ensures
        entry.changed(data).sequence_id == next_sequence_id(entry.sequence_id),
        entry.write_unlocked(true, data).sequence_id == next_sequence_id(entry.sequence_id),
        entry.write_unlocked(false, data).sequence_id == entry.sequence_id,
        entry.write_locked().sequence_id == entry.sequence_id,
        entry.read_locked().sequence_id == entry.sequence_id,
        entry.read_unlocked().sequence_id == entry.sequence_id,
        entry.sequence_id < usize::MAX ==> next_sequence_id(entry.sequence_id)
            == entry.sequence_id + 1,
        entry.sequence_id == usize::MAX ==> next_sequence_id(entry.sequence_id) == 1,
        next_sequence_id(entry.sequence_id) >= 1,
{
}

/// A write guard that is taken on a free entry and released unmodified
/// leaves the entry exactly as it was.
pub proof fn law_unmodified_guard(entry: EntryView, data: ValueView)
    requires
        entry.free(),
    ensures
        entry.write_locked().write_unlocked(false, data) == entry,
{
}

} // verus!
