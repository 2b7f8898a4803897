//! The database of one board: its entries by key, in the order of the keys.

use vstd::prelude::*;
use crate::entry::{Entry, EntryReadGuard, EntryView, EntryWriteGuard};
use crate::error::{Error, ErrorView};
use crate::text::{
    decimal, is_text_less, join_next, joined, lemma_text_less_irreflexive, lemma_text_less_total,
    lemma_text_less_transitive, text_less, to_decimal,
};
use vstd::string::StringExecFns;
use crate::value::Storable;

verus! {

/// A key with the entry under it.
pub type Pair = (Seq<char>, EntryView);

/// The keys of `pairs` ascend strictly, so no key occurs twice.
pub open spec fn ascending(pairs: Seq<Pair>) -> bool {
    forall|i: int, j: int|
        0 <= i < j < pairs.len() ==> text_less((#[trigger] pairs[i]).0, (#[trigger] pairs[j]).0)
}

/// Some pair of `pairs` has the key `k`.
pub open spec fn has_key(pairs: Seq<Pair>, k: Seq<char>) -> bool {
    exists|i: int| 0 <= i < pairs.len() && (#[trigger] pairs[i]).0 == k
}

/// The place of a pair with the key `k`.
pub open spec fn place_of(pairs: Seq<Pair>, k: Seq<char>) -> int {
    choose|i: int| 0 <= i < pairs.len() && (#[trigger] pairs[i]).0 == k
}

/// The pairs as a map from key to entry.
pub open spec fn as_map(pairs: Seq<Pair>) -> Map<Seq<char>, EntryView> {
    Map::new(|k: Seq<char>| has_key(pairs, k), |k: Seq<char>| pairs[place_of(pairs, k)].1)
}

/// Two pairs of an ascending sequence with the same key are the same pair.
pub proof fn lemma_ascending_distinct(pairs: Seq<Pair>, i: int, j: int)
    requires
        ascending(pairs),
        0 <= i < pairs.len(),
        0 <= j < pairs.len(),
        pairs[i].0 == pairs[j].0,
    ensures
        i == j,
{
    lemma_text_less_irreflexive(pairs[i].0);
    if i < j {
        assert(text_less(pairs[i].0, pairs[j].0));
    } else if j < i {
        assert(text_less(pairs[j].0, pairs[i].0));
    }
}

/// The map holds each pair of an ascending sequence under its key.
pub proof fn lemma_as_map_at(pairs: Seq<Pair>, i: int)
    requires
        ascending(pairs),
        0 <= i < pairs.len(),
    ensures
        as_map(pairs).contains_key(pairs[i].0),
        as_map(pairs)[pairs[i].0] == pairs[i].1,
{
    let k = pairs[i].0;
    assert(has_key(pairs, k));
    lemma_ascending_distinct(pairs, i, place_of(pairs, k));
}

/// The map holds nothing under a key that no pair has.
pub proof fn lemma_as_map_absent(pairs: Seq<Pair>, k: Seq<char>)
    requires
        forall|j: int| 0 <= j < pairs.len() ==> (#[trigger] pairs[j]).0 != k,
    ensures
        !as_map(pairs).contains_key(k),
{
}

/// Replacing the entry of pair `i` replaces the entry under its key.
pub proof fn lemma_as_map_update(pairs: Seq<Pair>, i: int, entry: EntryView)
    requires
        ascending(pairs),
        0 <= i < pairs.len(),
    ensures
        ascending(pairs.update(i, (pairs[i].0, entry))),
        as_map(pairs.update(i, (pairs[i].0, entry))) == as_map(pairs).insert(pairs[i].0, entry),
{
    let after = pairs.update(i, (pairs[i].0, entry));
    assert forall|a: int, b: int| 0 <= a < b < after.len() implies text_less(
        (#[trigger] after[a]).0,
        (#[trigger] after[b]).0,
    ) by {
        assert(after[a].0 == pairs[a].0 && after[b].0 == pairs[b].0);
    }
    assert forall|k: Seq<char>|
        as_map(after).contains_key(k) == as_map(pairs).insert(pairs[i].0, entry).contains_key(
            k,
        ) by {
        if as_map(after).contains_key(k) {
            let j = place_of(after, k);
            assert(pairs[j].0 == k);
        }
        if as_map(pairs).contains_key(k) {
            let j = place_of(pairs, k);
            assert(after[j].0 == k);
        }
        if k == pairs[i].0 {
            assert(after[i].0 == k);
        }
    }
    assert forall|k: Seq<char>| as_map(after).contains_key(k) implies as_map(after)[k] == as_map(
        pairs,
    ).insert(pairs[i].0, entry)[k] by {
        let j = place_of(after, k);
        lemma_as_map_at(after, j);
        if j != i {
            assert(pairs[j].0 == k);
            lemma_as_map_at(pairs, j);
            if k == pairs[i].0 {
                lemma_ascending_distinct(pairs, i, j);
            }
        }
    }
    assert(as_map(after) =~= as_map(pairs).insert(pairs[i].0, entry));
}

/// Taking pair `i` out takes its key out of the map.
pub proof fn lemma_as_map_remove(pairs: Seq<Pair>, i: int)
    requires
        ascending(pairs),
        0 <= i < pairs.len(),
    ensures
        ascending(pairs.remove(i)),
        as_map(pairs.remove(i)) == as_map(pairs).remove(pairs[i].0),
{
    let after = pairs.remove(i);
    assert forall|a: int, b: int| 0 <= a < b < after.len() implies text_less(
        (#[trigger] after[a]).0,
        (#[trigger] after[b]).0,
    ) by {
        let a0 = if a < i { a } else { a + 1 };
        let b0 = if b < i { b } else { b + 1 };
        assert(after[a] == pairs[a0] && after[b] == pairs[b0]);
    }
    assert forall|k: Seq<char>|
        as_map(after).contains_key(k) == as_map(pairs).remove(pairs[i].0).contains_key(k) by {
        if as_map(after).contains_key(k) {
            let j = place_of(after, k);
            let j0 = if j < i { j } else { j + 1 };
            assert(pairs[j0].0 == k);
            if k == pairs[i].0 {
                lemma_ascending_distinct(pairs, i, j0);
            }
        }
        if as_map(pairs).remove(pairs[i].0).contains_key(k) {
            let j = place_of(pairs, k);
            let j1 = if j < i { j } else { j - 1 };
            assert(after[j1].0 == k);
        }
    }
    assert forall|k: Seq<char>| as_map(after).contains_key(k) implies as_map(after)[k] == as_map(
        pairs,
    ).remove(pairs[i].0)[k] by {
        let j = place_of(after, k);
        let j0 = if j < i { j } else { j + 1 };
        lemma_as_map_at(after, j);
        assert(pairs[j0] == after[j]);
        lemma_as_map_at(pairs, j0);
    }
    assert(as_map(after) =~= as_map(pairs).remove(pairs[i].0));
}

/// Putting a pair in at its place in the order puts its entry under its key.
pub proof fn lemma_as_map_insert(pairs: Seq<Pair>, p: int, pair: Pair)
    requires
        ascending(pairs),
        0 <= p <= pairs.len(),
        forall|j: int| 0 <= j < p ==> text_less((#[trigger] pairs[j]).0, pair.0),
        forall|j: int| p <= j < pairs.len() ==> text_less(pair.0, (#[trigger] pairs[j]).0),
    ensures
        ascending(pairs.insert(p, pair)),
        as_map(pairs.insert(p, pair)) == as_map(pairs).insert(pair.0, pair.1),
{
    let after = pairs.insert(p, pair);
    assert forall|a: int, b: int| 0 <= a < b < after.len() implies text_less(
        (#[trigger] after[a]).0,
        (#[trigger] after[b]).0,
    ) by {
        let a0 = if a < p { a } else { a - 1 };
        let b0 = if b < p { b } else { b - 1 };
        if a != p {
            assert(after[a] == pairs[a0]);
        }
        if b != p {
            assert(after[b] == pairs[b0]);
        }
    }
    assert forall|k: Seq<char>|
        as_map(after).contains_key(k) == as_map(pairs).insert(pair.0, pair.1).contains_key(k) by {
        if as_map(after).contains_key(k) {
            let j = place_of(after, k);
            if j != p {
                let j0 = if j < p { j } else { j - 1 };
                assert(pairs[j0].0 == k);
            }
        }
        if as_map(pairs).contains_key(k) {
            let j = place_of(pairs, k);
            let j1 = if j < p { j } else { j + 1 };
            assert(after[j1].0 == k);
        }
        if k == pair.0 {
            assert(after[p].0 == k);
        }
    }
    assert forall|k: Seq<char>| as_map(after).contains_key(k) implies as_map(after)[k] == as_map(
        pairs,
    ).insert(pair.0, pair.1)[k] by {
        let j = place_of(after, k);
        lemma_as_map_at(after, j);
        if j != p {
            let j0 = if j < p { j } else { j - 1 };
            assert(pairs[j0] == after[j]);
            lemma_as_map_at(pairs, j0);
            lemma_text_less_irreflexive(k);
        }
    }
    assert(as_map(after) =~= as_map(pairs).insert(pair.0, pair.1));
}

/// The entries of a database by key.
pub type Entries = Map<Seq<char>, EntryView>;

/// What asking for an entry of type `T` under `key` gives: `Ok(false)` where
/// there is none, `Ok(true)` where it holds a `T`, and `WrongType` where it
/// holds another type.
pub open spec fn contains_outcome<T: Storable>(
    db: Entries,
    key: Seq<char>,
    r: Result<bool, Error>,
) -> bool {
    match r {
        Ok(found) => found == db.contains_key(key) && (found ==> T::holds(db[key].data)),
        Err(e) => db.contains_key(key) && !T::holds(db[key].data) && e@ == (ErrorView::WrongType {
            key,
        }),
    }
}

/// What failing to reach a value of type `T` under `key` gives: `NotFound`
/// where there is no entry, `WrongType` where it holds another type.
pub open spec fn missing_outcome<T: Storable>(db: Entries, key: Seq<char>, e: Error) -> bool {
    if db.contains_key(key) {
        !T::holds(db[key].data) && e@ == (ErrorView::WrongType { key })
    } else {
        e@ == (ErrorView::NotFound { key })
    }
}

/// What reading `key` as a `T` gives: the stored value, or `NotFound` or
/// `WrongType`.
pub open spec fn read_outcome<T: Storable>(db: Entries, key: Seq<char>, r: Result<T, Error>) -> bool {
    match r {
        Ok(value) => db.contains_key(key) && T::holds(db[key].data) && value.stored()
            == db[key].data,
        Err(e) => missing_outcome::<T>(db, key, e),
    }
}

/// What asking for the sequence id of `key` gives: the counter, which is at
/// least 1, or `NotFound`.
pub open spec fn sequence_id_outcome(db: Entries, key: Seq<char>, r: Result<usize, Error>) -> bool {
    match r {
        Ok(n) => db.contains_key(key) && n == db[key].sequence_id && n >= 1,
        Err(e) => !db.contains_key(key) && e@ == (ErrorView::NotFound { key }),
    }
}

/// What asking for the entry `key` itself gives: the entry, or `NotFound`.
pub open spec fn entry_outcome(db: Entries, key: Seq<char>, r: Result<&Entry, Error>) -> bool {
    match r {
        Ok(entry) => db.contains_key(key) && entry@ == db[key],
        Err(e) => !db.contains_key(key) && e@ == (ErrorView::NotFound { key }),
    }
}

/// What creating `key` with `value` gives: a new entry with the sequence id
/// 1 and a number of its own where there was none, and `AlreadyExists` with the entries unchanged
/// where there was one.
pub open spec fn create_outcome<T: Storable>(
    db: Entries,
    key: Seq<char>,
    value: T,
    r: Result<(), Error>,
    after: Entries,
) -> bool {
    match r {
        Ok(_) => !db.contains_key(key) && after.contains_key(key) && after == db.insert(
            key,
            EntryView::fresh(value.stored(), after[key].token),
        ),
        Err(e) => db.contains_key(key) && e@ == (ErrorView::AlreadyExists { key }) && after == db,
    }
}

/// What deleting `key` as a `T` gives: the stored value, and the entries
/// without `key`; or `NotFound` or `WrongType` with the entries unchanged.
pub open spec fn delete_outcome<T: Storable>(
    db: Entries,
    key: Seq<char>,
    r: Result<T, Error>,
    after: Entries,
) -> bool {
    match r {
        Ok(value) => db.contains_key(key) && T::holds(db[key].data) && value.stored()
            == db[key].data && after == db.remove(key),
        Err(e) => after == db && missing_outcome::<T>(db, key, e),
    }
}

/// What storing `value` under the existing `key` gives: the value that was
/// stored, and the entry changed once; or `NotFound` or `WrongType` with the
/// entries unchanged.
pub open spec fn update_outcome<T: Storable>(
    db: Entries,
    key: Seq<char>,
    value: T,
    r: Result<T, Error>,
    after: Entries,
) -> bool {
    match r {
        Ok(previous) => db.contains_key(key) && T::holds(db[key].data) && previous.stored()
            == db[key].data && after == db.insert(key, db[key].changed(value.stored())),
        Err(e) => after == db && missing_outcome::<T>(db, key, e),
    }
}

/// `e` says that a guard holds the entry `key`, so that a call would have to
/// wait.
pub open spec fn held_back(key: Seq<char>, e: Error) -> bool {
    e@ == (ErrorView::IsLocked { key })
}

/// What `try_contains::<T>` gives: `IsLocked` where a write guard holds the
/// entry, and else what `contains` gives.
pub open spec fn contains_attempt<T: Storable>(
    db: Entries,
    key: Seq<char>,
    r: Result<bool, Error>,
) -> bool {
    if db.contains_key(key) && db[key].writer {
        r matches Err(e) && held_back(key, e)
    } else {
        contains_outcome::<T>(db, key, r)
    }
}

/// What `try_read::<T>` gives: `IsLocked` where a write guard holds the
/// entry, and else what `read` gives.
pub open spec fn read_attempt<T: Storable>(db: Entries, key: Seq<char>, r: Result<T, Error>) -> bool {
    if db.contains_key(key) && db[key].writer {
        r matches Err(e) && held_back(key, e)
    } else {
        read_outcome(db, key, r)
    }
}

/// What `try_sequence_id` gives: `IsLocked` where a write guard holds the
/// entry, and else what `sequence_id` gives.
pub open spec fn sequence_id_attempt(db: Entries, key: Seq<char>, r: Result<usize, Error>) -> bool {
    if db.contains_key(key) && db[key].writer {
        r matches Err(e) && held_back(key, e)
    } else {
        sequence_id_outcome(db, key, r)
    }
}

/// What `try_update` gives and leaves behind: `IsLocked` without a change
/// where a guard holds the entry, and else what `update` gives.
pub open spec fn update_attempt<T: Storable>(
    db: Entries,
    key: Seq<char>,
    value: T,
    r: Result<T, Error>,
    after: Entries,
) -> bool {
    if db.contains_key(key) && !db[key].free() {
        r matches Err(e) && held_back(key, e) && after == db
    } else {
        update_outcome(db, key, value, r, after)
    }
}

/// What `try_delete::<T>` gives and leaves behind: `IsLocked` without a
/// change where a guard holds the entry, and else what `delete` gives.
pub open spec fn delete_attempt<T: Storable>(
    db: Entries,
    key: Seq<char>,
    r: Result<T, Error>,
    after: Entries,
) -> bool {
    if db.contains_key(key) && !db[key].free() {
        r matches Err(e) && held_back(key, e) && after == db
    } else {
        delete_outcome(db, key, r, after)
    }
}

/// What taking `key` for reading as a `T` gives: a guard with the stored
/// value, and the entry with one reader more; or, with the entries unchanged,
/// `NotFound`, else `IsLocked` where no reader can take the entry now, else
/// `WrongType`.
pub open spec fn read_guard_outcome<T: Storable>(
    db: Entries,
    key: Seq<char>,
    r: Result<EntryReadGuard<T>, Error>,
    after: Entries,
) -> bool {
    match r {
        Ok(guard) => db.contains_key(key) && db[key].readable() && T::holds(db[key].data)
            && guard.key() == key && guard.value().stored() == db[key].data && guard.token()
            == db[key].token && after == db.insert(key, db[key].read_locked()),
        Err(e) => after == db && if !db.contains_key(key) {
            e@ == (ErrorView::NotFound { key })
        } else if !db[key].readable() {
            e@ == (ErrorView::IsLocked { key })
        } else {
            !T::holds(db[key].data) && e@ == (ErrorView::WrongType { key })
        },
    }
}

/// What taking `key` for writing as a `T` gives: an unmodified guard with
/// the stored value, and the entry held by a writer; or, with the entries
/// unchanged, `NotFound`, else `IsLocked` where any guard holds the entry,
/// else `WrongType`.
pub open spec fn write_guard_outcome<T: Storable>(
    db: Entries,
    key: Seq<char>,
    r: Result<EntryWriteGuard<T>, Error>,
    after: Entries,
) -> bool {
    match r {
        Ok(guard) => db.contains_key(key) && db[key].free() && T::holds(db[key].data)
            && guard.key() == key && !guard.modified() && guard.value().stored() == db[key].data
            && guard.token() == db[key].token && after == db.insert(key, db[key].write_locked()),
        Err(e) => after == db && if !db.contains_key(key) {
            e@ == (ErrorView::NotFound { key })
        } else if !db[key].free() {
            e@ == (ErrorView::IsLocked { key })
        } else {
            !T::holds(db[key].data) && e@ == (ErrorView::WrongType { key })
        },
    }
}

/// The entries after a read guard on `key` ended: one reader less.
pub open spec fn read_released(db: Entries, key: Seq<char>) -> Entries {
    db.insert(key, db[key].read_unlocked())
}

/// The entries after a write guard on `key` ended: no writer, and where the
/// guard was modified, `data` stored as one change.
pub open spec fn write_released(
    db: Entries,
    key: Seq<char>,
    modified: bool,
    data: crate::value::ValueView,
) -> Entries {
    db.insert(key, db[key].write_unlocked(modified, data))
}

/// One entry as text: its key, its sequence id and a mark in place of its
/// value.
pub open spec fn entry_text(pair: Pair) -> Seq<char> {
    "(key: "@ + pair.0 + ", sequence_id: "@ + decimal(pair.1.sequence_id as nat)
        + ", value: Any { .. })"@
}

/// The entries as text: `Entries { [` the entries in the order of their keys
/// `] }`.
pub open spec fn entries_text(pairs: Seq<Pair>) -> Seq<char> {
    "Entries { ["@ + joined(pairs.map_values(|pair: Pair| entry_text(pair))) + "] }"@
}

/// The keys ascend strictly, and every entry is well formed.
pub open spec fn well_formed(pairs: Seq<Pair>) -> bool {
    &&& ascending(pairs)
    &&& forall|i: int| 0 <= i < pairs.len() ==> (#[trigger] pairs[i]).1.wf()
}

/// The keys and entries of a store as plain values.
pub closed spec fn pairs_of(storage: Seq<(String, Entry)>) -> Seq<Pair> {
    Seq::new(storage.len(), |i: int| (storage[i].0@, storage[i].1@))
}

/// The place of `key` among the keys of `storage`.
fn position(storage: &Vec<(String, Entry)>, key: &str) -> (r: Option<usize>)
    requires
        well_formed(pairs_of(storage@)),
    ensures
        match r {
            Some(i) => i < storage@.len() && storage@[i as int].0@ == key@ && as_map(
                pairs_of(storage@),
            ).contains_key(key@) && as_map(pairs_of(storage@))[key@] == storage@[i as int].1@
                && storage@[i as int].1@.wf(),
            None => !as_map(pairs_of(storage@)).contains_key(key@),
        },
{
    let ghost pairs = pairs_of(storage@);
    let wanted = key.to_owned();
    let mut i: usize = 0;
    while i < storage.len()
        invariant
            i <= storage.len(),
            wanted@ == key@,
            pairs == pairs_of(storage@),
            well_formed(pairs),
            forall|j: int| 0 <= j < i ==> (#[trigger] pairs[j]).0 != key@,
        decreases storage.len() - i,
    {
        if storage[i].0 == wanted {
            proof {
                lemma_as_map_at(pairs, i as int);
            }
            return Some(i);
        }
        i += 1;
    }
    proof {
        lemma_as_map_absent(pairs, key@);
    }
    None
}

/// The place at which `key` belongs among the keys of `storage`.
fn place_for(storage: &Vec<(String, Entry)>, key: &str) -> (p: usize)
    requires
        well_formed(pairs_of(storage@)),
        !as_map(pairs_of(storage@)).contains_key(key@),
    ensures
        p <= storage@.len(),
        forall|j: int| 0 <= j < p ==> text_less((#[trigger] pairs_of(storage@)[j]).0, key@),
        forall|j: int|
            p <= j < storage@.len() ==> text_less(key@, (#[trigger] pairs_of(storage@)[j]).0),
{
    let ghost pairs = pairs_of(storage@);
    let mut p: usize = 0;
    while p < storage.len() && is_text_less(storage[p].0.as_str(), key)
        invariant
            p <= storage.len(),
            pairs == pairs_of(storage@),
            well_formed(pairs),
            forall|j: int| 0 <= j < p ==> text_less((#[trigger] pairs[j]).0, key@),
        decreases storage.len() - p,
    {
        p += 1;
    }
    proof {
        if p < pairs.len() {
            lemma_text_less_total(pairs[p as int].0, key@);
            if pairs[p as int].0 == key@ {
                lemma_as_map_at(pairs, p as int);
            }
            assert forall|j: int| p <= j < pairs.len() implies text_less(
                key@,
                (#[trigger] pairs[j]).0,
            ) by {
                if j > p {
                    assert(text_less(pairs[p as int].0, pairs[j].0));
                    lemma_text_less_transitive(key@, pairs[p as int].0, pairs[j].0);
                }
            }
        }
    }
    p
}

/// What holds of a store in which only the entry at place `i` was replaced
/// by a well-formed entry.
proof fn lemma_entry_replaced(
    before: Seq<(String, Entry)>,
    after: Seq<(String, Entry)>,
    i: int,
)
    requires
        well_formed(pairs_of(before)),
        0 <= i < before.len(),
        after.len() == before.len(),
        after[i].0 == before[i].0,
        after[i].1@.wf(),
        forall|j: int| 0 <= j < before.len() && j != i ==> after[j] == before[j],
    ensures
        well_formed(pairs_of(after)),
        as_map(pairs_of(after)) == as_map(pairs_of(before)).insert(before[i].0@, after[i].1@),
{
    let pairs = pairs_of(before);
    let entry = after[i].1@;
    assert(pairs_of(after) =~= pairs.update(i, (pairs[i].0, entry)));
    lemma_as_map_update(pairs, i, entry);
    assert forall|j: int| 0 <= j < pairs_of(after).len() implies (#[trigger] pairs_of(
        after,
    )[j]).1.wf() by {
        if j != i {
            assert(pairs_of(after)[j] == pairs[j]);
        }
    }
}

/// A store without entries.
fn no_entries() -> (storage: Vec<(String, Entry)>)
    ensures
        storage@.len() == 0,
        well_formed(pairs_of(storage@)),
{
    Vec::new()
}

/// The entries of one board by key.
#[derive(Debug)]
pub struct Database {
    storage: Vec<(String, Entry)>,
}

impl View for Database {
    type V = Map<Seq<char>, EntryView>;

    open spec fn view(&self) -> Map<Seq<char>, EntryView> {
        as_map(self.listing())
    }
}

impl Default for Database {
    fn default() -> (db: Database)
        ensures
            db.listing() == Seq::<Pair>::empty(),
            db@ == Map::<Seq<char>, EntryView>::empty(),
    {
        let db = Database { storage: no_entries() };
        assert(db.listing() =~= Seq::<Pair>::empty());
        assert(db@ =~= Map::<Seq<char>, EntryView>::empty());
        db
    }
}

impl Database {
    /// The keys with their entries, in the order of the keys.
    pub closed spec fn listing(&self) -> Seq<Pair> {
        pairs_of(self.storage@)
    }

    /// What every database keeps to.
    #[verifier::type_invariant]
    closed spec fn wf(&self) -> bool {
        well_formed(pairs_of(self.storage@))
    }

    /// States what holds of every database: its keys ascend strictly, and
    /// every entry is well formed. The call does nothing else.
    pub fn validity(&self)
        ensures
            well_formed(self.listing()),
            forall|key: Seq<char>| #[trigger] self@.contains_key(key) ==> self@[key].wf(),
    {
        proof {
            use_type_invariant(self);
            let pairs = self.listing();
            assert forall|key: Seq<char>| #[trigger] self@.contains_key(key) implies self@[key].wf() by {
                lemma_as_map_at(pairs, place_of(pairs, key));
            }
        }
    }

    /// The number of entries.
    pub fn len(&self) -> (n: usize)
        ensures
            n == self.listing().len(),
    {
        self.storage.len()
    }

    /// The key and the entry at place `i` of the listing.
    pub fn at(&self, i: usize) -> (r: (&str, &Entry))
        requires
            i < self.listing().len(),
        ensures
            r.0@ == self.listing()[i as int].0,
            r.1@ == self.listing()[i as int].1,
    {
        (self.storage[i].0.as_str(), &self.storage[i].1)
    }

    /// Whether there is an entry under `key`.
    pub fn contains_key(&self, key: &str) -> (r: bool)
        ensures
            r == self@.contains_key(key@),
    {
        proof {
            use_type_invariant(self);
        }
        position(&self.storage, key).is_some()
    }

    /// Whether there is an entry under `key`, which must then hold a `T`.
    /// Where a write guard holds the entry, the call fails with `IsLocked`.
    pub fn try_contains<T: Storable>(&self, key: &str) -> (r: Result<bool, Error>)
        ensures
            contains_attempt::<T>(self@, key@, r),
    {
        proof {
            use_type_invariant(self);
        }
        match position(&self.storage, key) {
            Some(i) => {
                if self.storage[i].1.is_write_locked() {
                    return Err(Error::is_locked(key));
                }
                if self.storage[i].1.holds::<T>() {
                    Ok(true)
                } else {
                    Err(Error::wrong_type(key))
                }
            },
            None => Ok(false),
        }
    }

    /// Whether there is an entry under `key`, which must then hold a `T`:
    /// `Ok(false)` where there is none, `WrongType` where it holds another
    /// type.
    ///
    /// The caller sees to it that no write guard holds the entry: the call
    /// would wait for the guard.
    pub fn contains<T: Storable>(&self, key: &str) -> (r: Result<bool, Error>)
        requires
            self@.contains_key(key@) ==> !self@[key@].writer,
        ensures
            contains_outcome::<T>(self@, key@, r),
    {
        self.try_contains::<T>(key)
    }

    /// Creates the entry `key` with `value` and the sequence id 1. A key that
    /// has an entry keeps it, and the call fails with `AlreadyExists`.
    pub fn create<T: Storable>(&mut self, key: &str, value: T) -> (r: Result<(), Error>)
        ensures
            create_outcome(old(self)@, key@, value, r, final(self)@),
    {
        proof {
            use_type_invariant(&*self);
        }
        if position(&self.storage, key).is_some() {
            return Err(Error::already_exists(key));
        }
        let p = place_for(&self.storage, key);
        let mut storage = no_entries();
        std::mem::swap(&mut storage, &mut self.storage);
        let ghost before = pairs_of(storage@);
        storage.insert(p, (key.to_owned(), Entry::new(value)));
        proof {
            let pair = storage@[p as int];
            let pair = (key@, pair.1@);
            let after = pairs_of(storage@);
            assert(after =~= before.insert(p as int, pair));
            lemma_as_map_insert(before, p as int, pair);
            assert forall|i: int| 0 <= i < after.len() implies (#[trigger] after[i]).1.wf() by {
                if i != p {
                    let i0 = if i < p { i } else { i - 1 };
                    assert(after[i] == before[i0]);
                }
            }
        }
        self.storage = storage;
        Ok(())
    }

    /// Takes the entry `key` out and hands back its value as a `T`, as
    /// `delete` does. Where a guard holds the entry, the call fails with
    /// `IsLocked` and changes nothing.
    pub fn try_delete<T: Storable>(&mut self, key: &str) -> (r: Result<T, Error>)
        ensures
            delete_attempt(old(self)@, key@, r, final(self)@),
    {
        proof {
            use_type_invariant(&*self);
        }
        match position(&self.storage, key) {
            Some(i) => {
                if self.storage[i].1.is_locked() {
                    return Err(Error::is_locked(key));
                }
                match self.storage[i].1.read::<T>() {
                    Some(value) => {
                        let mut storage = no_entries();
                        std::mem::swap(&mut storage, &mut self.storage);
                        let ghost before = pairs_of(storage@);
                        let _ = storage.remove(i);
                        proof {
                            let after = pairs_of(storage@);
                            assert(after =~= before.remove(i as int));
                            lemma_as_map_remove(before, i as int);
                            assert forall|j: int| 0 <= j < after.len() implies (
                            #[trigger] after[j]).1.wf() by {
                                let j0 = if j < i { j } else { j + 1 };
                                assert(after[j] == before[j0]);
                            }
                        }
                        self.storage = storage;
                        Ok(value)
                    },
                    None => Err(Error::wrong_type(key)),
                }
            },
            None => Err(Error::not_found(key)),
        }
    }

    /// Takes the entry `key` out and hands back its value as a `T`. Fails
    /// with `NotFound` where there is no entry and with `WrongType` where it
    /// holds another type; a failure leaves the database as it was.
    ///
    /// The caller sees to it that no guard holds the entry: the call would
    /// wait for the guard.
    pub fn delete<T: Storable>(&mut self, key: &str) -> (r: Result<T, Error>)
        requires
            old(self)@.contains_key(key@) ==> old(self)@[key@].free(),
        ensures
            delete_outcome(old(self)@, key@, r, final(self)@),
    {
        self.try_delete::<T>(key)
    }

    /// The entry under `key` as it stands: its value, its counter and the
    /// state of its lock.
    pub fn entry(&self, key: &str) -> (r: Result<&Entry, Error>)
        ensures
            entry_outcome(self@, key@, r),
    {
        proof {
            use_type_invariant(self);
        }
        match position(&self.storage, key) {
            Some(i) => Ok(&self.storage[i].1),
            None => Err(Error::not_found(key)),
        }
    }

    /// A copy of the value under `key` as a `T`, as `read` gives it. Where a
    /// write guard holds the entry, the call fails with `IsLocked`.
    pub fn try_read<T: Storable>(&self, key: &str) -> (r: Result<T, Error>)
        ensures
            read_attempt(self@, key@, r),
    {
        proof {
            use_type_invariant(self);
        }
        match position(&self.storage, key) {
            Some(i) => {
                if self.storage[i].1.is_write_locked() {
                    return Err(Error::is_locked(key));
                }
                match self.storage[i].1.read::<T>() {
                    Some(value) => Ok(value),
                    None => Err(Error::wrong_type(key)),
                }
            },
            None => Err(Error::not_found(key)),
        }
    }

    /// A copy of the value under `key` as a `T`. Fails with `NotFound` where
    /// there is no entry and with `WrongType` where it holds another type.
    ///
    /// The caller sees to it that no write guard holds the entry: the call
    /// would wait for the guard.
    pub fn read<T: Storable>(&self, key: &str) -> (r: Result<T, Error>)
        requires
            self@.contains_key(key@) ==> !self@[key@].writer,
        ensures
            read_outcome(self@, key@, r),
    {
        self.try_read::<T>(key)
    }

    /// The sequence id of the entry under `key`, as `sequence_id` gives it.
    /// Where a write guard holds the entry, the call fails with `IsLocked`.
    pub fn try_sequence_id(&self, key: &str) -> (r: Result<usize, Error>)
        ensures
            sequence_id_attempt(self@, key@, r),
    {
        proof {
            use_type_invariant(self);
        }
        match position(&self.storage, key) {
            Some(i) => {
                if self.storage[i].1.is_write_locked() {
                    return Err(Error::is_locked(key));
                }
                Ok(self.storage[i].1.sequence_id())
            },
            None => Err(Error::not_found(key)),
        }
    }

    /// The sequence id of the entry under `key`; `NotFound` where there is
    /// none.
    ///
    /// The caller sees to it that no write guard holds the entry: the call
    /// would wait for the guard.
    pub fn sequence_id(&self, key: &str) -> (r: Result<usize, Error>)
        requires
            self@.contains_key(key@) ==> !self@[key@].writer,
        ensures
            sequence_id_outcome(self@, key@, r),
    {
        self.try_sequence_id(key)
    }

    /// Stores `value` under `key` as `update` does. Where a guard holds the
    /// entry, the call fails with `IsLocked` and changes nothing.
    pub fn try_update<T: Storable>(&mut self, key: &str, value: T) -> (r: Result<T, Error>)
        ensures
            update_attempt(old(self)@, key@, value, r, final(self)@),
    {
        proof {
            use_type_invariant(&*self);
        }
        match position(&self.storage, key) {
            Some(i) => {
                if self.storage[i].1.is_locked() {
                    return Err(Error::is_locked(key));
                }
                {
                    let mut storage = no_entries();
                    std::mem::swap(&mut storage, &mut self.storage);
                    let ghost before = storage@;
                    let r = storage[i].1.update(value);
                    proof {
                        lemma_entry_replaced(before, storage@, i as int);
                        if r is None {
                            assert(as_map(pairs_of(storage@)) =~= as_map(pairs_of(before)));
                        }
                    }
                    self.storage = storage;
                    match r {
                        Some(previous) => Ok(previous),
                        None => Err(Error::wrong_type(key)),
                    }
                }
            },
            None => Err(Error::not_found(key)),
        }
    }

    /// Stores `value` under `key` in place of a value of the same type, moves
    /// the sequence id on by one and hands the old value back. Fails with
    /// `NotFound` where there is no entry and with `WrongType` where it holds
    /// another type; a failure leaves the database as it was.
    ///
    /// The caller sees to it that no guard holds the entry: the call would
    /// wait for the guard.
    pub fn update<T: Storable>(&mut self, key: &str, value: T) -> (r: Result<T, Error>)
        requires
            old(self)@.contains_key(key@) ==> old(self)@[key@].free(),
        ensures
            update_outcome(old(self)@, key@, value, r, final(self)@),
    {
        self.try_update(key, value)
    }

    /// Takes the entry under `key` for reading now. Fails with `NotFound`
    /// where there is no entry, with `IsLocked` where a writer holds it or no
    /// further reader can be counted, and with `WrongType` where it holds
    /// another type; a failure leaves the database as it was.
    pub fn try_get_ref<T: Storable>(&mut self, key: &str) -> (r: Result<EntryReadGuard<T>, Error>)
        ensures
            read_guard_outcome(old(self)@, key@, r, final(self)@),
            r matches Ok(guard) ==> guard.board() == 0,
    {
        proof {
            use_type_invariant(&*self);
        }
        match position(&self.storage, key) {
            Some(i) => {
                let mut storage = no_entries();
                std::mem::swap(&mut storage, &mut self.storage);
                let ghost before = storage@;
                let r = EntryReadGuard::try_new(key, &mut storage[i].1);
                proof {
                    lemma_entry_replaced(before, storage@, i as int);
                    if r is Err {
                        assert(as_map(pairs_of(storage@)) =~= as_map(pairs_of(before)));
                    }
                }
                self.storage = storage;
                r
            },
            None => Err(Error::not_found(key)),
        }
    }

    /// Takes the entry under `key` for reading. Fails with `NotFound` where
    /// there is no entry and with `WrongType` where it holds another type; a
    /// failure leaves the database as it was.
    ///
    /// The caller sees to it that a reader can take the entry: where a writer
    /// holds it, the call would wait for the writer.
    pub fn get_ref<T: Storable>(&mut self, key: &str) -> (r: Result<EntryReadGuard<T>, Error>)
        requires
            old(self)@.contains_key(key@) ==> old(self)@[key@].readable(),
        ensures
            read_guard_outcome(old(self)@, key@, r, final(self)@),
            r matches Ok(guard) ==> guard.board() == 0,
    {
        self.try_get_ref(key)
    }

    /// Ends a read guard of this database: its entry has one reader less.
    pub fn release_ref<T: Storable>(&mut self, guard: EntryReadGuard<T>)
        requires
            old(self)@.contains_key(guard.key()),
            guard.holds(old(self)@[guard.key()]),
        ensures
            final(self)@ == read_released(old(self)@, guard.key()),
    {
        proof {
            use_type_invariant(&*self);
        }
        match position(&self.storage, guard.entry_key()) {
            Some(i) => {
                let mut storage = no_entries();
                std::mem::swap(&mut storage, &mut self.storage);
                let ghost before = storage@;
                guard.release(&mut storage[i].1);
                proof {
                    lemma_entry_replaced(before, storage@, i as int);
                }
                self.storage = storage;
            },
            None => {},
        }
    }

    /// Takes the entry under `key` for writing now. Fails with `NotFound`
    /// where there is no entry, with `IsLocked` where any guard holds it, and
    /// with `WrongType` where it holds another type; a failure leaves the
    /// database as it was.
    pub fn try_get_mut_ref<T: Storable>(&mut self, key: &str) -> (r: Result<
        EntryWriteGuard<T>,
        Error,
    >)
        ensures
            write_guard_outcome(old(self)@, key@, r, final(self)@),
            r matches Ok(guard) ==> guard.board() == 0,
    {
        proof {
            use_type_invariant(&*self);
        }
        match position(&self.storage, key) {
            Some(i) => {
                let mut storage = no_entries();
                std::mem::swap(&mut storage, &mut self.storage);
                let ghost before = storage@;
                let r = EntryWriteGuard::try_new(key, &mut storage[i].1);
                proof {
                    lemma_entry_replaced(before, storage@, i as int);
                    if r is Err {
                        assert(as_map(pairs_of(storage@)) =~= as_map(pairs_of(before)));
                    }
                }
                self.storage = storage;
                r
            },
            None => Err(Error::not_found(key)),
        }
    }

    /// Takes the entry under `key` for writing. Fails with `NotFound` where
    /// there is no entry and with `WrongType` where it holds another type; a
    /// failure leaves the database as it was.
    ///
    /// The caller sees to it that no guard holds the entry: the call would
    /// wait for the guard.
    pub fn get_mut_ref<T: Storable>(&mut self, key: &str) -> (r: Result<EntryWriteGuard<T>, Error>)
        requires
            old(self)@.contains_key(key@) ==> old(self)@[key@].free(),
        ensures
            write_guard_outcome(old(self)@, key@, r, final(self)@),
            r matches Ok(guard) ==> guard.board() == 0,
    {
        self.try_get_mut_ref(key)
    }

    /// Ends a write guard of this database. A modified guard stores its value
    /// and moves the sequence id on by one; an unmodified guard leaves value
    /// and sequence id as they are.
    pub fn release_mut<T: Storable>(&mut self, guard: EntryWriteGuard<T>)
        requires
            old(self)@.contains_key(guard.key()),
            guard.holds(old(self)@[guard.key()]),
        ensures
            final(self)@ == write_released(
                old(self)@,
                guard.key(),
                guard.modified(),
                guard.value().stored(),
            ),
    {
        proof {
            use_type_invariant(&*self);
        }
        match position(&self.storage, guard.entry_key()) {
            Some(i) => {
                let mut storage = no_entries();
                std::mem::swap(&mut storage, &mut self.storage);
                let ghost before = storage@;
                guard.release(&mut storage[i].1);
                proof {
                    lemma_entry_replaced(before, storage@, i as int);
                }
                self.storage = storage;
            },
            None => {},
        }
    }

    /// The database as text: `Entries { [(key: k, sequence_id: n, value: Any
    /// { .. }), ...] }`, the entries in the order of their keys.
    pub fn debug_string(&self) -> (r: String)
        ensures
            r@ == entries_text(self.listing()),
    {
        let mut list = String::from_str("");
        let ghost mut items: Seq<Seq<char>> = Seq::empty();
        proof {
            reveal_strlit("");
            assert(list@ =~= joined(items));
        }
        let mut i: usize = 0;
        while i < self.storage.len()
            invariant
                i <= self.storage.len(),
                items == self.listing().take(i as int).map_values(|pair: Pair| entry_text(pair)),
                list@ == joined(items),
            decreases self.storage.len() - i,
        {
            let mut item = String::from_str("(key: ");
            item.append(self.storage[i].0.as_str());
            item.append(", sequence_id: ");
            item.append(to_decimal(self.storage[i].1.sequence_id()).as_str());
            item.append(", value: Any { .. })");
            assert(item@ =~= entry_text(self.listing()[i as int]));
            join_next(&mut list, i, item.as_str(), Ghost(items));
            proof {
                items = items.push(item@);
                assert(items =~= self.listing().take(i + 1).map_values(
                    |pair: Pair| entry_text(pair),
                ));
            }
            i += 1;
        }
        assert(self.listing().take(i as int) =~= self.listing());
        let mut r = String::from_str("Entries { [");
        r.append(list.as_str());
        r.append("] }");
        r
    }
}

} // verus!
