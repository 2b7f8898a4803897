//! The boards and the routing of keys between them.
//!
//! A [`Hierarchy`] holds a set of boards. Each board has a database
//! of its own and may have a parent, a table of remapping rules and the
//! autoremap flag; a [`DataboardPtr`] names one board. Every operation takes
//! the board on which it is asked and a key, finds the board and the key that
//! the question is about ([`resolve`]), and then works on that board's
//! database.

use vstd::prelude::*;
use vstd::string::StringExecFns;
use crate::database::{
    as_map, contains_outcome, delete_outcome, entries_text, entry_outcome, lemma_as_map_at,
    place_of, read_guard_outcome, read_outcome, read_released, sequence_id_outcome, well_formed,
    write_guard_outcome, write_released, Database, Entries, Pair,
};
use crate::entry::{Entry, EntryReadGuard, EntryView, EntryWriteGuard};
use crate::error::{Error, ErrorView};
use crate::key::{
    board_pointer, check_local_key, check_top_level_key, key_name, pointer_name, starts_with,
    strip_board_pointer,
};
use crate::remappings::{table_text, target_of, Remappings, Rule};
use crate::value::Storable;

verus! {

/// One board as plain values.
pub struct BoardView {
    /// The entries of the board by key.
    pub database: Map<Seq<char>, EntryView>,
    /// The index of the parent board.
    pub parent: Option<int>,
    /// The remapping rules.
    pub remappings: Seq<Rule>,
    /// Whether keys without a rule are looked up on the parent.
    pub autoremap: bool,
}

/// Where a key leads.
pub enum RouteView {
    /// To the entry `key` of the board with index `board`. `plain` says that
    /// the last step took a key without the `_` prefix: only then may a
    /// missing entry be created.
    At { board: int, key: Seq<char>, plain: bool },
    /// Nowhere: the rule of `key` gives the constant `value`.
    Assignment { key: Seq<char>, value: Seq<char> },
    /// Nowhere: the rule of `key` points to `remapped` on the parent of a
    /// board that has none.
    NoParent { key: Seq<char>, remapped: Seq<char> },
}

/// Every parent comes before its child, so the chain of parents ends.
pub open spec fn parents_first(boards: Seq<BoardView>) -> bool {
    forall|b: int|
        0 <= b < boards.len() ==> match (#[trigger] boards[b]).parent {
            Some(p) => 0 <= p < b,
            None => true,
        }
}

/// The farthest ancestor of board `b`, which is `b` itself where it has no
/// parent.
pub open spec fn root_of(boards: Seq<BoardView>, b: int) -> int
    decreases b,
{
    match boards[b].parent {
        Some(p) => if 0 <= p < b {
            root_of(boards, p)
        } else {
            b
        },
        None => b,
    }
}

/// The route leads to an entry that exists.
pub open spec fn present(boards: Seq<BoardView>, route: RouteView) -> bool {
    match route {
        RouteView::At { board, key, .. } => 0 <= board < boards.len()
            && boards[board].database.contains_key(key),
        _ => false,
    }
}

/// The route is settled: it leads to an entry that exists, or it leads
/// nowhere. A route that is not settled ends at an entry that is missing.
pub open spec fn settled(boards: Seq<BoardView>, route: RouteView) -> bool {
    present(boards, route) || !(route is At)
}

/// Where `key` leads when it is asked on board `b`.
///
/// - `@name` leads where `name` leads on the root of `b`.
/// - `_name` leads to the entry `name` of `b` itself.
/// - A key with a rule leads where the rule's target says: a board pointer
///   leads where its name leads on the parent, and fails with `NoParent`
///   where there is no parent; a constant fails with `Assignment`.
/// - Any other key leads where it leads on the parent, if `b` has the
///   autoremap flag and a parent and the key's route from the parent is
///   settled: it ends at an existing entry, or it fails with `Assignment`
///   or `NoParent`, and then it fails so on `b` too. A key whose route from
///   the parent ends at a missing entry, and any key on a board without the
///   flag or without a parent, leads to the entry of that name of `b`
///   itself.
///
/// Among boards that are not `parents_first` a step to a parent that does
/// not come before its child ends the route on `b`; no hierarchy holds such
/// boards.
pub open spec fn resolve(boards: Seq<BoardView>, b: int, key: Seq<char>) -> RouteView
    decreases b, key.len(),
{
    if starts_with(key, '@') {
        if 0 <= root_of(boards, b) <= b {
            resolve(boards, root_of(boards, b), key_name(key))
        } else {
            RouteView::At { board: b, key, plain: true }
        }
    } else if starts_with(key, '_') {
        RouteView::At { board: b, key: key_name(key), plain: false }
    } else {
        match target_of(boards[b].remappings, key) {
            Some(target) => if board_pointer(target) {
                match boards[b].parent {
                    Some(p) => if 0 <= p < b {
                        resolve(boards, p, pointer_name(target))
                    } else {
                        RouteView::At { board: b, key, plain: true }
                    },
                    None => RouteView::NoParent { key, remapped: pointer_name(target) },
                }
            } else {
                RouteView::Assignment { key, value: target }
            },
            None => match boards[b].parent {
                Some(p) => if 0 <= p < b && boards[b].autoremap && settled(
                    boards,
                    resolve(boards, p, key),
                ) {
                    resolve(boards, p, key)
                } else {
                    RouteView::At { board: b, key, plain: true }
                },
                None => RouteView::At { board: b, key, plain: true },
            },
        }
    }
}

/// The root of a board is a board, not later than the board itself, and has
/// no parent.
pub proof fn lemma_root_of(boards: Seq<BoardView>, b: int)
    requires
        parents_first(boards),
        0 <= b < boards.len(),
    ensures
        0 <= root_of(boards, b) <= b,
        boards[root_of(boards, b)].parent is None,
        root_of(boards, root_of(boards, b)) == root_of(boards, b),
    decreases b,
{
    match boards[b].parent {
        Some(p) => {
            lemma_root_of(boards, p);
        },
        None => {},
    }
}

/// A route that leads to an entry leads to a board of the hierarchy.
pub proof fn lemma_resolve_in_range(boards: Seq<BoardView>, b: int, key: Seq<char>)
    requires
        parents_first(boards),
        0 <= b < boards.len(),
    ensures
        resolve(boards, b, key) matches RouteView::At { board, .. } ==> 0 <= board <= b,
    decreases b, key.len(),
{
    if starts_with(key, '@') {
        lemma_root_of(boards, b);
        lemma_resolve_in_range(boards, root_of(boards, b), key_name(key));
    } else if starts_with(key, '_') {
    } else {
        match target_of(boards[b].remappings, key) {
            Some(target) => {
                if board_pointer(target) {
                    match boards[b].parent {
                        Some(p) => {
                            lemma_resolve_in_range(boards, p, pointer_name(target));
                        },
                        None => {},
                    }
                }
            },
            None => {
                match boards[b].parent {
                    Some(p) => {
                        lemma_resolve_in_range(boards, p, key);
                    },
                    None => {},
                }
            },
        }
    }
}

/// The boards with `db` as the database of board `t`.
pub open spec fn with_database(boards: Seq<BoardView>, t: int, db: Entries) -> Seq<BoardView> {
    boards.update(t, BoardView { database: db, ..boards[t] })
}

/// The entry to which `key` leads from board `b`, if it exists.
pub open spec fn target(boards: Seq<BoardView>, b: int, key: Seq<char>) -> Option<EntryView> {
    match resolve(boards, b, key) {
        RouteView::At { board, key: k, .. } => if present(boards, resolve(boards, b, key)) {
            Some(boards[board].database[k])
        } else {
            None
        },
        _ => None,
    }
}

/// A write guard holds the entry to which `key` leads from board `b`.
pub open spec fn held_by_writer(boards: Seq<BoardView>, b: int, key: Seq<char>) -> bool {
    target(boards, b, key) matches Some(entry) && entry.writer
}

/// Some guard holds the entry to which `key` leads from board `b`.
pub open spec fn held(boards: Seq<BoardView>, b: int, key: Seq<char>) -> bool {
    target(boards, b, key) matches Some(entry) && !entry.free()
}

/// `e` is the error of a call that would have to wait for a guard: `IsLocked`
/// with the key of the entry.
pub open spec fn would_wait(boards: Seq<BoardView>, b: int, key: Seq<char>, e: Error) -> bool {
    resolve(boards, b, key) matches RouteView::At { key: k, .. } && e@ == (ErrorView::IsLocked {
        key: k,
    })
}

/// What `try_contains::<T>` gives: `Ok(false)` for a board that is not there,
/// `IsLocked` where a write guard holds the entry, and else what `contains`
/// gives.
pub open spec fn contains_now<T: Storable>(
    boards: Seq<BoardView>,
    b: int,
    key: Seq<char>,
    r: Result<bool, Error>,
) -> bool {
    if !(0 <= b < boards.len()) {
        r == Ok::<bool, Error>(false)
    } else if held_by_writer(boards, b, key) {
        r matches Err(e) && would_wait(boards, b, key, e)
    } else {
        contains_routed::<T>(boards, b, key, r)
    }
}

/// What `try_get::<T>` gives: `NotFound` for a board that is not there,
/// `IsLocked` where a write guard holds the entry, and else what `get` gives.
pub open spec fn get_now<T: Storable>(
    boards: Seq<BoardView>,
    b: int,
    key: Seq<char>,
    r: Result<T, Error>,
) -> bool {
    if !(0 <= b < boards.len()) {
        r matches Err(e) && e@ == (ErrorView::NotFound { key })
    } else if held_by_writer(boards, b, key) {
        r matches Err(e) && would_wait(boards, b, key, e)
    } else {
        get_routed(boards, b, key, r)
    }
}

/// What `try_sequence_id` gives: `NotFound` for a board that is not there,
/// `IsLocked` where a write guard holds the entry, and else what
/// `sequence_id` gives.
pub open spec fn sequence_id_now(
    boards: Seq<BoardView>,
    b: int,
    key: Seq<char>,
    r: Result<usize, Error>,
) -> bool {
    if !(0 <= b < boards.len()) {
        r matches Err(e) && e@ == (ErrorView::NotFound { key })
    } else if held_by_writer(boards, b, key) {
        r matches Err(e) && would_wait(boards, b, key, e)
    } else {
        sequence_id_routed(boards, b, key, r)
    }
}

/// What `try_set` gives and leaves behind: `NotFound` for a board that is
/// not there and `IsLocked` where a guard holds the entry, both without a
/// change, and else what `set` gives.
pub open spec fn set_now<T: Storable>(
    boards: Seq<BoardView>,
    b: int,
    key: Seq<char>,
    value: T,
    r: Result<Option<T>, Error>,
    after: Seq<BoardView>,
) -> bool {
    if !(0 <= b < boards.len()) {
        r matches Err(e) && e@ == (ErrorView::NotFound { key }) && after == boards
    } else if held(boards, b, key) {
        r matches Err(e) && would_wait(boards, b, key, e) && after == boards
    } else {
        set_routed(boards, b, key, value, r, after)
    }
}

/// What `try_store` gives and leaves behind: where a guard holds the entry,
/// the value comes back and nothing changes; else what `try_set` gives.
pub open spec fn store_now<T: Storable>(
    boards: Seq<BoardView>,
    b: int,
    key: Seq<char>,
    value: T,
    r: Result<Result<Option<T>, Error>, T>,
    after: Seq<BoardView>,
) -> bool {
    match r {
        Ok(stored) => !(0 <= b < boards.len() && held(boards, b, key)) && set_now(
            boards,
            b,
            key,
            value,
            stored,
            after,
        ),
        Err(back) => 0 <= b < boards.len() && held(boards, b, key) && back == value && after
            == boards,
    }
}

/// What `try_delete::<T>` gives and leaves behind: `NotFound` for a board
/// that is not there and `IsLocked` where a guard holds the entry, both
/// without a change, and else what `delete` gives.
pub open spec fn delete_now<T: Storable>(
    boards: Seq<BoardView>,
    b: int,
    key: Seq<char>,
    r: Result<T, Error>,
    after: Seq<BoardView>,
) -> bool {
    if !(0 <= b < boards.len()) {
        r matches Err(e) && e@ == (ErrorView::NotFound { key }) && after == boards
    } else if held(boards, b, key) {
        r matches Err(e) && would_wait(boards, b, key, e) && after == boards
    } else {
        delete_routed(boards, b, key, r, after)
    }
}

/// What `try_entry` gives: `NotFound` for a board that is not there, and
/// else a copy of the entry at the end of the route under a number of its
/// own, `NotFound` where it is
/// missing, or the error of a route that leads nowhere.
pub open spec fn entry_now(
    boards: Seq<BoardView>,
    b: int,
    key: Seq<char>,
    r: Result<Entry, Error>,
) -> bool {
    if !(0 <= b < boards.len()) {
        r matches Err(e) && e@ == (ErrorView::NotFound { key })
    } else {
        match resolve(boards, b, key) {
            RouteView::At { board, key: k, .. } => match r {
                Ok(entry) => boards[board].database.contains_key(k) && entry@
                    == boards[board].database[k].numbered(entry@.token),
                Err(e) => !boards[board].database.contains_key(k) && e@ == (ErrorView::NotFound {
                    key: k,
                }),
            },
            route => r matches Err(e) && route_failure(route, e),
        }
    }
}

/// What `try_get_ref::<T>` gives and leaves behind: `NotFound` without a
/// change for a board that is not there, and else what the database at the
/// end of the route gives.
pub open spec fn read_guard_now<T: Storable>(
    boards: Seq<BoardView>,
    b: int,
    key: Seq<char>,
    r: Result<EntryReadGuard<T>, Error>,
    after: Seq<BoardView>,
) -> bool {
    if !(0 <= b < boards.len()) {
        r matches Err(e) && e@ == (ErrorView::NotFound { key }) && after == boards
    } else {
        read_guard_routed(boards, b, key, r, after)
    }
}

/// What `try_get_mut_ref::<T>` gives and leaves behind: `NotFound` without
/// a change for a board that is not there, and else what the database at the
/// end of the route gives.
pub open spec fn write_guard_now<T: Storable>(
    boards: Seq<BoardView>,
    b: int,
    key: Seq<char>,
    r: Result<EntryWriteGuard<T>, Error>,
    after: Seq<BoardView>,
) -> bool {
    if !(0 <= b < boards.len()) {
        r matches Err(e) && e@ == (ErrorView::NotFound { key }) && after == boards
    } else {
        write_guard_routed(boards, b, key, r, after)
    }
}

/// The read guard can be handed back to the boards: its board is there, and
/// readers hold its entry.
pub open spec fn read_guard_fits<T: Storable>(
    boards: Seq<BoardView>,
    guard: EntryReadGuard<T>,
) -> bool {
    &&& 0 <= guard.board() < boards.len()
    &&& boards[guard.board() as int].database.contains_key(guard.key())
    &&& guard.holds(boards[guard.board() as int].database[guard.key()])
}

/// The write guard can be handed back to the boards: its board is there, and
/// a writer holds its entry, which has a value of the guard's type.
pub open spec fn write_guard_fits<T: Storable>(
    boards: Seq<BoardView>,
    guard: EntryWriteGuard<T>,
) -> bool {
    &&& 0 <= guard.board() < boards.len()
    &&& boards[guard.board() as int].database.contains_key(guard.key())
    &&& guard.holds(boards[guard.board() as int].database[guard.key()])
}

/// The boards after a read guard was handed back.
pub open spec fn after_read_guard<T: Storable>(
    boards: Seq<BoardView>,
    guard: EntryReadGuard<T>,
) -> Seq<BoardView> {
    with_database(
        boards,
        guard.board() as int,
        read_released(boards[guard.board() as int].database, guard.key()),
    )
}

/// The boards after a write guard was handed back.
pub open spec fn after_write_guard<T: Storable>(
    boards: Seq<BoardView>,
    guard: EntryWriteGuard<T>,
) -> Seq<BoardView> {
    with_database(
        boards,
        guard.board() as int,
        write_released(
            boards[guard.board() as int].database,
            guard.key(),
            guard.modified(),
            guard.value().stored(),
        ),
    )
}

/// What `try_release_ref` gives and leaves behind: a guard that fits is
/// taken, and its entry has one reader less; a guard that does not fit comes
/// back, and nothing changes.
pub open spec fn read_release_now<T: Storable>(
    boards: Seq<BoardView>,
    guard: EntryReadGuard<T>,
    r: Result<(), EntryReadGuard<T>>,
    after: Seq<BoardView>,
) -> bool {
    match r {
        Ok(_) => read_guard_fits(boards, guard) && after == after_read_guard(boards, guard),
        Err(same) => !read_guard_fits(boards, guard) && same == guard && after == boards,
    }
}

/// What `try_release_mut` gives and leaves behind: a guard that fits is
/// taken, and its entry has no writer and, where the guard was modified, the
/// guard's value as one change; a guard that does not fit comes back, and
/// nothing changes.
pub open spec fn write_release_now<T: Storable>(
    boards: Seq<BoardView>,
    guard: EntryWriteGuard<T>,
    r: Result<(), EntryWriteGuard<T>>,
    after: Seq<BoardView>,
) -> bool {
    match r {
        Ok(_) => write_guard_fits(boards, guard) && after == after_write_guard(boards, guard),
        Err(same) => !write_guard_fits(boards, guard) && same == guard && after == boards,
    }
}

/// What `try_debug_string` gives: the text of board `b`, and no text for a
/// board that is not there.
pub open spec fn text_now(
    boards: Seq<BoardView>,
    listings: Seq<Seq<Pair>>,
    b: int,
    text: Seq<char>,
) -> bool {
    if 0 <= b < boards.len() {
        text == board_text(boards, listings, b)
    } else {
        text == Seq::<char>::empty()
    }
}

/// `e` is the error of a route that leads nowhere: `Assignment` for a
/// constant, `NoParent` for a pointer without a parent.
pub open spec fn route_failure(route: RouteView, e: Error) -> bool {
    match route {
        RouteView::Assignment { key, value } => e@ == (ErrorView::Assignment { key, value }),
        RouteView::NoParent { key, remapped } => e@ == (ErrorView::NoParent { key, remapped }),
        RouteView::At { .. } => false,
    }
}

/// What `contains::<T>` gives on board `b`: what the database at the end of
/// the route gives; `Ok(false)` where the rule gives a constant; `NoParent`
/// where the rule needs a parent that is not there.
pub open spec fn contains_routed<T: Storable>(
    boards: Seq<BoardView>,
    b: int,
    key: Seq<char>,
    r: Result<bool, Error>,
) -> bool {
    match resolve(boards, b, key) {
        RouteView::At { board, key: k, .. } => contains_outcome::<T>(boards[board].database, k, r),
        RouteView::Assignment { .. } => r == Ok::<bool, Error>(false),
        route => r matches Err(e) && route_failure(route, e),
    }
}

/// What `get::<T>` gives on board `b`: what reading gives in the database at
/// the end of the route, or the error of a route that leads nowhere.
pub open spec fn get_routed<T: Storable>(
    boards: Seq<BoardView>,
    b: int,
    key: Seq<char>,
    r: Result<T, Error>,
) -> bool {
    match resolve(boards, b, key) {
        RouteView::At { board, key: k, .. } => read_outcome(boards[board].database, k, r),
        route => r matches Err(e) && route_failure(route, e),
    }
}

/// What `sequence_id` gives on board `b`: the counter of the entry at the
/// end of the route, `NotFound` where it does not exist, or the error of a
/// route that leads nowhere.
pub open spec fn sequence_id_routed(
    boards: Seq<BoardView>,
    b: int,
    key: Seq<char>,
    r: Result<usize, Error>,
) -> bool {
    match resolve(boards, b, key) {
        RouteView::At { board, key: k, .. } => sequence_id_outcome(boards[board].database, k, r),
        route => r matches Err(e) && route_failure(route, e),
    }
}

/// What `entry` gives on board `b`: the entry at the end of the route,
/// `NotFound` where it does not exist, or the error of a route that leads
/// nowhere.
pub open spec fn entry_routed(
    boards: Seq<BoardView>,
    b: int,
    key: Seq<char>,
    r: Result<&Entry, Error>,
) -> bool {
    match resolve(boards, b, key) {
        RouteView::At { board, key: k, .. } => entry_outcome(boards[board].database, k, r),
        route => r matches Err(e) && route_failure(route, e),
    }
}

/// What `set` gives on board `b`, and what it leaves behind.
///
/// Where the route ends at an existing entry, the entry is updated and its
/// old value comes back, or the call fails with `WrongType` and changes
/// nothing. Where it ends at a missing entry, the entry is created and
/// `None` comes back, unless the last step took a `_` key: then the call
/// fails with `NotFound`. A route that leads nowhere gives its error. Only
/// the database at the end of the route changes.
pub open spec fn set_routed<T: Storable>(
    boards: Seq<BoardView>,
    b: int,
    key: Seq<char>,
    value: T,
    r: Result<Option<T>, Error>,
    after: Seq<BoardView>,
) -> bool {
    match resolve(boards, b, key) {
        RouteView::At { board, key: k, plain } => {
            let db = boards[board].database;
            if db.contains_key(k) {
                match r {
                    Ok(Some(previous)) => T::holds(db[k].data) && previous.stored() == db[k].data
                        && after == with_database(
                        boards,
                        board,
                        db.insert(k, db[k].changed(value.stored())),
                    ),
                    Ok(None) => false,
                    Err(e) => !T::holds(db[k].data) && e@ == (ErrorView::WrongType { key: k })
                        && after == boards,
                }
            } else if plain {
                r matches Ok(None) && 0 <= board < after.len()
                    && after[board].database.contains_key(k) && after == with_database(
                    boards,
                    board,
                    db.insert(
                        k,
                        EntryView::fresh(value.stored(), after[board].database[k].token),
                    ),
                )
            } else {
                r matches Err(e) && e@ == (ErrorView::NotFound { key: k }) && after == boards
            }
        },
        route => r matches Err(e) && route_failure(route, e) && after == boards,
    }
}

/// What `delete::<T>` gives on board `b`, and what it leaves behind: what
/// deleting gives in the database at the end of the route, which alone
/// changes, or the error of a route that leads nowhere.
pub open spec fn delete_routed<T: Storable>(
    boards: Seq<BoardView>,
    b: int,
    key: Seq<char>,
    r: Result<T, Error>,
    after: Seq<BoardView>,
) -> bool {
    match resolve(boards, b, key) {
        RouteView::At { board, key: k, .. } => 0 <= board < after.len() && delete_outcome(
            boards[board].database,
            k,
            r,
            after[board].database,
        ) && after == with_database(boards, board, after[board].database),
        route => r matches Err(e) && route_failure(route, e) && after == boards,
    }
}

/// What taking a read guard gives on board `b`, and what it leaves behind:
/// what the database at the end of the route gives, with the guard marked
/// for that board, or the error of a route that leads nowhere.
pub open spec fn read_guard_routed<T: Storable>(
    boards: Seq<BoardView>,
    b: int,
    key: Seq<char>,
    r: Result<EntryReadGuard<T>, Error>,
    after: Seq<BoardView>,
) -> bool {
    match resolve(boards, b, key) {
        RouteView::At { board, key: k, .. } => 0 <= board < after.len() && read_guard_outcome(
            boards[board].database,
            k,
            r,
            after[board].database,
        ) && after == with_database(boards, board, after[board].database) && (r matches Ok(guard)
            ==> guard.board() == board),
        route => r matches Err(e) && route_failure(route, e) && after == boards,
    }
}

/// What taking a write guard gives on board `b`, and what it leaves behind:
/// what the database at the end of the route gives, with the guard marked
/// for that board, or the error of a route that leads nowhere.
pub open spec fn write_guard_routed<T: Storable>(
    boards: Seq<BoardView>,
    b: int,
    key: Seq<char>,
    r: Result<EntryWriteGuard<T>, Error>,
    after: Seq<BoardView>,
) -> bool {
    match resolve(boards, b, key) {
        RouteView::At { board, key: k, .. } => 0 <= board < after.len() && write_guard_outcome(
            boards[board].database,
            k,
            r,
            after[board].database,
        ) && after == with_database(boards, board, after[board].database) && (r matches Ok(guard)
            ==> guard.board() == board),
        route => r matches Err(e) && route_failure(route, e) && after == boards,
    }
}

/// The board that `with` adds.
pub open spec fn new_board(
    parent: Option<DataboardPtr>,
    remappings: Option<Remappings>,
    autoremap: bool,
) -> BoardView {
    BoardView {
        database: Map::empty(),
        parent: match parent {
            Some(p) => Some(p.index()),
            None => None,
        },
        remappings: match remappings {
            Some(rules) => rules@,
            None => Seq::empty(),
        },
        autoremap,
    }
}

/// What `with` gives and leaves behind. Rules for a board without a parent
/// are refused with `NoParent` and the first rule; a parent that is not
/// there is refused with `NoParent` and empty strings; both leave the boards
/// as they were. Else the new board is added behind the others.
pub open spec fn with_outcome(
    boards: Seq<BoardView>,
    parent: Option<DataboardPtr>,
    remappings: Option<Remappings>,
    autoremap: bool,
    r: Result<DataboardPtr, Error>,
    after: Seq<BoardView>,
) -> bool {
    match parent {
        Some(p) => if 0 <= p.index() < boards.len() {
            r matches Ok(board) && board.index() == boards.len() && after == boards.push(
                new_board(parent, remappings, autoremap),
            )
        } else {
            r matches Err(e) && e@ == (ErrorView::NoParent {
                key: Seq::empty(),
                remapped: Seq::empty(),
            }) && after == boards
        },
        None => match remappings {
            Some(rules) => if rules@.len() > 0 {
                r matches Err(e) && e@ == (ErrorView::NoParent {
                    key: rules@[0].0,
                    remapped: rules@[0].1,
                }) && after == boards
            } else {
                r matches Ok(board) && board.index() == boards.len() && after == boards.push(
                    new_board(parent, remappings, autoremap),
                )
            },
            None => r matches Ok(board) && board.index() == boards.len() && after == boards.push(
                new_board(parent, remappings, autoremap),
            ),
        },
    }
}

/// `true` or `false`.
pub open spec fn flag_text(flag: bool) -> Seq<char> {
    if flag {
        "true"@
    } else {
        "false"@
    }
}

/// Board `b` as text: its autoremap flag, its entries in the order of their
/// keys, its rules, and its parent in the same form, or `None`.
pub open spec fn board_text(boards: Seq<BoardView>, listings: Seq<Seq<Pair>>, b: int) -> Seq<char>
    decreases b,
{
    "Databoard { autoremap: "@ + flag_text(boards[b].autoremap) + ", "@ + entries_text(
        listings[b],
    ) + ", "@ + table_text(boards[b].remappings) + ", parent: "@ + (match boards[b].parent {
        Some(p) => if 0 <= p < b {
            board_text(boards, listings, p)
        } else {
            "None"@
        },
        None => "None"@,
    }) + " }"@
}

/// The name of one board of a [`Hierarchy`].
#[derive(Clone, Copy, Debug)]
pub struct DataboardPtr {
    index: usize,
}

impl DataboardPtr {
    /// The place of the board among the boards of its hierarchy.
    pub closed spec fn index(&self) -> int {
        self.index as int
    }

    /// The place of the board among the boards of its hierarchy.
    pub fn position(&self) -> (i: usize)
        ensures
            i == self.index(),
    {
        self.index
    }

    /// Whether both name the same board.
    pub fn same(&self, other: &DataboardPtr) -> (r: bool)
        ensures
            r == (self.index() == other.index()),
    {
        self.index == other.index
    }
}

/// Where a key leads: see [`RouteView`].
#[derive(Debug)]
pub enum Route {
    At { board: DataboardPtr, key: String, plain: bool },
    Assignment { key: String, value: String },
    NoParent { key: String, remapped: String },
}

impl View for Route {
    type V = RouteView;

    open spec fn view(&self) -> RouteView {
        match self {
            Route::At { board, key, plain } => RouteView::At {
                board: board.index(),
                key: key@,
                plain: *plain,
            },
            Route::Assignment { key, value } => RouteView::Assignment { key: key@, value: value@ },
            Route::NoParent { key, remapped } => RouteView::NoParent {
                key: key@,
                remapped: remapped@,
            },
        }
    }
}

/// One board: its database, its parent, its rules and its autoremap flag.
#[derive(Debug)]
pub struct DataboardInner {
    database: Database,
    parent: Option<usize>,
    remappings: Remappings,
    autoremap: bool,
}

impl View for DataboardInner {
    type V = BoardView;

    closed spec fn view(&self) -> BoardView {
        BoardView {
            database: self.database@,
            parent: match self.parent {
                Some(p) => Some(p as int),
                None => None,
            },
            remappings: self.remappings@,
            autoremap: self.autoremap,
        }
    }
}

/// The boards as plain values.
pub closed spec fn views_of(boards: Seq<DataboardInner>) -> Seq<BoardView> {
    Seq::new(boards.len(), |i: int| boards[i]@)
}

/// The entries of every board, each board's in the order of their keys.
pub closed spec fn listings_of(boards: Seq<DataboardInner>) -> Seq<Seq<Pair>> {
    Seq::new(boards.len(), |i: int| boards[i].database.listing())
}

/// Every parent comes before its child, and every database is well formed.
spec fn kept(boards: Seq<DataboardInner>) -> bool {
    &&& parents_first(views_of(boards))
    &&& forall|i: int|
        0 <= i < boards.len() ==> well_formed((#[trigger] boards[i]).database.listing())
}

/// Boards stay as they should be when only the database of board `t`
/// changes.
proof fn lemma_database_replaced(before: Seq<DataboardInner>, after: Seq<DataboardInner>, t: int)
    requires
        kept(before),
        0 <= t < before.len(),
        after.len() == before.len(),
        well_formed(after[t].database.listing()),
        after[t].parent == before[t].parent,
        after[t].remappings@ == before[t].remappings@,
        after[t].autoremap == before[t].autoremap,
        forall|j: int| 0 <= j < before.len() && j != t ==> after[j] == before[j],
    ensures
        kept(after),
        views_of(after) == with_database(views_of(before), t, after[t].database@),
{
    assert(views_of(after) =~= with_database(views_of(before), t, after[t].database@));
    assert forall|b: int| 0 <= b < views_of(after).len() implies match (#[trigger] views_of(
        after,
    )[b]).parent {
        Some(p) => 0 <= p < b,
        None => true,
    } by {
        assert(views_of(after)[b].parent == views_of(before)[b].parent);
    }
    assert forall|i: int| 0 <= i < after.len() implies well_formed(
        (#[trigger] after[i]).database.listing(),
    ) by {
        if i != t {
            assert(after[i] == before[i]);
        }
    }
}

/// No boards.
fn no_boards() -> (boards: Vec<DataboardInner>)
    ensures
        boards@.len() == 0,
        kept(boards@),
{
    Vec::new()
}

/// A hierarchy of boards.
#[derive(Debug)]
pub struct Hierarchy {
    boards: Vec<DataboardInner>,
}

impl View for Hierarchy {
    type V = Seq<BoardView>;

    closed spec fn view(&self) -> Seq<BoardView> {
        views_of(self.boards@)
    }
}

impl Hierarchy {
    /// What every hierarchy keeps to.
    #[verifier::type_invariant]
    closed spec fn wf(&self) -> bool {
        kept(self.boards@)
    }

    /// `board` names a board of this hierarchy.
    pub open spec fn has(&self, board: DataboardPtr) -> bool {
        0 <= board.index() < self@.len()
    }

    /// The entries of every board, each board's in the order of their keys.
    pub closed spec fn listings(&self) -> Seq<Seq<Pair>> {
        listings_of(self.boards@)
    }

    /// States what holds of every hierarchy: every parent comes before its
    /// child, every entry is well formed, and the listing of a board holds
    /// what the board's database holds, in ascending order of the keys. The
    /// call does nothing else.
    pub fn validity(&self)
        ensures
            parents_first(self@),
            forall|b: int, key: Seq<char>|
                0 <= b < self@.len() && (#[trigger] self@[b].database.contains_key(key))
                    ==> self@[b].database[key].wf(),
            self.listings().len() == self@.len(),
            forall|b: int|
                0 <= b < self@.len() ==> well_formed(#[trigger] self.listings()[b]) && as_map(
                    self.listings()[b],
                ) == self@[b].database,
    {
        proof {
            use_type_invariant(self);
            assert forall|b: int, key: Seq<char>|
                0 <= b < self@.len() && (#[trigger] self@[b].database.contains_key(
                    key,
                )) implies self@[b].database[key].wf() by {
                let pairs = self.boards@[b].database.listing();
                assert(well_formed(pairs));
                lemma_as_map_at(pairs, place_of(pairs, key));
            }
            assert forall|b: int| 0 <= b < self@.len() implies well_formed(
                #[trigger] self.listings()[b],
            ) && as_map(self.listings()[b]) == self@[b].database by {
                assert(well_formed(self.boards@[b].database.listing()));
            }
        }
    }

    /// No boards at all.
    pub fn empty() -> (boards: Hierarchy)
        ensures
            boards@ == Seq::<BoardView>::empty(),
    {
        let boards = no_boards();
        assert(views_of(boards@) =~= Seq::<BoardView>::empty());
        Hierarchy { boards }
    }

    /// A hierarchy of one board, which has an empty database, no parent, no
    /// rules and the autoremap flag off.
    pub fn new() -> (boards: Hierarchy)
        ensures
            boards@ == seq![
                BoardView {
                    database: Map::<Seq<char>, EntryView>::empty(),
                    parent: None,
                    remappings: Seq::<Rule>::empty(),
                    autoremap: false,
                },
            ],
    {
        let mut boards = no_boards();
        let database = Database::default();
        database.validity();
        boards.push(
            DataboardInner {
                database,
                parent: None,
                remappings: Remappings::default(),
                autoremap: false,
            },
        );
        assert(views_of(boards@) =~= seq![
            BoardView {
                database: Map::<Seq<char>, EntryView>::empty(),
                parent: None,
                remappings: Seq::<Rule>::empty(),
                autoremap: false,
            },
        ]);
        Hierarchy { boards }
    }

    /// The first board of the hierarchy.
    pub fn first(&self) -> (board: DataboardPtr)
        ensures
            board.index() == 0,
    {
        DataboardPtr { index: 0 }
    }

    /// The number of boards.
    pub fn len(&self) -> (n: usize)
        ensures
            n == self@.len(),
    {
        self.boards.len()
    }

    /// Whether `board` names a board of this hierarchy.
    pub fn holds(&self, board: DataboardPtr) -> (r: bool)
        ensures
            r == self.has(board),
    {
        board.index < self.boards.len()
    }

    /// The parent of `board`.
    pub fn parent(&self, board: DataboardPtr) -> (r: Option<DataboardPtr>)
        requires
            self.has(board),
        ensures
            match r {
                Some(p) => self@[board.index()].parent == Some(p.index()) && self.has(p)
                    && p.index() < board.index(),
                None => self@[board.index()].parent is None,
            },
    {
        proof {
            use_type_invariant(self);
        }
        match self.boards[board.index].parent {
            Some(p) => {
                assert(self@[board.index()].parent == Some(p as int));
                Some(DataboardPtr { index: p })
            },
            None => None,
        }
    }

    /// The root of `board`: its farthest ancestor, or `board` itself where it
    /// has no parent.
    pub fn root(&self, board: DataboardPtr) -> (r: DataboardPtr)
        requires
            self.has(board),
        ensures
            r.index() == root_of(self@, board.index()),
            self.has(r),
            r.index() <= board.index(),
    {
        proof {
            use_type_invariant(self);
        }
        let mut current = board.index;
        loop
            invariant
                parents_first(self@),
                0 <= current <= board.index() < self@.len(),
                root_of(self@, current as int) == root_of(self@, board.index()),
            decreases current,
        {
            match self.boards[current].parent {
                Some(p) => {
                    assert(self@[current as int].parent == Some(p as int));
                    current = p;
                },
                None => {
                    assert(self@[current as int].parent is None);
                    return DataboardPtr { index: current };
                },
            }
        }
    }

    /// Whether the autoremap flag of `board` is on.
    pub fn autoremap(&self, board: DataboardPtr) -> (r: bool)
        requires
            self.has(board),
        ensures
            r == self@[board.index()].autoremap,
    {
        self.boards[board.index].autoremap
    }

    /// The rules of `board`, or `None` where it has none.
    pub fn remappings(&self, board: DataboardPtr) -> (r: Option<&Remappings>)
        requires
            self.has(board),
        ensures
            match r {
                Some(rules) => rules@ == self@[board.index()].remappings && rules@.len() > 0,
                None => self@[board.index()].remappings.len() == 0,
            },
    {
        if self.boards[board.index].remappings.is_empty() {
            None
        } else {
            Some(&self.boards[board.index].remappings)
        }
    }

    /// The database of `board`.
    pub fn database(&self, board: DataboardPtr) -> (db: &Database)
        requires
            self.has(board),
        ensures
            db@ == self@[board.index()].database,
            db.listing() == self.listings()[board.index()],
    {
        &self.boards[board.index].database
    }

    /// Whether `route` leads to an entry that exists.
    pub fn is_present(&self, route: &Route) -> (r: bool)
        ensures
            r == present(self@, route@),
    {
        match route {
            Route::At { board, key, .. } => board.index < self.boards.len()
                && self.boards[board.index].database.contains_key(key.as_str()),
            _ => false,
        }
    }

    /// Where `key` leads when it is asked on `board`.
    pub fn resolve(&self, board: DataboardPtr, key: &str) -> (r: Route)
        requires
            self.has(board),
        ensures
            r@ == resolve(self@, board.index(), key@),
            r matches Route::At { board: target, .. } ==> self.has(target),
        decreases board.index(), key@.len(),
    {
        proof {
            use_type_invariant(self);
            lemma_resolve_in_range(self@, board.index(), key@);
        }
        match check_top_level_key(key) {
            Ok(name) => {
                let root = self.root(board);
                proof {
                    lemma_resolve_in_range(self@, root.index(), name@);
                }
                self.resolve(root, name)
            },
            Err(_) => match check_local_key(key) {
                Ok(name) => Route::At { board, key: name.to_owned(), plain: false },
                Err(_) => {
                    let inner = &self.boards[board.index];
                    assert(inner@ == self@[board.index()]);
                    match inner.remappings.find(key) {
                        Some(target) => match strip_board_pointer(target.as_str()) {
                            Some(name) => match inner.parent {
                                Some(p) => self.resolve(DataboardPtr { index: p }, name),
                                None => Route::NoParent {
                                    key: key.to_owned(),
                                    remapped: name.to_owned(),
                                },
                            },
                            None => Route::Assignment { key: key.to_owned(), value: target },
                        },
                        None => {
                            if inner.autoremap {
                                match inner.parent {
                                    Some(p) => {
                                        let up = self.resolve(DataboardPtr { index: p }, key);
                                        let leads_nowhere = match &up {
                                            Route::At { .. } => false,
                                            _ => true,
                                        };
                                        if leads_nowhere || self.is_present(&up) {
                                            return up;
                                        }
                                    },
                                    None => {},
                                }
                            }
                            Route::At { board, key: key.to_owned(), plain: true }
                        },
                    }
                },
            },
        }
    }

    /// The error of a route that leads nowhere.
    fn failure(route: Route) -> (e: Error)
        requires
            !(route is At),
        ensures
            route_failure(route@, e),
    {
        match route {
            Route::Assignment { key, value } => Error::Assignment { key, value },
            Route::NoParent { key, remapped } => Error::NoParent { key, remapped },
            Route::At { key, .. } => Error::NotFound { key },
        }
    }

    /// Adds a board with an empty database, the given parent, the given
    /// rules and the given autoremap flag. Rules for a board without a parent
    /// are refused: the error is `NoParent` with the first rule. A parent
    /// that is not among the boards is refused with `NoParent` too. What is
    /// refused leaves the boards as they were.
    pub fn with(
        &mut self,
        parent: Option<DataboardPtr>,
        remappings: Option<Remappings>,
        autoremap: bool,
    ) -> (r: Result<DataboardPtr, Error>)
        ensures
            with_outcome(old(self)@, parent, remappings, autoremap, r, final(self)@),
    {
        proof {
            use_type_invariant(&*self);
        }
        let ghost added = new_board(parent, remappings, autoremap);
        match parent {
            Some(p) => {
                if !self.holds(p) {
                    proof {
                        reveal_strlit("");
                        assert(""@ =~= Seq::<char>::empty());
                    }
                    return Err(
                        Error::NoParent { key: "".to_owned(), remapped: "".to_owned() },
                    );
                }
            },
            None => {},
        }
        let rules = match remappings {
            Some(rules) => {
                if parent.is_none() && rules.len() > 0 {
                    let (key, remapped) = rules.rule(0);
                    return Err(
                        Error::NoParent { key: key.to_owned(), remapped: remapped.to_owned() },
                    );
                }
                rules
            },
            None => Remappings::default(),
        };
        let parent_index = match parent {
            Some(p) => Some(p.index),
            None => None,
        };
        let database = Database::default();
        database.validity();
        let mut boards = no_boards();
        std::mem::swap(&mut boards, &mut self.boards);
        let ghost before = boards@;
        let index = boards.len();
        boards.push(DataboardInner { database, parent: parent_index, remappings: rules, autoremap });
        proof {
            let after = boards@;
            assert(views_of(after) =~= views_of(before).push(added));
            assert forall|b: int| 0 <= b < views_of(after).len() implies match (
            #[trigger] views_of(after)[b]).parent {
                Some(p) => 0 <= p < b,
                None => true,
            } by {
                if b < index {
                    assert(views_of(after)[b] == views_of(before)[b]);
                }
            }
            assert forall|i: int| 0 <= i < after.len() implies well_formed(
                (#[trigger] after[i]).database.listing(),
            ) by {
                if i < index {
                    assert(after[i] == before[i]);
                }
            }
        }
        self.boards = boards;
        Ok(DataboardPtr { index })
    }

    /// Adds a board under `parent` with an empty database, no rules and the
    /// autoremap flag on.
    pub fn with_parent(&mut self, parent: DataboardPtr) -> (board: DataboardPtr)
        requires
            old(self).has(parent),
        ensures
            board.index() == old(self)@.len(),
            final(self)@ == old(self)@.push(new_board(Some(parent), None, true)),
    {
        match self.with(Some(parent), None, true) {
            Ok(board) => board,
            Err(_) => parent,
        }
    }

    /// Whether `key`, asked on `board`, leads to an entry that exists.
    pub fn contains_key(&self, board: DataboardPtr, key: &str) -> (r: bool)
        requires
            self.has(board),
        ensures
            r == present(self@, resolve(self@, board.index(), key@)),
    {
        let route = self.resolve(board, key);
        self.is_present(&route)
    }

    /// Whether `key`, asked on `board`, leads to an entry, which must then
    /// hold a `T`. Where a write guard holds the entry, the call fails with
    /// `IsLocked`. A board that is not there holds nothing.
    pub fn try_contains<T: Storable>(&self, board: DataboardPtr, key: &str) -> (r: Result<
        bool,
        Error,
    >)
        ensures
            contains_now::<T>(self@, board.index(), key@, r),
    {
        if !self.holds(board) {
            return Ok(false);
        }
        match self.resolve(board, key) {
            Route::At { board: t, key: k, .. } => {
                let db = &self.boards[t.index].database;
                match db.entry(k.as_str()) {
                    Ok(entry) => if entry.is_write_locked() {
                        Err(Error::IsLocked { key: k })
                    } else {
                        db.contains::<T>(k.as_str())
                    },
                    Err(_) => Ok(false),
                }
            },
            Route::Assignment { .. } => Ok(false),
            route => Err(Self::failure(route)),
        }
    }

    /// Whether `key`, asked on `board`, leads to an entry, which must then
    /// hold a `T`.
    ///
    /// The caller sees to it that no write guard holds the entry: the call
    /// would wait for the guard.
    pub fn contains<T: Storable>(&self, board: DataboardPtr, key: &str) -> (r: Result<bool, Error>)
        requires
            self.has(board),
            !held_by_writer(self@, board.index(), key@),
        ensures
            contains_routed::<T>(self@, board.index(), key@, r),
    {
        self.try_contains::<T>(board, key)
    }

    /// A copy of the value to which `key` leads from `board`, as a `T`. Where
    /// a write guard holds the entry, the call fails with `IsLocked`; for a
    /// board that is not there it fails with `NotFound`.
    pub fn try_get<T: Storable>(&self, board: DataboardPtr, key: &str) -> (r: Result<T, Error>)
        ensures
            get_now(self@, board.index(), key@, r),
    {
        if !self.holds(board) {
            return Err(Error::not_found(key));
        }
        match self.resolve(board, key) {
            Route::At { board: t, key: k, .. } => {
                let db = &self.boards[t.index].database;
                match db.entry(k.as_str()) {
                    Ok(entry) => if entry.is_write_locked() {
                        Err(Error::IsLocked { key: k })
                    } else {
                        db.read(k.as_str())
                    },
                    Err(e) => Err(e),
                }
            },
            route => Err(Self::failure(route)),
        }
    }

    /// A copy of the value to which `key` leads from `board`, as a `T`.
    ///
    /// The caller sees to it that no write guard holds the entry: the call
    /// would wait for the guard.
    pub fn get<T: Storable>(&self, board: DataboardPtr, key: &str) -> (r: Result<T, Error>)
        requires
            self.has(board),
            !held_by_writer(self@, board.index(), key@),
        ensures
            get_routed(self@, board.index(), key@, r),
    {
        self.try_get(board, key)
    }

    /// The sequence id of the entry to which `key` leads from `board`. Where
    /// a write guard holds the entry, the call fails with `IsLocked`; for a
    /// board that is not there it fails with `NotFound`.
    pub fn try_sequence_id(&self, board: DataboardPtr, key: &str) -> (r: Result<usize, Error>)
        ensures
            sequence_id_now(self@, board.index(), key@, r),
    {
        if !self.holds(board) {
            return Err(Error::not_found(key));
        }
        match self.resolve(board, key) {
            Route::At { board: t, key: k, .. } => {
                let db = &self.boards[t.index].database;
                db.validity();
                match db.entry(k.as_str()) {
                    Ok(entry) => if entry.is_write_locked() {
                        Err(Error::IsLocked { key: k })
                    } else {
                        Ok(entry.sequence_id())
                    },
                    Err(e) => Err(e),
                }
            },
            route => Err(Self::failure(route)),
        }
    }

    /// The sequence id of the entry to which `key` leads from `board`.
    ///
    /// The caller sees to it that no write guard holds the entry: the call
    /// would wait for the guard.
    pub fn sequence_id(&self, board: DataboardPtr, key: &str) -> (r: Result<usize, Error>)
        requires
            self.has(board),
            !held_by_writer(self@, board.index(), key@),
        ensures
            sequence_id_routed(self@, board.index(), key@, r),
    {
        self.try_sequence_id(board, key)
    }

    /// The entry to which `key` leads from `board`, as it stands.
    pub fn entry(&self, board: DataboardPtr, key: &str) -> (r: Result<&Entry, Error>)
        requires
            self.has(board),
        ensures
            entry_routed(self@, board.index(), key@, r),
    {
        match self.resolve(board, key) {
            Route::At { board: t, key: k, .. } => self.boards[t.index].database.entry(k.as_str()),
            route => Err(Self::failure(route)),
        }
    }

    /// A copy of the entry to which `key` leads from `board`, as it stands;
    /// for a board that is not there the call fails with `NotFound`.
    pub fn try_entry(&self, board: DataboardPtr, key: &str) -> (r: Result<Entry, Error>)
        ensures
            entry_now(self@, board.index(), key@, r),
    {
        if !self.holds(board) {
            return Err(Error::not_found(key));
        }
        match self.entry(board, key) {
            Ok(entry) => Ok(entry.duplicate()),
            Err(e) => Err(e),
        }
    }

    /// Stores `value` where `key` leads from `board`: in place of the value
    /// of an existing entry, whose old value comes back, or as a new entry.
    /// Where a guard holds the entry, the call fails with `IsLocked` and
    /// changes nothing; for a board that is not there it fails with
    /// `NotFound`.
    pub fn try_set<T: Storable>(&mut self, board: DataboardPtr, key: &str, value: T) -> (r: Result<
        Option<T>,
        Error,
    >)
        ensures
            set_now(old(self)@, board.index(), key@, value, r, final(self)@),
    {
        if !self.holds(board) {
            return Err(Error::not_found(key));
        }
        proof {
            use_type_invariant(&*self);
        }
        match self.resolve(board, key) {
            Route::At { board: t, key: k, plain } => {
                let found = match self.boards[t.index].database.entry(k.as_str()) {
                    Ok(entry) => {
                        if entry.is_locked() {
                            return Err(Error::IsLocked { key: k });
                        }
                        true
                    },
                    Err(_) => false,
                };
                if !found && !plain {
                    return Err(Error::NotFound { key: k });
                }
                let mut boards = no_boards();
                std::mem::swap(&mut boards, &mut self.boards);
                let ghost before = boards@;
                let r = if found {
                    match boards[t.index].database.update(k.as_str(), value) {
                        Ok(previous) => Ok(Some(previous)),
                        Err(e) => Err(e),
                    }
                } else {
                    match boards[t.index].database.create(k.as_str(), value) {
                        Ok(_) => Ok(None),
                        Err(e) => Err(e),
                    }
                };
                boards[t.index].database.validity();
                proof {
                    lemma_database_replaced(before, boards@, t.index());
                    if r is Err {
                        assert(views_of(boards@) =~= views_of(before));
                    }
                }
                self.boards = boards;
                r
            },
            route => Err(Self::failure(route)),
        }
    }

    /// Whether a guard holds the entry to which `key` leads from `board`.
    pub fn is_held(&self, board: DataboardPtr, key: &str) -> (r: bool)
        requires
            self.has(board),
        ensures
            r == held(self@, board.index(), key@),
    {
        proof {
            use_type_invariant(self);
            lemma_resolve_in_range(self@, board.index(), key@);
        }
        match self.entry(board, key) {
            Ok(entry) => entry.is_locked(),
            Err(_) => false,
        }
    }

    /// Stores `value` as `try_set` does, but hands it back untouched where a
    /// guard holds the entry, so that the caller can try again with it.
    pub fn try_store<T: Storable>(&mut self, board: DataboardPtr, key: &str, value: T) -> (r:
        Result<Result<Option<T>, Error>, T>)
        ensures
            store_now(old(self)@, board.index(), key@, value, r, final(self)@),
    {
        if self.holds(board) && self.is_held(board, key) {
            Err(value)
        } else {
            Ok(self.try_set(board, key, value))
        }
    }

    /// Stores `value` where `key` leads from `board`: in place of the value
    /// of an existing entry, whose old value comes back, or as a new entry.
    ///
    /// The caller sees to it that no guard holds the entry: the call would
    /// wait for the guard.
    pub fn set<T: Storable>(&mut self, board: DataboardPtr, key: &str, value: T) -> (r: Result<
        Option<T>,
        Error,
    >)
        requires
            old(self).has(board),
            !held(old(self)@, board.index(), key@),
        ensures
            set_routed(old(self)@, board.index(), key@, value, r, final(self)@),
    {
        self.try_set(board, key, value)
    }

    /// Takes the entry to which `key` leads from `board` out of its database
    /// and hands back its value as a `T`. Where a guard holds the entry, the
    /// call fails with `IsLocked` and changes nothing; for a board that is
    /// not there it fails with `NotFound`.
    pub fn try_delete<T: Storable>(&mut self, board: DataboardPtr, key: &str) -> (r: Result<
        T,
        Error,
    >)
        ensures
            delete_now(old(self)@, board.index(), key@, r, final(self)@),
    {
        if !self.holds(board) {
            return Err(Error::not_found(key));
        }
        proof {
            use_type_invariant(&*self);
        }
        match self.resolve(board, key) {
            Route::At { board: t, key: k, .. } => {
                match self.boards[t.index].database.entry(k.as_str()) {
                    Ok(entry) => {
                        if entry.is_locked() {
                            return Err(Error::IsLocked { key: k });
                        }
                    },
                    Err(_) => {},
                }
                let mut boards = no_boards();
                std::mem::swap(&mut boards, &mut self.boards);
                let ghost before = boards@;
                let r = boards[t.index].database.delete(k.as_str());
                boards[t.index].database.validity();
                proof {
                    lemma_database_replaced(before, boards@, t.index());
                    if r is Err {
                        assert(views_of(boards@) =~= views_of(before));
                    }
                }
                self.boards = boards;
                r
            },
            route => Err(Self::failure(route)),
        }
    }

    /// Takes the entry to which `key` leads from `board` out of its database
    /// and hands back its value as a `T`.
    ///
    /// The caller sees to it that no guard holds the entry: the call would
    /// wait for the guard.
    pub fn delete<T: Storable>(&mut self, board: DataboardPtr, key: &str) -> (r: Result<T, Error>)
        requires
            old(self).has(board),
            !held(old(self)@, board.index(), key@),
        ensures
            delete_routed(old(self)@, board.index(), key@, r, final(self)@),
    {
        self.try_delete(board, key)
    }

    /// Takes the entry to which `key` leads from `board` for reading now.
    /// Fails with `IsLocked` where a writer holds the entry, and with
    /// `NotFound` for a board that is not there.
    pub fn try_get_ref<T: Storable>(&mut self, board: DataboardPtr, key: &str) -> (r: Result<
        EntryReadGuard<T>,
        Error,
    >)
        ensures
            read_guard_now(old(self)@, board.index(), key@, r, final(self)@),
    {
        if !self.holds(board) {
            return Err(Error::not_found(key));
        }
        proof {
            use_type_invariant(&*self);
        }
        match self.resolve(board, key) {
            Route::At { board: t, key: k, .. } => {
                let mut boards = no_boards();
                std::mem::swap(&mut boards, &mut self.boards);
                let ghost before = boards@;
                let r = boards[t.index].database.try_get_ref(k.as_str());
                boards[t.index].database.validity();
                proof {
                    lemma_database_replaced(before, boards@, t.index());
                    if r is Err {
                        assert(views_of(boards@) =~= views_of(before));
                    }
                }
                self.boards = boards;
                match r {
                    Ok(guard) => Ok(guard.on_board(t.index)),
                    Err(e) => Err(e),
                }
            },
            route => Err(Self::failure(route)),
        }
    }

    /// Takes the entry to which `key` leads from `board` for reading.
    ///
    /// The caller sees to it that a reader can take the entry: where a writer
    /// holds it, the call would wait for the writer.
    pub fn get_ref<T: Storable>(&mut self, board: DataboardPtr, key: &str) -> (r: Result<
        EntryReadGuard<T>,
        Error,
    >)
        requires
            old(self).has(board),
            target(old(self)@, board.index(), key@) matches Some(entry) ==> entry.readable(),
        ensures
            read_guard_routed(old(self)@, board.index(), key@, r, final(self)@),
            r matches Err(e) ==> !(e@ is IsLocked),
    {
        proof {
            use_type_invariant(&*self);
            lemma_resolve_in_range(self@, board.index(), key@);
        }
        self.try_get_ref(board, key)
    }

    /// Hands a read guard back to the boards: its entry has one reader less.
    /// A guard that does not fit these boards comes back, and nothing
    /// changes.
    pub fn try_release_ref<T: Storable>(&mut self, guard: EntryReadGuard<T>) -> (r: Result<
        (),
        EntryReadGuard<T>,
    >)
        ensures
            read_release_now(old(self)@, guard, r, final(self)@),
    {
        proof {
            use_type_invariant(&*self);
        }
        let t = guard.board_index();
        if t >= self.boards.len() {
            return Err(guard);
        }
        match self.boards[t].database.entry(guard.entry_key()) {
            Ok(entry) => {
                if entry.reader_count() == 0 || !guard.is_of(entry) {
                    return Err(guard);
                }
            },
            Err(_) => {
                return Err(guard);
            },
        }
        let mut boards = no_boards();
        std::mem::swap(&mut boards, &mut self.boards);
        let ghost before = boards@;
        boards[t].database.release_ref(guard);
        boards[t].database.validity();
        proof {
            lemma_database_replaced(before, boards@, t as int);
        }
        self.boards = boards;
        Ok(())
    }

    /// Ends a read guard that these boards gave out: its entry has one reader
    /// less.
    pub fn release_ref<T: Storable>(&mut self, guard: EntryReadGuard<T>)
        requires
            read_guard_fits(old(self)@, guard),
        ensures
            final(self)@ == after_read_guard(old(self)@, guard),
    {
        let _ = self.try_release_ref(guard);
    }

    /// Takes the entry to which `key` leads from `board` for writing now.
    /// Fails with `IsLocked` where any guard holds the entry, and with
    /// `NotFound` for a board that is not there.
    pub fn try_get_mut_ref<T: Storable>(&mut self, board: DataboardPtr, key: &str) -> (r: Result<
        EntryWriteGuard<T>,
        Error,
    >)
        ensures
            write_guard_now(old(self)@, board.index(), key@, r, final(self)@),
    {
        if !self.holds(board) {
            return Err(Error::not_found(key));
        }
        proof {
            use_type_invariant(&*self);
        }
        match self.resolve(board, key) {
            Route::At { board: t, key: k, .. } => {
                let mut boards = no_boards();
                std::mem::swap(&mut boards, &mut self.boards);
                let ghost before = boards@;
                let r = boards[t.index].database.try_get_mut_ref(k.as_str());
                boards[t.index].database.validity();
                proof {
                    lemma_database_replaced(before, boards@, t.index());
                    if r is Err {
                        assert(views_of(boards@) =~= views_of(before));
                    }
                }
                self.boards = boards;
                match r {
                    Ok(guard) => Ok(guard.on_board(t.index)),
                    Err(e) => Err(e),
                }
            },
            route => Err(Self::failure(route)),
        }
    }

    /// Takes the entry to which `key` leads from `board` for writing.
    ///
    /// The caller sees to it that no guard holds the entry: the call would
    /// wait for the guard.
    pub fn get_mut_ref<T: Storable>(&mut self, board: DataboardPtr, key: &str) -> (r: Result<
        EntryWriteGuard<T>,
        Error,
    >)
        requires
            old(self).has(board),
            !held(old(self)@, board.index(), key@),
        ensures
            write_guard_routed(old(self)@, board.index(), key@, r, final(self)@),
            r matches Err(e) ==> !(e@ is IsLocked),
    {
        proof {
            use_type_invariant(&*self);
            lemma_resolve_in_range(self@, board.index(), key@);
        }
        self.try_get_mut_ref(board, key)
    }

    /// Hands a write guard back to the boards. A modified guard stores its
    /// value and moves the sequence id on by one; an unmodified guard leaves
    /// value and sequence id as they are. A guard that does not fit these
    /// boards comes back, and nothing changes.
    pub fn try_release_mut<T: Storable>(&mut self, guard: EntryWriteGuard<T>) -> (r: Result<
        (),
        EntryWriteGuard<T>,
    >)
        ensures
            write_release_now(old(self)@, guard, r, final(self)@),
    {
        proof {
            use_type_invariant(&*self);
        }
        let t = guard.board_index();
        if t >= self.boards.len() {
            return Err(guard);
        }
        self.boards[t].database.validity();
        match self.boards[t].database.entry(guard.entry_key()) {
            Ok(entry) => {
                if !entry.is_write_locked() || !entry.holds::<T>() || !guard.is_of(entry) {
                    return Err(guard);
                }
            },
            Err(_) => {
                return Err(guard);
            },
        }
        let mut boards = no_boards();
        std::mem::swap(&mut boards, &mut self.boards);
        let ghost before = boards@;
        boards[t].database.release_mut(guard);
        boards[t].database.validity();
        proof {
            lemma_database_replaced(before, boards@, t as int);
        }
        self.boards = boards;
        Ok(())
    }

    /// Ends a write guard that these boards gave out. A modified guard
    /// stores its value and moves the sequence id on by one; an unmodified
    /// guard leaves value and sequence id as they are.
    pub fn release_mut<T: Storable>(&mut self, guard: EntryWriteGuard<T>)
        requires
            write_guard_fits(old(self)@, guard),
        ensures
            final(self)@ == after_write_guard(old(self)@, guard),
    {
        let _ = self.try_release_mut(guard);
    }

    /// The board as text, as `debug_string` gives it, and no text for a board
    /// that is not there.
    pub fn try_debug_string(&self, board: DataboardPtr) -> (r: String)
        ensures
            text_now(self@, self.listings(), board.index(), r@),
    {
        if self.holds(board) {
            self.debug_string(board)
        } else {
            proof {
                reveal_strlit("");
                assert(""@ =~= Seq::<char>::empty());
            }
            "".to_owned()
        }
    }

    /// The board as text: `Databoard { autoremap: flag, Entries { [...] },
    /// Remappings { [...] }, parent: ... }`, with the parent in the same form
    /// or `None`.
    pub fn debug_string(&self, board: DataboardPtr) -> (r: String)
        requires
            self.has(board),
        ensures
            r@ == board_text(self@, self.listings(), board.index()),
        decreases board.index(),
    {
        proof {
            use_type_invariant(self);
        }
        let inner = &self.boards[board.index];
        assert(inner@ == self@[board.index()]);
        let mut r = String::from_str("Databoard { autoremap: ");
        r.append(if inner.autoremap { "true" } else { "false" });
        r.append(", ");
        r.append(inner.database.debug_string().as_str());
        r.append(", ");
        r.append(inner.remappings.debug_string().as_str());
        r.append(", parent: ");
        match inner.parent {
            Some(p) => {
                assert(self@[board.index()].parent == Some(p as int));
                r.append(self.debug_string(DataboardPtr { index: p }).as_str());
            },
            None => {
                r.append("None");
            },
        }
        r.append(" }");
        r
    }
}

} // verus!
