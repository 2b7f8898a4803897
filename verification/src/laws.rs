//! What holds of the routing and of the operations of a hierarchy, whatever
//! its boards, keys and values.

use vstd::prelude::*;
use crate::database::{
    held_back, read_attempt, sequence_id_attempt, update_attempt, write_guard_outcome,
    write_released, Entries,
};
use crate::entry::{next_sequence_id, EntryReadGuard, EntryView, EntryWriteGuard};
use crate::hierarchy::{
    contains_routed, delete_routed, get_routed, lemma_resolve_in_range, lemma_root_of,
    parents_first, present, read_guard_routed, resolve, root_of, route_failure,
    sequence_id_routed, set_routed, settled, target, with_database, write_guard_routed,
    BoardView, RouteView,
};
use crate::remappings::Rule;
use crate::value::ValueView;
use crate::error::Error;
use crate::key::{board_pointer, key_name, pointer_name, starts_with};
use crate::remappings::target_of;
use crate::value::Storable;

verus! {

/// `key` has neither the `@` nor the `_` prefix.
pub open spec fn unprefixed(key: Seq<char>) -> bool {
    !starts_with(key, '@') && !starts_with(key, '_')
}

/// `name` behind the prefix `c`.
pub open spec fn prefixed(c: char, name: Seq<char>) -> Seq<char> {
    seq![c] + name
}

/// A prefixed name starts with its prefix and has the name behind it.
pub proof fn lemma_prefixed(c: char, name: Seq<char>)
    ensures
        starts_with(prefixed(c, name), c),
        key_name(prefixed(c, name)) == name,
{
    assert(key_name(prefixed(c, name)) =~= name);
}

/// The root of a board depends on the boards up to that board only.
pub proof fn lemma_root_of_prefix(a: Seq<BoardView>, c: Seq<BoardView>, b: int)
    requires
        parents_first(a),
        0 <= b < a.len(),
        b < c.len(),
        forall|j: int| 0 <= j <= b ==> a[j].parent == c[j].parent,
    ensures
        root_of(a, b) == root_of(c, b),
    decreases b,
{
    match a[b].parent {
        Some(p) => {
            lemma_root_of_prefix(a, c, p);
        },
        None => {},
    }
}

/// Where a key leads from a board depends on the boards up to that board
/// only: later boards, its descendants among them, have no say.
pub proof fn lemma_resolve_prefix(a: Seq<BoardView>, c: Seq<BoardView>, b: int, key: Seq<char>)
    requires
        parents_first(a),
        0 <= b < a.len(),
        b < c.len(),
        forall|j: int| 0 <= j <= b ==> a[j] == c[j],
    ensures
        resolve(a, b, key) == resolve(c, b, key),
    decreases b, key.len(),
{
    if starts_with(key, '@') {
        lemma_root_of(a, b);
        lemma_root_of_prefix(a, c, b);
        lemma_resolve_prefix(a, c, root_of(a, b), key_name(key));
    } else if starts_with(key, '_') {
    } else {
        match target_of(a[b].remappings, key) {
            Some(target) => {
                if board_pointer(target) {
                    match a[b].parent {
                        Some(p) => {
                            lemma_resolve_prefix(a, c, p, pointer_name(target));
                        },
                        None => {},
                    }
                }
            },
            None => {
                match a[b].parent {
                    Some(p) => {
                        lemma_resolve_prefix(a, c, p, key);
                        lemma_resolve_in_range(a, p, key);
                    },
                    None => {},
                }
            },
        }
    }
}

/// A key behind `@` leads from any board where the bare key leads from the
/// root of that board, so every operation gives on `@key` what it gives on
/// `key` at the root.
pub proof fn law_top_level_redirect(boards: Seq<BoardView>, b: int, key: Seq<char>)
    requires
        parents_first(boards),
        0 <= b < boards.len(),
    ensures
        resolve(boards, b, prefixed('@', key)) == resolve(boards, root_of(boards, b), key),
{
    lemma_prefixed('@', key);
    lemma_root_of(boards, b);
}

/// Every operation gives on `@key` what it gives on `key` at the root of the
/// board, and leaves behind what it leaves behind there.
pub proof fn law_top_level_operations<T: Storable>(
    boards: Seq<BoardView>,
    b: int,
    key: Seq<char>,
    value: T,
    found: Result<bool, Error>,
    read: Result<T, Error>,
    number: Result<usize, Error>,
    stored: Result<Option<T>, Error>,
    after: Seq<BoardView>,
)
    requires
        parents_first(boards),
        0 <= b < boards.len(),
    ensures
        present(boards, resolve(boards, b, prefixed('@', key))) == present(
            boards,
            resolve(boards, root_of(boards, b), key),
        ),
        contains_routed::<T>(boards, b, prefixed('@', key), found) == contains_routed::<T>(
            boards,
            root_of(boards, b),
            key,
            found,
        ),
        get_routed(boards, b, prefixed('@', key), read) == get_routed(
            boards,
            root_of(boards, b),
            key,
            read,
        ),
        sequence_id_routed(boards, b, prefixed('@', key), number) == sequence_id_routed(
            boards,
            root_of(boards, b),
            key,
            number,
        ),
        set_routed(boards, b, prefixed('@', key), value, stored, after) == set_routed(
            boards,
            root_of(boards, b),
            key,
            value,
            stored,
            after,
        ),
        delete_routed(boards, b, prefixed('@', key), read, after) == delete_routed(
            boards,
            root_of(boards, b),
            key,
            read,
            after,
        ),
{
    law_top_level_redirect(boards, b, key);
}

/// A key behind `_` leads to the entry of that name on the board itself,
/// whatever the parent, the rules and the autoremap flag of the board are.
pub proof fn law_local_prefix(boards: Seq<BoardView>, b: int, key: Seq<char>)
    ensures
        resolve(boards, b, prefixed('_', key)) == (RouteView::At { board: b, key, plain: false }),
{
    lemma_prefixed('_', key);
    assert(prefixed('_', key)[0] == '_');
}

/// An operation on a key behind `_` leaves every other board as it was: a
/// `set` and a `delete` change the database of the board itself or nothing.
pub proof fn law_local_prefix_frame<T: Storable>(
    boards: Seq<BoardView>,
    b: int,
    key: Seq<char>,
    value: T,
    set_result: Result<Option<T>, Error>,
    after_set: Seq<BoardView>,
    delete_result: Result<T, Error>,
    after_delete: Seq<BoardView>,
)
    requires
        0 <= b < boards.len(),
        set_routed(boards, b, prefixed('_', key), value, set_result, after_set),
        delete_routed(boards, b, prefixed('_', key), delete_result, after_delete),
    ensures
        after_set.len() == boards.len(),
        after_delete.len() == boards.len(),
        forall|j: int| 0 <= j < boards.len() && j != b ==> after_set[j] == boards[j],
        forall|j: int| 0 <= j < boards.len() && j != b ==> after_delete[j] == boards[j],
{
    law_local_prefix(boards, b, key);
}

/// The board `b` with its autoremap flag turned over.
pub open spec fn with_autoremap_flipped(boards: Seq<BoardView>, b: int) -> Seq<BoardView> {
    boards.update(b, BoardView { autoremap: !boards[b].autoremap, ..boards[b] })
}

/// A key that has a rule on a board leads where the rule says, whether the
/// autoremap flag of the board is on or off.
pub proof fn law_rule_beats_autoremap(boards: Seq<BoardView>, b: int, key: Seq<char>)
    requires
        parents_first(boards),
        0 <= b < boards.len(),
        unprefixed(key),
        target_of(boards[b].remappings, key) is Some,
    ensures
        resolve(with_autoremap_flipped(boards, b), b, key) == resolve(boards, b, key),
{
    let flipped = with_autoremap_flipped(boards, b);
    let target = target_of(boards[b].remappings, key)->Some_0;
    if board_pointer(target) {
        match boards[b].parent {
            Some(p) => {
                lemma_resolve_prefix(boards, flipped, p, pointer_name(target));
            },
            None => {},
        }
    }
}

/// A key whose rule gives a constant leads nowhere: reading, writing,
/// deleting and asking for the sequence id fail with `Assignment`, which
/// names the key and the constant, and change nothing; `contains` says
/// `Ok(false)`, and the key counts as not contained.
pub proof fn law_constant_target<T: Storable>(
    boards: Seq<BoardView>,
    b: int,
    key: Seq<char>,
    value: T,
    get_result: Result<T, Error>,
    set_result: Result<Option<T>, Error>,
    after_set: Seq<BoardView>,
    delete_result: Result<T, Error>,
    after_delete: Seq<BoardView>,
    sequence_id_result: Result<usize, Error>,
    contains_result: Result<bool, Error>,
)
    requires
        unprefixed(key),
        target_of(boards[b].remappings, key) matches Some(target) && !board_pointer(target),
        get_routed(boards, b, key, get_result),
        set_routed(boards, b, key, value, set_result, after_set),
        delete_routed(boards, b, key, delete_result, after_delete),
        sequence_id_routed(boards, b, key, sequence_id_result),
        contains_routed::<T>(boards, b, key, contains_result),
    ensures
        resolve(boards, b, key) == (RouteView::Assignment {
            key,
            value: target_of(boards[b].remappings, key)->Some_0,
        }),
        !present(boards, resolve(boards, b, key)),
        get_result matches Err(e) && route_failure(resolve(boards, b, key), e),
        set_result matches Err(e) && route_failure(resolve(boards, b, key), e),
        delete_result matches Err(e) && route_failure(resolve(boards, b, key), e),
        sequence_id_result matches Err(e) && route_failure(resolve(boards, b, key), e),
        contains_result == Ok::<bool, Error>(false),
        after_set == boards,
        after_delete == boards,
{
}

/// A key without a rule on a board that hands keys on by autoremap fails
/// where it fails on the parent: with `Assignment` where a rule of an
/// ancestor gives a constant, with `NoParent` where a rule of an ancestor
/// points beyond the root.
pub proof fn law_failure_passes_autoremap(boards: Seq<BoardView>, b: int, key: Seq<char>)
    requires
        parents_first(boards),
        0 <= b < boards.len(),
        unprefixed(key),
        target_of(boards[b].remappings, key) is None,
        boards[b].autoremap,
        boards[b].parent matches Some(p) && !(resolve(boards, p, key) is At),
    ensures
        resolve(boards, b, key) == resolve(boards, boards[b].parent->Some_0, key),
        !present(boards, resolve(boards, b, key)),
{
}

/// Where a key leads to an entry, the entry's own key leads from the entry's
/// own board to the same entry: behind `_` always, and bare where the last
/// step took a key without the `_` prefix. So an operation gives on the board
/// where it is asked what it gives on the board to which the key leads.
pub proof fn law_routing_idempotence(boards: Seq<BoardView>, b: int, key: Seq<char>)
    requires
        parents_first(boards),
        0 <= b < boards.len(),
    ensures
        resolve(boards, b, key) matches RouteView::At { board, key: k, plain } ==> {
            &&& resolve(boards, board, prefixed('_', k)) == (RouteView::At {
                board,
                key: k,
                plain: false,
            })
            &&& plain ==> resolve(boards, board, k) == resolve(boards, b, key)
        },
    decreases b, key.len(),
{
    match resolve(boards, b, key) {
        RouteView::At { board, key: k, plain } => {
            law_local_prefix(boards, board, k);
        },
        _ => {},
    }
    if starts_with(key, '@') {
        lemma_root_of(boards, b);
        law_routing_idempotence(boards, root_of(boards, b), key_name(key));
    } else if starts_with(key, '_') {
    } else {
        match target_of(boards[b].remappings, key) {
            Some(target) => {
                if board_pointer(target) {
                    match boards[b].parent {
                        Some(p) => {
                            law_routing_idempotence(boards, p, pointer_name(target));
                        },
                        None => {},
                    }
                }
            },
            None => {
                match boards[b].parent {
                    Some(p) => {
                        law_routing_idempotence(boards, p, key);
                    },
                    None => {},
                }
            },
        }
    }
}

/// Storing an entry where a key leads does not change where the key leads.
pub proof fn lemma_resolve_after_store(
    boards: Seq<BoardView>,
    b: int,
    key: Seq<char>,
    t: int,
    k: Seq<char>,
    entry: EntryView,
)
    requires
        parents_first(boards),
        0 <= b < boards.len(),
        resolve(boards, b, key) matches RouteView::At { board, key: kk, .. } && board == t && kk
            == k,
    ensures
        resolve(with_database(boards, t, boards[t].database.insert(k, entry)), b, key) == resolve(
            boards,
            b,
            key,
        ),
    decreases b, key.len(),
{
    let after = with_database(boards, t, boards[t].database.insert(k, entry));
    lemma_resolve_in_range(boards, b, key);
    assert(after[t].database.contains_key(k));
    if starts_with(key, '@') {
        lemma_root_of(boards, b);
        lemma_root_of_prefix(boards, after, b);
        lemma_resolve_after_store(boards, root_of(boards, b), key_name(key), t, k, entry);
    } else if starts_with(key, '_') {
    } else {
        match target_of(boards[b].remappings, key) {
            Some(target) => {
                if board_pointer(target) {
                    match boards[b].parent {
                        Some(p) => {
                            lemma_resolve_after_store(boards, p, pointer_name(target), t, k, entry);
                        },
                        None => {},
                    }
                }
            },
            None => {
                match boards[b].parent {
                    Some(p) => {
                        lemma_resolve_in_range(boards, p, key);
                        if boards[b].autoremap && settled(boards, resolve(boards, p, key)) {
                            lemma_resolve_after_store(boards, p, key, t, k, entry);
                        } else {
                            lemma_resolve_prefix(boards, after, p, key);
                        }
                    },
                    None => {},
                }
            },
        }
    }
}

/// After a `set` that succeeded, the same key on the same board reads back
/// the value that was set; its sequence id is 1 where the entry was created,
/// and has moved on by exactly one where the entry was updated.
pub proof fn law_set_then_get<T: Storable>(
    boards: Seq<BoardView>,
    b: int,
    key: Seq<char>,
    value: T,
    set_result: Result<Option<T>, Error>,
    after: Seq<BoardView>,
    get_result: Result<T, Error>,
    sequence_id_result: Result<usize, Error>,
)
    requires
        parents_first(boards),
        0 <= b < boards.len(),
        set_routed(boards, b, key, value, set_result, after),
        set_result is Ok,
        get_routed(after, b, key, get_result),
        sequence_id_routed(after, b, key, sequence_id_result),
    ensures
        resolve(after, b, key) == resolve(boards, b, key),
        get_result matches Ok(read) && read.stored() == value.stored() && read.same(&value),
        sequence_id_result matches Ok(n) && n == (match target(boards, b, key) {
            Some(entry) => next_sequence_id(entry.sequence_id),
            None => 1,
        }),
        set_result matches Ok(Some(previous)) ==> (target(boards, b, key) matches Some(entry)
            && previous.stored() == entry.data),
        set_result matches Ok(None) ==> target(boards, b, key) is None,
{
    value.lemma_stored_holds();
    match get_result {
        Ok(read) => {
            read.lemma_stored_one_to_one(&value);
        },
        Err(_) => {},
    }
    lemma_resolve_in_range(boards, b, key);
    match resolve(boards, b, key) {
        RouteView::At { board, key: k, plain } => {
            let db = boards[board].database;
            if db.contains_key(k) {
                lemma_resolve_after_store(boards, b, key, board, k, db[k].changed(value.stored()));
            } else {
                lemma_resolve_after_store(
                    boards,
                    b,
                    key,
                    board,
                    k,
                    EntryView::fresh(value.stored(), after[board].database[k].token),
                );
            }
        },
        _ => {},
    }
}

/// The board that stands alone and holds nothing.
pub open spec fn empty_board() -> BoardView {
    BoardView {
        database: Map::empty(),
        parent: None,
        remappings: Seq::<Rule>::empty(),
        autoremap: false,
    }
}

/// On a board that stands alone and holds nothing, the first `set` of a key
/// without prefix creates the entry: `None` comes back, the value is read
/// back, and the sequence id is 1. A second `set` hands back the first value,
/// its own value is read back, and the sequence id is 2.
pub proof fn law_first_and_second_set<T: Storable>(
    key: Seq<char>,
    first: T,
    first_result: Result<Option<T>, Error>,
    after_first: Seq<BoardView>,
    get_result: Result<T, Error>,
    first_id: Result<usize, Error>,
    second: T,
    second_result: Result<Option<T>, Error>,
    after_second: Seq<BoardView>,
    second_get: Result<T, Error>,
    second_id: Result<usize, Error>,
)
    requires
        unprefixed(key),
        set_routed(seq![empty_board()], 0, key, first, first_result, after_first),
        get_routed(after_first, 0, key, get_result),
        sequence_id_routed(after_first, 0, key, first_id),
        set_routed(after_first, 0, key, second, second_result, after_second),
        get_routed(after_second, 0, key, second_get),
        sequence_id_routed(after_second, 0, key, second_id),
    ensures
        first_result matches Ok(None),
        get_result matches Ok(read) && read.same(&first),
        first_id matches Ok(n) && n == 1,
        second_result matches Ok(Some(previous)) && previous.same(&first),
        second_get matches Ok(read) && read.same(&second),
        second_id matches Ok(n) && n == 2,
{
    let boards = seq![empty_board()];
    first.lemma_stored_holds();
    second.lemma_stored_holds();
    assert(resolve(boards, 0, key) == (RouteView::At { board: 0, key, plain: true }));
    law_set_then_get(boards, 0, key, first, first_result, after_first, get_result, first_id);
    assert(parents_first(after_first));
    match second_result {
        Ok(Some(previous)) => {
            previous.lemma_stored_one_to_one(&first);
        },
        _ => {},
    }
    law_set_then_get(
        after_first,
        0,
        key,
        second,
        second_result,
        after_second,
        second_get,
        second_id,
    );
}

/// On the way of `key` from board `b`, no board that hands the key on to its
/// parent by autoremap holds an entry of that name itself.
pub open spec fn unshadowed(boards: Seq<BoardView>, b: int, key: Seq<char>) -> bool
    decreases b, key.len(),
{
    if starts_with(key, '@') {
        if 0 <= root_of(boards, b) <= b {
            unshadowed(boards, root_of(boards, b), key_name(key))
        } else {
            true
        }
    } else if starts_with(key, '_') {
        true
    } else {
        match target_of(boards[b].remappings, key) {
            Some(target) => if board_pointer(target) {
                match boards[b].parent {
                    Some(p) => if 0 <= p < b {
                        unshadowed(boards, p, pointer_name(target))
                    } else {
                        true
                    },
                    None => true,
                }
            } else {
                true
            },
            None => match boards[b].parent {
                Some(p) => if 0 <= p < b && boards[b].autoremap && settled(
                    boards,
                    resolve(boards, p, key),
                ) {
                    !boards[b].database.contains_key(key) && unshadowed(boards, p, key)
                } else {
                    true
                },
                None => true,
            },
        }
    }
}

/// Once the entry to which a key leads is taken out, the key leads to no
/// entry, unless a board on its way held an entry of that name in the shadow
/// of the one that was taken out.
pub proof fn lemma_resolve_after_remove(
    boards: Seq<BoardView>,
    d: int,
    key: Seq<char>,
    t: int,
    k: Seq<char>,
)
    requires
        parents_first(boards),
        0 <= d < boards.len(),
        resolve(boards, d, key) matches RouteView::At { board, key: kk, .. } && board == t && kk
            == k,
        unshadowed(boards, d, key),
    ensures
        !present(
            with_database(boards, t, boards[t].database.remove(k)),
            resolve(with_database(boards, t, boards[t].database.remove(k)), d, key),
        ),
    decreases d, key.len(),
{
    let after = with_database(boards, t, boards[t].database.remove(k));
    lemma_resolve_in_range(boards, d, key);
    assert(!after[t].database.contains_key(k));
    if starts_with(key, '@') {
        lemma_root_of(boards, d);
        lemma_root_of_prefix(boards, after, d);
        lemma_resolve_after_remove(boards, root_of(boards, d), key_name(key), t, k);
    } else if starts_with(key, '_') {
    } else {
        match target_of(boards[d].remappings, key) {
            Some(target) => {
                if board_pointer(target) {
                    match boards[d].parent {
                        Some(p) => {
                            lemma_resolve_after_remove(boards, p, pointer_name(target), t, k);
                        },
                        None => {},
                    }
                }
            },
            None => {
                match boards[d].parent {
                    Some(p) => {
                        lemma_resolve_in_range(boards, p, key);
                        if boards[d].autoremap && settled(boards, resolve(boards, p, key)) {
                            lemma_resolve_after_remove(boards, p, key, t, k);
                        } else {
                            lemma_resolve_prefix(boards, after, p, key);
                        }
                    },
                    None => {},
                }
            },
        }
    }
}

/// After a `delete` that handed back a value, the key counts as not
/// contained on the board on which it was deleted, and so does every key of
/// every board that led to the deleted entry.
///
/// This is stated for keys that are `unshadowed`: where a board on the way
/// held an entry of the same name itself, that entry is what the key leads
/// to once the other is gone.
pub proof fn law_delete_hides<T: Storable>(
    boards: Seq<BoardView>,
    b: int,
    key: Seq<char>,
    delete_result: Result<T, Error>,
    after: Seq<BoardView>,
    d: int,
    other: Seq<char>,
)
    requires
        parents_first(boards),
        0 <= b < boards.len(),
        delete_routed(boards, b, key, delete_result, after),
        delete_result is Ok,
        0 <= d < boards.len(),
        resolve(boards, d, other) matches RouteView::At { board, key: k, .. } && resolve(
            boards,
            b,
            key,
        ) matches RouteView::At { board: deleted_board, key: deleted_key, .. } && board
            == deleted_board && k == deleted_key,
        unshadowed(boards, d, other),
    ensures
        !present(after, resolve(after, d, other)),
        resolve(boards, b, key) matches RouteView::At { board, key: k, .. } && !after[board].database.contains_key(
            k,
        ),
{
    lemma_resolve_in_range(boards, b, key);
    match resolve(boards, b, key) {
        RouteView::At { board, key: k, .. } => {
            lemma_resolve_after_remove(boards, d, other, board, k);
        },
        _ => {},
    }
}

/// Every board from `b` up to its root is without a rule for `key`, and
/// every one of them that has a parent has the autoremap flag on.
pub open spec fn autoremap_chain(boards: Seq<BoardView>, b: int, key: Seq<char>) -> bool
    decreases b,
{
    target_of(boards[b].remappings, key) is None && match boards[b].parent {
        Some(p) => boards[b].autoremap && 0 <= p < b && autoremap_chain(boards, p, key),
        None => true,
    }
}

/// Some board from `b` up to its root holds an entry `key`.
pub open spec fn held_on_chain(boards: Seq<BoardView>, b: int, key: Seq<char>) -> bool
    decreases b,
{
    boards[b].database.contains_key(key) || match boards[b].parent {
        Some(p) => 0 <= p < b && held_on_chain(boards, p, key),
        None => false,
    }
}

/// Along a chain of boards that all hand keys on by autoremap, a key that no
/// board of the chain holds leads to the board on which it is asked, and a
/// key that the root holds leads to the root.
pub proof fn lemma_autoremap_chain(boards: Seq<BoardView>, b: int, key: Seq<char>)
    requires
        parents_first(boards),
        0 <= b < boards.len(),
        unprefixed(key),
        autoremap_chain(boards, b, key),
    ensures
        resolve(boards, b, key) is At,
        !held_on_chain(boards, b, key) ==> resolve(boards, b, key) == (RouteView::At {
            board: b,
            key,
            plain: true,
        }),
        boards[root_of(boards, b)].database.contains_key(key) ==> resolve(boards, b, key) == (
        RouteView::At { board: root_of(boards, b), key, plain: true }),
    decreases b,
{
    lemma_root_of(boards, b);
    match boards[b].parent {
        Some(p) => {
            lemma_autoremap_chain(boards, p, key);
            lemma_root_of(boards, p);
        },
        None => {},
    }
}

/// Along a chain of boards that all hand keys on by autoremap, a `set` of a
/// key that no board of the chain holds creates the entry on the board on
/// which it is asked, and a `set` of a key that the root holds updates the
/// entry of the root and touches no other board.
pub proof fn law_autoremap_propagation<T: Storable>(
    boards: Seq<BoardView>,
    b: int,
    key: Seq<char>,
    value: T,
    set_result: Result<Option<T>, Error>,
    after: Seq<BoardView>,
)
    requires
        parents_first(boards),
        0 <= b < boards.len(),
        unprefixed(key),
        autoremap_chain(boards, b, key),
        set_routed(boards, b, key, value, set_result, after),
    ensures
        !held_on_chain(boards, b, key) ==> (set_result matches Ok(None)) && after == with_database(
            boards,
            b,
            boards[b].database.insert(
                key,
                EntryView::fresh(value.stored(), after[b].database[key].token),
            ),
        ),
        boards[root_of(boards, b)].database.contains_key(key) ==> !(set_result matches Ok(None))
            && after.len() == boards.len() && (forall|j: int|
            0 <= j < boards.len() && j != root_of(boards, b) ==> after[j] == boards[j]) && (
        set_result is Ok ==> after[root_of(boards, b)].database == boards[root_of(
            boards,
            b,
        )].database.insert(
            key,
            boards[root_of(boards, b)].database[key].changed(value.stored()),
        )),
{
    lemma_autoremap_chain(boards, b, key);
    lemma_root_of(boards, b);
}

/// An update of an entry that holds a value of the same type, and that no
/// guard holds, hands back that value; afterwards the entry reads as the new
/// value and its sequence id has moved on by exactly one step, to 1 after
/// the largest number. Where a guard holds the entry, the update fails with
/// `IsLocked` and changes nothing. Either way the database holds the same
/// keys, with every other entry and the state of every lock as they were.
pub proof fn law_update_counts_once<T: Storable>(
    db: Entries,
    key: Seq<char>,
    value: T,
    updated: Result<T, Error>,
    after: Entries,
    read: Result<T, Error>,
    number: Result<usize, Error>,
)
    requires
        db.contains_key(key),
        T::holds(db[key].data),
        update_attempt(db, key, value, updated, after),
        read_attempt(after, key, read),
        sequence_id_attempt(after, key, number),
    ensures
        db[key].free() ==> {
            &&& updated matches Ok(previous) && previous.stored() == db[key].data
            &&& read matches Ok(now) && now.stored() == value.stored() && now.same(&value)
            &&& number matches Ok(n) && n == next_sequence_id(db[key].sequence_id) && n == (
            if db[key].sequence_id < usize::MAX {
                db[key].sequence_id + 1
            } else {
                1
            })
        },
        !db[key].free() ==> (updated matches Err(e) && held_back(key, e)) && after == db,
        after.dom() == db.dom(),
        forall|other: Seq<char>|
            other != key && #[trigger] db.contains_key(other) ==> after[other] == db[other],
        after[key].readers == db[key].readers && after[key].writer == db[key].writer,
{
    value.lemma_stored_holds();
    match read {
        Ok(now) => {
            now.lemma_stored_one_to_one(&value);
        },
        Err(_) => {},
    }
    assert(after.dom() =~= db.dom());
}

/// An update fails exactly where the key has no entry, where the entry
/// holds another type, or where a guard holds the entry, and an update that
/// fails leaves the database as it was.
pub proof fn law_failed_update_counts_nothing<T: Storable>(
    db: Entries,
    key: Seq<char>,
    value: T,
    updated: Result<T, Error>,
    after: Entries,
)
    requires
        update_attempt(db, key, value, updated, after),
    ensures
        updated is Err <==> !(db.contains_key(key) && T::holds(db[key].data) && db[key].free()),
        updated is Err ==> after == db,
{
}

/// A write guard that is taken and released without a mutable borrow leaves
/// the entries as they were, sequence id included; one that was borrowed
/// mutably moves the sequence id on by exactly one, however often it was
/// borrowed.
pub proof fn law_guard_counts_once<T: Storable>(
    db: Entries,
    key: Seq<char>,
    taken: Result<EntryWriteGuard<T>, Error>,
    locked: Entries,
    data: ValueView,
)
    requires
        write_guard_outcome(db, key, taken, locked),
        taken is Ok,
    ensures
        write_released(locked, key, false, data) == db,
        write_released(locked, key, true, data) == db.insert(key, db[key].changed(data)),
        write_released(locked, key, true, data)[key].sequence_id == next_sequence_id(
            db[key].sequence_id,
        ),
{
    assert(write_released(locked, key, false, data) =~= db);
    assert(write_released(locked, key, true, data) =~= db.insert(key, db[key].changed(data)));
}

/// A board that is added changes nothing for the boards that are there:
/// each of them is as it was, and each of its keys leads where it led.
pub proof fn law_new_board_changes_no_route(
    boards: Seq<BoardView>,
    added: BoardView,
    b: int,
    key: Seq<char>,
)
    requires
        parents_first(boards),
        0 <= b < boards.len(),
    ensures
        boards.push(added)[b] == boards[b],
        resolve(boards.push(added), b, key) == resolve(boards, b, key),
{
    lemma_resolve_prefix(boards, boards.push(added), b, key);
}

/// What fails changes nothing: after a `set`, a `delete` or an attempt to
/// take a guard that gave an error, every board is as it was, sequence ids
/// included.
pub proof fn law_failures_change_nothing<T: Storable>(
    boards: Seq<BoardView>,
    b: int,
    key: Seq<char>,
    value: T,
    set_result: Result<Option<T>, Error>,
    after_set: Seq<BoardView>,
    delete_result: Result<T, Error>,
    after_delete: Seq<BoardView>,
    reader: Result<EntryReadGuard<T>, Error>,
    after_reader: Seq<BoardView>,
    writer: Result<EntryWriteGuard<T>, Error>,
    after_writer: Seq<BoardView>,
)
    requires
        parents_first(boards),
        0 <= b < boards.len(),
        set_routed(boards, b, key, value, set_result, after_set),
        delete_routed(boards, b, key, delete_result, after_delete),
        read_guard_routed(boards, b, key, reader, after_reader),
        write_guard_routed(boards, b, key, writer, after_writer),
    ensures
        set_result is Err ==> after_set == boards,
        delete_result is Err ==> after_delete == boards,
        reader is Err ==> after_reader == boards,
        writer is Err ==> after_writer == boards,
{
    lemma_resolve_in_range(boards, b, key);
    match resolve(boards, b, key) {
        RouteView::At { board, key: k, .. } => {
            if delete_result is Err {
                assert(after_delete =~= boards);
            }
            if reader is Err {
                assert(after_reader =~= boards);
            }
            if writer is Err {
                assert(after_writer =~= boards);
            }
        },
        _ => {},
    }
}

/// Reading a key on a board gives what reading the entry's own key gives on
/// the board to which the key leads.
pub proof fn law_get_on_routed_board<T: Storable>(
    boards: Seq<BoardView>,
    b: int,
    key: Seq<char>,
    read: Result<T, Error>,
)
    requires
        parents_first(boards),
        0 <= b < boards.len(),
    ensures
        resolve(boards, b, key) matches RouteView::At { board, key: k, plain } ==> {
            &&& get_routed(boards, b, key, read) == get_routed(
                boards,
                board,
                prefixed('_', k),
                read,
            )
            &&& plain ==> get_routed(boards, b, key, read) == get_routed(boards, board, k, read)
        },
{
    law_routing_idempotence(boards, b, key);
}

} // verus!
