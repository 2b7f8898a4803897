//! The syntax of keys and of remapping targets.
//!
//! A key is a plain name, a name behind `@` (look it up on the root board) or
//! a name behind `_` (look it up on this board only). A remapping target is
//! either a board pointer, a name wrapped in braces that stands for a key of
//! the parent board, or a constant, which names no entry at all.

use vstd::prelude::*;
use vstd::string::StrSliceExecFns;
use crate::text::contains_char;

verus! {

/// `s` begins with the character `c`.
pub open spec fn starts_with(s: Seq<char>, c: char) -> bool {
    s.len() > 0 && s[0] == c
}

/// `s` ends with the character `c`.
pub open spec fn ends_with(s: Seq<char>, c: char) -> bool {
    s.len() > 0 && s[s.len() - 1] == c
}

/// `s` holds a quotation mark, single or double. Text between braces that
/// holds one is data, such as JSON, and never a name.
pub open spec fn quoted(s: Seq<char>) -> bool {
    s.contains('\'') || s.contains('"')
}

/// `s` is a name wrapped in one pair of braces.
pub open spec fn board_pointer(s: Seq<char>) -> bool {
    starts_with(s, '{') && ends_with(s, '}') && !quoted(s)
}

/// `s` is a board pointer whose name is restricted to the parent's own entries.
pub open spec fn local_pointer(s: Seq<char>) -> bool {
    board_pointer(s) && s[1] == '_'
}

/// `s` is a board pointer whose name is looked up on the root board.
pub open spec fn top_level_pointer(s: Seq<char>) -> bool {
    board_pointer(s) && s[1] == '@'
}

/// `s` is a constant: it is no board pointer. So it lacks a brace at one end
/// or the other, or it holds a quotation mark.
pub open spec fn const_assignment(s: Seq<char>) -> bool {
    !board_pointer(s)
}

/// What stands between the braces of a board pointer.
pub open spec fn pointer_name(s: Seq<char>) -> Seq<char> {
    s.subrange(1, s.len() - 1)
}

/// What stands between the prefix and the closing brace of a restricted
/// board pointer.
pub open spec fn restricted_name(s: Seq<char>) -> Seq<char> {
    s.subrange(2, s.len() - 1)
}

/// The name behind the one-character prefix of a key.
pub open spec fn key_name(s: Seq<char>) -> Seq<char> {
    s.subrange(1, s.len() as int)
}

/// Every string is either a constant or a board pointer and never both; a
/// board pointer is local, top-level or neither, and never two of these.
pub proof fn law_key_classes(s: Seq<char>)
    ensures
        const_assignment(s) != board_pointer(s),
        !quoted(s) ==> const_assignment(s) == !(starts_with(s, '{') && ends_with(s, '}')),
        local_pointer(s) ==> board_pointer(s) && !top_level_pointer(s),
        top_level_pointer(s) ==> board_pointer(s) && !local_pointer(s),
{
}

fn has_quote(key: &str) -> (r: bool)
    ensures
        r == quoted(key@),
{
    contains_char(key, '\'') || contains_char(key, '"')
}

fn first_is(key: &str, c: char) -> (r: bool)
    ensures
        r == starts_with(key@, c),
{
    key.unicode_len() > 0 && key.get_char(0) == c
}

fn last_is(key: &str, c: char) -> (r: bool)
    ensures
        r == ends_with(key@, c),
{
    let n = key.unicode_len();
    n > 0 && key.get_char(n - 1) == c
}

/// Whether `key` is a constant and so names no entry of any board.
pub fn is_const_assignment(key: &str) -> (r: bool)
    ensures
        r == const_assignment(key@),
{
    !is_board_pointer(key)
}

/// Whether `key` is a board pointer.
pub fn is_board_pointer(key: &str) -> (r: bool)
    ensures
        r == board_pointer(key@),
{
    first_is(key, '{') && last_is(key, '}') && !has_quote(key)
}

/// The name inside a board pointer, with its `_` or `@` if it has one;
/// `None` if `key` is no board pointer.
pub fn strip_board_pointer<'a>(key: &'a str) -> (r: Option<&'a str>)
    ensures
        match r {
            Some(name) => board_pointer(key@) && name@ == pointer_name(key@),
            None => !board_pointer(key@),
        },
{
    if is_board_pointer(key) {
        let n = key.unicode_len();
        Some(key.substring_char(1, n - 1))
    } else {
        None
    }
}

/// The name inside a board pointer, or `key` itself as the error.
pub fn check_board_pointer<'a>(key: &'a str) -> (r: Result<&'a str, &'a str>)
    ensures
        match r {
            Ok(name) => board_pointer(key@) && name@ == pointer_name(key@),
            Err(same) => !board_pointer(key@) && same@ == key@,
        },
{
    match strip_board_pointer(key) {
        Some(name) => Ok(name),
        None => Err(key),
    }
}

/// The name behind a leading `_`, or `key` itself as the error.
pub fn check_local_key<'a>(key: &'a str) -> (r: Result<&'a str, &'a str>)
    ensures
        match r {
            Ok(name) => starts_with(key@, '_') && name@ == key_name(key@),
            Err(same) => !starts_with(key@, '_') && same@ == key@,
        },
{
    if first_is(key, '_') {
        let n = key.unicode_len();
        Ok(key.substring_char(1, n))
    } else {
        Err(key)
    }
}

/// Whether `key` is a board pointer restricted to the parent's own entries.
pub fn is_local_pointer(key: &str) -> (r: bool)
    ensures
        r == local_pointer(key@),
{
    is_board_pointer(key) && key.get_char(1) == '_'
}

/// The name inside a local board pointer, without its `_`; `None` if `key`
/// is no such pointer.
pub fn strip_local_pointer<'a>(key: &'a str) -> (r: Option<&'a str>)
    ensures
        match r {
            Some(name) => local_pointer(key@) && name@ == restricted_name(key@),
            None => !local_pointer(key@),
        },
{
    if is_local_pointer(key) {
        let n = key.unicode_len();
        Some(key.substring_char(2, n - 1))
    } else {
        None
    }
}

/// The name inside a local board pointer, or `key` itself as the error.
pub fn check_local_pointer<'a>(key: &'a str) -> (r: Result<&'a str, &'a str>)
    ensures
        match r {
            Ok(name) => local_pointer(key@) && name@ == restricted_name(key@),
            Err(same) => !local_pointer(key@) && same@ == key@,
        },
{
    match strip_local_pointer(key) {
        Some(name) => Ok(name),
        None => Err(key),
    }
}

/// The name behind a leading `@`, or `key` itself as the error.
pub fn check_top_level_key<'a>(key: &'a str) -> (r: Result<&'a str, &'a str>)
    ensures
        match r {
            Ok(name) => starts_with(key@, '@') && name@ == key_name(key@),
            Err(same) => !starts_with(key@, '@') && same@ == key@,
        },
{
    if first_is(key, '@') {
        let n = key.unicode_len();
        Ok(key.substring_char(1, n))
    } else {
        Err(key)
    }
}

/// Whether `key` is a board pointer that is looked up on the root board.
pub fn is_top_level_pointer(key: &str) -> (r: bool)
    ensures
        r == top_level_pointer(key@),
{
    is_board_pointer(key) && key.get_char(1) == '@'
}

/// The name inside a top-level board pointer, without its `@`; `None` if
/// `key` is no such pointer.
pub fn strip_top_level_pointer<'a>(key: &'a str) -> (r: Option<&'a str>)
    ensures
        match r {
            Some(name) => top_level_pointer(key@) && name@ == restricted_name(key@),
            None => !top_level_pointer(key@),
        },
{
    if is_top_level_pointer(key) {
        let n = key.unicode_len();
        Some(key.substring_char(2, n - 1))
    } else {
        None
    }
}

/// The name inside a top-level board pointer, or `key` itself as the error.
pub fn check_top_level_pointer<'a>(key: &'a str) -> (r: Result<&'a str, &'a str>)
    ensures
        match r {
            Ok(name) => top_level_pointer(key@) && name@ == restricted_name(key@),
            Err(same) => !top_level_pointer(key@) && same@ == key@,
        },
{
    match strip_top_level_pointer(key) {
        Some(name) => Ok(name),
        None => Err(key),
    }
}

} // verus!
