//! Locating the database file that a SQLite connection URL names.
use vstd::prelude::*;
use crate::text::{chars_eq, chars_of, find_char, first_index_of, has_prefix, slice_chars, starts_with};

verus! {

/// The scheme `sqlite:`.
pub open spec fn sqlite_scheme() -> Seq<char> {
    seq!['s', 'q', 'l', 'i', 't', 'e', ':']
}

/// The scheme `file:`.
pub open spec fn file_scheme() -> Seq<char> {
    seq!['f', 'i', 'l', 'e', ':']
}

/// The in-memory database name `:memory:`.
pub open spec fn memory_name() -> Seq<char> {
    seq![':', 'm', 'e', 'm', 'o', 'r', 'y', ':']
}

/// The file path that a connection URL names, from what follows its scheme: the
/// text before the first `?`, unless that is empty or `:memory:`.
pub open spec fn path_before_query(rest: Seq<char>) -> Option<Seq<char>> {
    let path = rest.subrange(0, first_index_of(rest, '?') as int);
    if path.len() == 0 || path == memory_name() {
        None
    } else {
        Some(path)
    }
}

/// The database file that `url` names: only `sqlite:` and `file:` URLs name one.
pub open spec fn sqlite_path_of(url: Seq<char>) -> Option<Seq<char>> {
    if has_prefix(url, sqlite_scheme()) {
        path_before_query(url.subrange(7, url.len() as int))
    } else if has_prefix(url, file_scheme()) {
        path_before_query(url.subrange(5, url.len() as int))
    } else {
        None
    }
}

/// The path of the database file that a SQLite connection URL names, so that its
/// directory can be created before connecting; `None` for other schemes, for an empty
/// path and for the in-memory database. Query parameters (`?mode=rwc`) are dropped.
pub fn sqlite_file_path(database_url: &str) -> (r: Option<&str>)
    ensures
        match sqlite_path_of(database_url@) {
            Some(p) => r is Some && r->0@ == p,
            None => r is None,
        },
{
    let cs = chars_of(database_url);
    let sqlite_prefix = chars_of("sqlite:");
    let file_prefix = chars_of("file:");
    proof {
        reveal_strlit("sqlite:");
        reveal_strlit("file:");
        assert(sqlite_prefix@ =~= sqlite_scheme());
        assert(file_prefix@ =~= file_scheme());
    }
    let start: usize = if starts_with(cs.as_slice(), sqlite_prefix.as_slice()) {
        7
    } else if starts_with(cs.as_slice(), file_prefix.as_slice()) {
        5
    } else {
        return None;
    };
    let end = find_char(cs.as_slice(), start, '?');
    let ghost rest = cs@.subrange(start as int, cs@.len() as int);
    assert(cs@.subrange(start as int, end as int) =~= rest.subrange(
        0,
        first_index_of(rest, '?') as int,
    ));
    if end == start {
        return None;
    }
    let path = slice_chars(cs.as_slice(), start, end);
    let memory = chars_of(":memory:");
    proof {
        reveal_strlit(":memory:");
        assert(memory@ =~= memory_name());
    }
    if chars_eq(path.as_slice(), memory.as_slice()) {
        return None;
    }
    Some(database_url.substring_char(start, end))
}

} // verus!
