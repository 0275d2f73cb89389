//! Texts shown in the list: the empty-state message and icon placeholders.
use vstd::prelude::*;
use crate::entry::DesktopEntry;
use crate::launcher::first_alphanumeric;
use crate::text::{
    char_upper_all, chars_of, is_alphanumeric, slice_chars, string_of, trim, trim_chars, upper_string,
};

verus! {

/// The longest query quoted in full in the empty-state message.
pub const EMPTY_STATE_QUERY_MAX_CHARS: usize = 24;

/// The query as quoted in the empty-state message: cut to its first
/// `EMPTY_STATE_QUERY_MAX_CHARS` characters and an ellipsis when longer.
pub open spec fn shown_query(q: Seq<char>) -> Seq<char> {
    if q.len() > EMPTY_STATE_QUERY_MAX_CHARS {
        q.take(EMPTY_STATE_QUERY_MAX_CHARS as int).push('…')
    } else {
        q
    }
}

/// The message shown when nothing matches: plain without a query, quoting
/// the (trimmed) query otherwise.
pub open spec fn empty_state_spec(query: Seq<char>) -> Seq<char> {
    let q = trim(query);
    if q.len() == 0 {
        "Sin resultados"@
    } else {
        "Sin resultados para «"@ + shown_query(q) + "»"@
    }
}

/// The message shown when nothing matches `query`.
pub fn empty_state_message(query: &str) -> (r: String)
    ensures
        r@ == empty_state_spec(query@),
{
    let q = trim_chars(&chars_of(query));
    if q.len() == 0 {
        return String::from_str("Sin resultados");
    }
    let mut shown = if q.len() > EMPTY_STATE_QUERY_MAX_CHARS {
        slice_chars(&q, 0, EMPTY_STATE_QUERY_MAX_CHARS)
    } else {
        slice_chars(&q, 0, q.len())
    };
    if q.len() > EMPTY_STATE_QUERY_MAX_CHARS {
        shown.push('…');
    }
    assert(q@.subrange(0, q@.len() as int) =~= q@);
    let head = String::from_str("Sin resultados para «");
    let middle = string_of(&shown);
    head.concat(middle.as_str()).concat("»")
}

/// The placeholder drawn when an application has no icon: its first
/// alphanumeric character in uppercase, or a bullet.
pub open spec fn initial_spec(name: Seq<char>) -> Seq<char> {
    match first_alphanumeric(name) {
        Some(c) => char_upper_all(c),
        None => "•"@,
    }
}

/// The placeholder drawn when `entry` has no icon.
pub fn entry_initial(entry: &DesktopEntry) -> (r: String)
    ensures
        r@ == initial_spec(entry.name@),
{
    let s = chars_of(entry.name.as_str());
    let mut i: usize = 0;
    assert(s@.skip(0) =~= s@);
    while i < s.len()
        invariant
            s@ == entry.name@,
            i <= s.len(),
            first_alphanumeric(s@) == first_alphanumeric(s@.skip(i as int)),
        decreases s.len() - i,
    {
        let c = s[i];
        if is_alphanumeric(c) {
            assert(s@.skip(i as int)[0] == c);
            assert(first_alphanumeric(s@.skip(i as int)) == Some(c));
            return upper_string(c);
        }
        assert(s@.skip(i as int).drop_first() =~= s@.skip(i + 1));
        i = i + 1;
    }
    assert(s@.skip(i as int).len() == 0);
    String::from_str("•")
}

/// A title cut for highlighting the characters `start..end`: before, inside
/// and after, with both bounds kept within the text and `end` not before `start`.
pub open spec fn highlight_spec(text: Seq<char>, start: int, end: int) -> (Seq<char>, Seq<char>, Seq<char>) {
    let n = text.len() as int;
    let s = if start <= n { start } else { n };
    let e = if end < s { s } else if end > n { n } else { end };
    (text.take(s), text.subrange(s, e), text.skip(e))
}

/// The title cut for highlighting the characters `start..end`; see `highlight_spec`.
pub fn highlight_segments(text: &str, start: usize, end: usize) -> (r: (String, String, String))
    ensures
        (r.0@, r.1@, r.2@) == highlight_spec(text@, start as int, end as int),
{
    let cs = chars_of(text);
    let n = cs.len();
    let s = if start <= n { start } else { n };
    let e = if end < s { s } else if end > n { n } else { end };
    let before = string_of(&slice_chars(&cs, 0, s));
    let inside = string_of(&slice_chars(&cs, s, e));
    let after = string_of(&slice_chars(&cs, e, n));
    assert(cs@.subrange(0, s as int) =~= cs@.take(s as int));
    assert(cs@.subrange(e as int, n as int) =~= cs@.skip(e as int));
    (before, inside, after)
}

} // verus!
