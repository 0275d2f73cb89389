//! Reading `.desktop` files.
//!
//! Only the `[Desktop Entry]` group is read. Within it, each `key=value` line
//! sets a key (a later line wins); localized keys (`Name[es]=...`), comments,
//! blank lines and lines without `=` are skipped. Values have the escapes
//! `\n`, `\t`, `\r` and `\\` replaced.
use vstd::prelude::*;
use crate::entry::{opt_view, DesktopEntry};
use crate::text::{
    chars_eq_str, chars_of, find_char, find_char_from, lemma_find_char, lemma_find_char_at, lines, slice_chars,
    split_lines, split_once, string_of, trim, trim_chars, views,
};

verus! {

/// The file name of a path (what `Path::file_name` gives, when it is text).
pub uninterp spec fn path_file_name(path: Seq<char>) -> Option<Seq<char>>;

/// `Path::file_name`, for a path given as text. The contract names the result only.
#[verifier::external_body]
pub(crate) fn file_name(path: &str) -> (r: Option<String>)
    ensures
        opt_view(r) == path_file_name(path@),
{
    std::path::Path::new(path).file_name().and_then(|v| v.to_str()).map(|v| v.to_owned())
}

/// `s` with every `a` `b` pair (taken left to right, without overlap) replaced by `rep`.
pub open spec fn replace_pair(s: Seq<char>, a: char, b: char, rep: char) -> Seq<char>
    decreases s.len(),
{
    if s.len() == 0 {
        seq![]
    } else if s.len() >= 2 && s[0] == a && s[1] == b {
        seq![rep] + replace_pair(s.skip(2), a, b, rep)
    } else {
        seq![s[0]] + replace_pair(s.drop_first(), a, b, rep)
    }
}

/// A value with its escapes replaced, one kind after the other: `\n`, `\t`, `\r`, then `\\`.
pub open spec fn unescape(v: Seq<char>) -> Seq<char> {
    replace_pair(
        replace_pair(replace_pair(replace_pair(v, '\\', 'n', '\n'), '\\', 't', '\t'), '\\', 'r', '\r'),
        '\\',
        '\\',
        '\\',
    )
}

/// A line `[...]` that opens a group.
pub open spec fn is_group_line(l: Seq<char>) -> bool {
    l.len() > 0 && l[0] == '[' && l[l.len() - 1] == ']'
}

/// One line's effect on the reading state (inside the entry group?, values so far).
pub open spec fn desktop_step(
    state: (bool, Map<Seq<char>, Seq<char>>),
    raw: Seq<char>,
) -> (bool, Map<Seq<char>, Seq<char>>) {
    let line = trim(raw);
    if line.len() == 0 || line[0] == '#' {
        state
    } else if is_group_line(line) {
        (line == "[Desktop Entry]"@, state.1)
    } else if !state.0 {
        state
    } else {
        match split_once(line, '=') {
            None => state,
            Some((key, value)) => if find_char(key, '[') is Some {
                state
            } else {
                (true, state.1.insert(key, unescape(value)))
            },
        }
    }
}

/// The reading state after a list of lines.
pub open spec fn desktop_fold(ls: Seq<Seq<char>>) -> (bool, Map<Seq<char>, Seq<char>>)
    decreases ls.len(),
{
    if ls.len() == 0 {
        (false, Map::empty())
    } else {
        desktop_step(desktop_fold(ls.drop_last()), ls.last())
    }
}

/// The values of the `[Desktop Entry]` group of a file.
pub open spec fn desktop_values(content: Seq<char>) -> Map<Seq<char>, Seq<char>> {
    desktop_fold(lines(content)).1
}

proof fn lemma_outside_the_entry_group(before: Seq<Seq<char>>, group: Seq<char>, rest: Seq<Seq<char>>, n: int)
    requires
        is_group_line(trim(group)),
        trim(group) != "[Desktop Entry]"@,
        forall|k: int| 0 <= k < rest.len() ==> trim(#[trigger] rest[k]) != "[Desktop Entry]"@,
        0 <= n <= rest.len(),
    ensures
        desktop_fold(before.push(group) + rest.take(n)) == (false, desktop_fold(before).1),
    decreases n,
{
    let s = before.push(group) + rest.take(n);
    if n == 0 {
        assert(s =~= before.push(group));
        assert(s.drop_last() =~= before);
    } else {
        lemma_outside_the_entry_group(before, group, rest, n - 1);
        assert(s.drop_last() =~= before.push(group) + rest.take(n - 1));
        assert(s.last() == rest[n - 1]);
        assert(trim(rest[n - 1]) != "[Desktop Entry]"@);
    }
}

/// Only the `[Desktop Entry]` group is read: after a group line other than
/// `[Desktop Entry]` (an action, say), the lines up to the next
/// `[Desktop Entry]` line set no value, whatever they hold.
pub proof fn other_groups_set_no_values(before: Seq<Seq<char>>, group: Seq<char>, rest: Seq<Seq<char>>)
    requires
        is_group_line(trim(group)),
        trim(group) != "[Desktop Entry]"@,
        forall|k: int| 0 <= k < rest.len() ==> trim(#[trigger] rest[k]) != "[Desktop Entry]"@,
    ensures
        desktop_fold(before.push(group) + rest).1 == desktop_fold(before).1,
        forall|content: Seq<char>|
            lines(content) == before.push(group) + rest ==> #[trigger] desktop_values(content) == desktop_fold(
                before,
            ).1,
{
    lemma_outside_the_entry_group(before, group, rest, rest.len() as int);
    assert(rest.take(rest.len() as int) =~= rest);
}

/// Inside the `[Desktop Entry]` group a `key=value` line sets its key: right
/// after a `[Desktop Entry]` line, a line reading `key=value` (the key not a
/// comment, without `=`) sets `key` to `value` with its escapes replaced,
/// keeping every other value; when the key is localized (holds `[`) it sets
/// nothing.
pub proof fn entry_group_lines_set_their_key(
    before: Seq<Seq<char>>,
    header: Seq<char>,
    line: Seq<char>,
    key: Seq<char>,
    value: Seq<char>,
)
    requires
        trim(header) == "[Desktop Entry]"@,
        trim(line) == key + seq!['='] + value,
        key.len() > 0,
        key[0] != '#',
        key[0] != '[',
        forall|j: int| 0 <= j < key.len() ==> key[j] != '=',
    ensures
        (forall|j: int| 0 <= j < key.len() ==> key[j] != '[') ==> desktop_fold(before.push(header).push(line)).1
            == desktop_fold(before).1.insert(key, unescape(value)),
        (exists|j: int| 0 <= j < key.len() && key[j] == '[') ==> desktop_fold(before.push(header).push(line)).1
            == desktop_fold(before).1,
{
    let h = before.push(header);
    let s = h.push(line);
    assert(h.drop_last() =~= before);
    assert(s.drop_last() =~= h);
    let l = trim(line);
    assert(l[0] == key[0]);
    lemma_find_char_at(l, '=', key.len() as int);
    assert(l.take(key.len() as int) =~= key);
    assert(l.skip(key.len() as int + 1) =~= value);
    lemma_find_char(key, '[');
    reveal_strlit("[Desktop Entry]");
    assert(is_group_line(trim(header)));
    assert(desktop_fold(h) == desktop_step(desktop_fold(before), header));
    assert(desktop_fold(h).0);
    assert(!is_group_line(l));
    assert(split_once(l, '=') == Some((key, value)));
    assert(desktop_fold(s) == desktop_step(desktop_fold(h), line));
    if exists|j: int| 0 <= j < key.len() && key[j] == '[' {
        assert(find_char(key, '[') is Some);
    }
}

/// Which files describe an application to show: one whose `Type` is not
/// `Application`, that is marked `NoDisplay` or `Hidden` (as `true` in any
/// ASCII case), or whose `Name` or `Exec` is missing or blank is left out;
/// any other is shown.
pub proof fn only_shown_applications_are_read(m: Map<Seq<char>, Seq<char>>)
    ensures
        lookup(m, "Type"@) != Some("Application"@) ==> !shown_application(m),
        is_true_spec(lookup(m, "NoDisplay"@)) ==> !shown_application(m),
        is_true_spec(lookup(m, "Hidden"@)) ==> !shown_application(m),
        !m.contains_key("Name"@) || trim(m["Name"@]).len() == 0 ==> !shown_application(m),
        !m.contains_key("Exec"@) || trim(m["Exec"@]).len() == 0 ==> !shown_application(m),
        lookup(m, "Type"@) == Some("Application"@) && !is_true_spec(lookup(m, "NoDisplay"@))
            && !is_true_spec(lookup(m, "Hidden"@)) && m.contains_key("Name"@) && trim(m["Name"@]).len() > 0
            && m.contains_key("Exec"@) && trim(m["Exec"@]).len() > 0 ==> shown_application(m),
{
}

/// The value of `key`, if set.
pub open spec fn lookup(m: Map<Seq<char>, Seq<char>>, key: Seq<char>) -> Option<Seq<char>> {
    if m.contains_key(key) {
        Some(m[key])
    } else {
        None
    }
}

/// The value of `key`, if set and not empty.
pub open spec fn lookup_nonempty(m: Map<Seq<char>, Seq<char>>, key: Seq<char>) -> Option<Seq<char>> {
    match lookup(m, key) {
        Some(v) => if v.len() > 0 {
            Some(v)
        } else {
            None
        },
        None => None,
    }
}

/// The value reads `true`, ignoring ASCII case.
pub open spec fn is_true_spec(v: Option<Seq<char>>) -> bool {
    match v {
        Some(s) => s.len() == 4 && (s[0] == 't' || s[0] == 'T') && (s[1] == 'r' || s[1] == 'R') && (
        s[2] == 'u' || s[2] == 'U') && (s[3] == 'e' || s[3] == 'E'),
        None => false,
    }
}

/// The identity of an entry read from `path`: its file name, or
/// `application.desktop` when it has none.
pub open spec fn entry_id(path: Seq<char>) -> Seq<char> {
    match path_file_name(path) {
        Some(f) => f,
        None => "application.desktop"@,
    }
}

/// A file with these values describes an application to show: its `Type` is
/// `Application`, it is neither `NoDisplay` nor `Hidden`, and it has a `Name`
/// and an `Exec` that are not blank.
pub open spec fn shown_application(m: Map<Seq<char>, Seq<char>>) -> bool {
    &&& lookup(m, "Type"@) == Some("Application"@)
    &&& !is_true_spec(lookup(m, "NoDisplay"@))
    &&& !is_true_spec(lookup(m, "Hidden"@))
    &&& m.contains_key("Name"@)
    &&& m.contains_key("Exec"@)
    &&& trim(m["Name"@]).len() > 0
    &&& trim(m["Exec"@]).len() > 0
}

/// `e` is the entry read from `path` with values `m`.
pub open spec fn entry_from(e: DesktopEntry, path: Seq<char>, m: Map<Seq<char>, Seq<char>>) -> bool {
    &&& e.id@ == entry_id(path)
    &&& e.name@ == trim(m["Name"@])
    &&& e.exec_command@ == trim(m["Exec"@])
    &&& opt_view(e.generic_name) == lookup_nonempty(m, "GenericName"@)
    &&& opt_view(e.comment) == lookup_nonempty(m, "Comment"@)
    &&& opt_view(e.icon) == lookup_nonempty(m, "Icon"@)
    &&& e.source@ == path
}

/// The map that a list of key/value pairs describes (a later pair wins).
pub open spec fn assoc(pairs: Seq<(Vec<char>, Vec<char>)>) -> Map<Seq<char>, Seq<char>>
    decreases pairs.len(),
{
    if pairs.len() == 0 {
        Map::empty()
    } else {
        assoc(pairs.drop_last()).insert(pairs.last().0@, pairs.last().1@)
    }
}

/// The values of a `[Desktop Entry]` group.
pub struct DesktopValues {
    pairs: Vec<(Vec<char>, Vec<char>)>,
}

impl View for DesktopValues {
    type V = Map<Seq<char>, Seq<char>>;

    closed spec fn view(&self) -> Map<Seq<char>, Seq<char>> {
        assoc(self.pairs@)
    }
}

proof fn lemma_assoc_lookup(pairs: Seq<(Vec<char>, Vec<char>)>, key: Seq<char>, i: int)
    requires
        -1 <= i < pairs.len(),
        forall|j: int| i < j < pairs.len() ==> (#[trigger] pairs[j]).0@ != key,
        i >= 0 ==> pairs[i].0@ == key,
    ensures
        i >= 0 ==> assoc(pairs).contains_key(key) && assoc(pairs)[key] == pairs[i].1@,
        i < 0 ==> !assoc(pairs).contains_key(key),
    decreases pairs.len(),
{
    if pairs.len() > 0 && i < pairs.len() - 1 {
        let t = pairs.drop_last();
        assert forall|j: int| i < j < t.len() implies (#[trigger] t[j]).0@ != key by {
            assert(t[j] == pairs[j]);
        }
        assert(pairs[pairs.len() - 1].0@ != key);
        lemma_assoc_lookup(t, key, i);
        if i >= 0 {
            assert(t[i] == pairs[i]);
        }
    }
}

impl DesktopValues {
    /// The value of `key`, if set.
    pub fn get(&self, key: &str) -> (r: Option<&Vec<char>>)
        ensures
            r matches Some(v) ==> lookup(self@, key@) == Some(v@),
            r is None ==> lookup(self@, key@) is None,
    {
        let k = chars_of(key);
        let mut i = self.pairs.len();
        while i > 0
            invariant
                k@ == key@,
                i <= self.pairs@.len(),
                forall|j: int| i <= j < self.pairs@.len() ==> (#[trigger] self.pairs@[j]).0@ != key@,
            decreases i,
        {
            if crate::text::chars_eq(&self.pairs[i - 1].0, &k) {
                proof {
                    lemma_assoc_lookup(self.pairs@, key@, i - 1);
                }
                return Some(&self.pairs[i - 1].1);
            }
            i = i - 1;
        }
        proof {
            lemma_assoc_lookup(self.pairs@, key@, -1);
        }
        None
    }
}

/// `s` with every `a` `b` pair replaced by `rep`.
fn replace_pair_chars(s: &Vec<char>, a: char, b: char, rep: char) -> (r: Vec<char>)
    ensures
        r@ == replace_pair(s@, a, b, rep),
{
    let mut out: Vec<char> = Vec::new();
    let mut i: usize = 0;
    assert(s@.skip(0) =~= s@);
    while i < s.len()
        invariant
            i <= s.len(),
            replace_pair(s@, a, b, rep) == out@ + replace_pair(s@.skip(i as int), a, b, rep),
        decreases s.len() - i,
    {
        let ghost rest = s@.skip(i as int);
        if i + 1 < s.len() && s[i] == a && s[i + 1] == b {
            out.push(rep);
            assert(rest.skip(2) =~= s@.skip(i + 2));
            assert(replace_pair(rest, a, b, rep) == seq![rep] + replace_pair(rest.skip(2), a, b, rep));
            i = i + 2;
        } else {
            out.push(s[i]);
            assert(rest.drop_first() =~= s@.skip(i + 1));
            assert(replace_pair(rest, a, b, rep) == seq![s@[i as int]] + replace_pair(
                rest.drop_first(),
                a,
                b,
                rep,
            ));
            i = i + 1;
        }
    }
    assert(s@.skip(i as int) =~= Seq::<char>::empty());
    assert(out@ + seq![] =~= out@);
    out
}

/// A value with its escapes replaced; see `unescape`.
fn unescape_chars(v: &Vec<char>) -> (r: Vec<char>)
    ensures
        r@ == unescape(v@),
{
    let a = replace_pair_chars(v, '\\', 'n', '\n');
    let b = replace_pair_chars(&a, '\\', 't', '\t');
    let c = replace_pair_chars(&b, '\\', 'r', '\r');
    replace_pair_chars(&c, '\\', '\\', '\\')
}

/// Whether a value reads `true`, ignoring ASCII case.
fn is_true(value: Option<&Vec<char>>) -> (r: bool)
    ensures
        r == is_true_spec(match value {
            Some(v) => Some(v@),
            None => None,
        }),
{
    match value {
        Some(v) => {
            if v.len() != 4 {
                return false;
            }
            (v[0] == 't' || v[0] == 'T') && (v[1] == 'r' || v[1] == 'R') && (v[2] == 'u' || v[2]
                == 'U') && (v[3] == 'e' || v[3] == 'E')
        },
        None => false,
    }
}

/// Reads the `[Desktop Entry]` group of a file; see `desktop_values`.
pub fn parse_desktop_values(content: &str) -> (r: DesktopValues)
    ensures
        r@ == desktop_values(content@),
{
    let text = chars_of(content);
    let all = split_lines(&text);
    let mut in_entry = false;
    let mut pairs: Vec<(Vec<char>, Vec<char>)> = Vec::new();
    let mut k: usize = 0;
    while k < all.len()
        invariant
            k <= all.len(),
            views(all@) == lines(content@),
            desktop_fold(views(all@).take(k as int)) == (in_entry, assoc(pairs@)),
        decreases all.len() - k,
    {
        let ghost ls = views(all@).take(k + 1);
        assert(ls.drop_last() =~= views(all@).take(k as int));
        let ghost raw = all@[k as int]@;
        assert(ls.last() == raw);
        let line = trim_chars(&all[k]);
        if line.len() == 0 || line[0] == '#' {
        } else if line[0] == '[' && line[line.len() - 1] == ']' {
            in_entry = chars_eq_str(&line, "[Desktop Entry]");
        } else if in_entry {
            if let Some(eq) = find_char_from(&line, '=', 0) {
                proof {
                    assert(line@.skip(0) =~= line@);
                    lemma_find_char(line@, '=');
                }
                let key = slice_chars(&line, 0, eq);
                let value = slice_chars(&line, eq + 1, line.len());
                match find_char_from(&key, '[', 0) {
                    Some(_) => {
                        assert(key@.skip(0) =~= key@);
                    },
                    None => {
                        assert(key@.skip(0) =~= key@);
                        let ghost before = pairs@;
                        let unescaped = unescape_chars(&value);
                        pairs.push((key, unescaped));
                        assert(pairs@.drop_last() =~= before);
                    },
                }
            } else {
                assert(line@.skip(0) =~= line@);
            }
        }
        k = k + 1;
    }
    assert(views(all@).take(all.len() as int) =~= views(all@));
    DesktopValues { pairs }
}

/// The value of `key` with surrounding whitespace removed, if set.
fn trimmed_value(values: &DesktopValues, key: &str) -> (r: Option<String>)
    ensures
        r matches Some(s) ==> values@.contains_key(key@) && s@ == trim(values@[key@]),
        r is None ==> !values@.contains_key(key@),
{
    match values.get(key) {
        Some(v) => Some(string_of(&trim_chars(v))),
        None => None,
    }
}

/// The value of `key`, if set and not empty.
fn nonempty_value(values: &DesktopValues, key: &str) -> (r: Option<String>)
    ensures
        opt_view(r) == lookup_nonempty(values@, key@),
{
    match values.get(key) {
        Some(v) => if v.len() > 0 {
            Some(string_of(v))
        } else {
            None
        },
        None => None,
    }
}

/// The application a `.desktop` file at `path` describes, if it is one to show.
pub fn parse_desktop_entry(path: &str, content: &str) -> (r: Option<DesktopEntry>)
    ensures
        r is Some <==> shown_application(desktop_values(content@)),
        r matches Some(e) ==> entry_from(e, path@, desktop_values(content@)),
{
    let values = parse_desktop_values(content);
    let is_app = match values.get("Type") {
        Some(t) => chars_eq_str(t, "Application"),
        None => false,
    };
    if !is_app {
        return None;
    }
    if is_true(values.get("NoDisplay")) || is_true(values.get("Hidden")) {
        return None;
    }
    let name = match trimmed_value(&values, "Name") {
        Some(n) => n,
        None => return None,
    };
    let exec = match trimmed_value(&values, "Exec") {
        Some(e) => e,
        None => return None,
    };
    if name.as_str().unicode_len() == 0 || exec.as_str().unicode_len() == 0 {
        return None;
    }
    let id = match file_name(path) {
        Some(f) => f,
        None => String::from_str("application.desktop"),
    };
    Some(
        DesktopEntry {
            id,
            name,
            generic_name: nonempty_value(&values, "GenericName"),
            comment: nonempty_value(&values, "Comment"),
            exec_command: exec,
            icon: nonempty_value(&values, "Icon"),
            source: path.to_owned(),
        },
    )
}

} // verus!
