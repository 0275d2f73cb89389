//! From an entry's `Exec` line to the program and arguments to start.
use vstd::prelude::*;
use crate::entry::DesktopEntry;
use crate::text::{chars_of, is_whitespace, slice_chars, string_of, unicode_white_space};

verus! {

/// The words that a POSIX shell would split `line` into, or `None` when the
/// line is malformed (what `shlex::split` returns).
pub uninterp spec fn shell_words(line: Seq<char>) -> Option<Seq<Seq<char>>>;

/// The character sequences of a list of strings.
pub open spec fn string_views(v: Seq<String>) -> Seq<Seq<char>> {
    v.map_values(|s: String| s@)
}

/// `shlex::split`: the shell words of `line`, `None` for a malformed line
/// (an unterminated quote or a trailing backslash). The contract names the
/// result; the shell grammar is not restated.
#[verifier::external_body]
fn shlex_split(line: &str) -> (r: Option<Vec<String>>)
    ensures
        match r {
            Some(words) => shell_words(line@) == Some(string_views(words@)),
            None => shell_words(line@) is None,
        },
{
    shlex::split(line)
}

/// The field codes of the desktop entry specification (`%f`, `%U`, ...).
pub open spec fn is_field_code_spec(c: char) -> bool {
    c == 'f' || c == 'F' || c == 'u' || c == 'U' || c == 'i' || c == 'c' || c == 'k' || c == 'v' || c
        == 'm' || c == 'd' || c == 'D' || c == 'n' || c == 'N'
}

/// `s` with field codes removed and `%%` turned into `%`; a `%` before any
/// other character is kept.
pub open spec fn strip_codes(s: Seq<char>) -> Seq<char>
    decreases s.len(),
{
    if s.len() == 0 {
        seq![]
    } else if s[0] == '%' && s.len() >= 2 && s[1] == '%' {
        seq!['%'] + strip_codes(s.skip(2))
    } else if s[0] == '%' && s.len() >= 2 && is_field_code_spec(s[1]) {
        strip_codes(s.skip(2))
    } else {
        seq![s[0]] + strip_codes(s.drop_first())
    }
}

/// Length of the leading run of non-whitespace characters.
pub open spec fn word_len(s: Seq<char>) -> nat
    decreases s.len(),
{
    if s.len() == 0 || unicode_white_space(s[0]) {
        0
    } else {
        1 + word_len(s.drop_first())
    }
}

/// Length of the leading run of whitespace characters.
pub open spec fn space_len(s: Seq<char>) -> nat
    decreases s.len(),
{
    if s.len() > 0 && unicode_white_space(s[0]) {
        1 + space_len(s.drop_first())
    } else {
        0
    }
}

pub proof fn lemma_word_len(s: Seq<char>)
    ensures
        word_len(s) <= s.len(),
        space_len(s) <= s.len(),
        s.len() > 0 && !unicode_white_space(s[0]) ==> word_len(s) > 0,
        s.len() > 0 && unicode_white_space(s[0]) ==> space_len(s) > 0,
    decreases s.len(),
{
    if s.len() > 0 {
        lemma_word_len(s.drop_first());
    }
}

/// The whitespace-separated words of `s` (what `str::split_whitespace` yields).
pub open spec fn words(s: Seq<char>) -> Seq<Seq<char>>
    decreases s.len(),
{
    if s.len() == 0 {
        seq![]
    } else if unicode_white_space(s[0]) {
        words(s.drop_first())
    } else {
        let n = word_len(s);
        if 0 < n <= s.len() {
            seq![s.take(n as int)] + words(s.skip(n as int))
        } else {
            seq![s]
        }
    }
}

/// The words joined with single spaces.
pub open spec fn join_spaces(ws: Seq<Seq<char>>) -> Seq<char>
    decreases ws.len(),
{
    if ws.len() == 0 {
        seq![]
    } else if ws.len() == 1 {
        ws[0]
    } else {
        join_spaces(ws.drop_last()) + seq![' '] + ws.last()
    }
}

/// The command line of an `Exec` value: field codes removed, runs of
/// whitespace collapsed to one space, no leading or trailing whitespace.
pub open spec fn command_line(exec: Seq<char>) -> Seq<char> {
    join_spaces(words(strip_codes(exec)))
}

/// Whether `c` is a field code.
fn is_field_code(c: char) -> (r: bool)
    ensures
        r == is_field_code_spec(c),
{
    c == 'f' || c == 'F' || c == 'u' || c == 'U' || c == 'i' || c == 'c' || c == 'k' || c == 'v' || c
        == 'm' || c == 'd' || c == 'D' || c == 'n' || c == 'N'
}

/// Field codes removed, `%%` turned into `%`.
fn strip_codes_chars(s: &Vec<char>) -> (r: Vec<char>)
    ensures
        r@ == strip_codes(s@),
{
    let mut out: Vec<char> = Vec::new();
    let mut i: usize = 0;
    assert(s@.skip(0) =~= s@);
    while i < s.len()
        invariant
            i <= s.len(),
            strip_codes(s@) == out@ + strip_codes(s@.skip(i as int)),
        decreases s.len() - i,
    {
        let ghost rest = s@.skip(i as int);
        let ghost before = out@;
        let c = s[i];
        if c == '%' && i + 1 < s.len() && s[i + 1] == '%' {
            out.push('%');
            assert(rest.skip(2) =~= s@.skip(i + 2));
            assert(strip_codes(rest) == seq!['%'] + strip_codes(rest.skip(2)));
            assert(before + (seq!['%'] + strip_codes(rest.skip(2))) =~= out@ + strip_codes(
                s@.skip(i + 2),
            ));
            i = i + 2;
        } else if c == '%' && i + 1 < s.len() && is_field_code(s[i + 1]) {
            assert(rest.skip(2) =~= s@.skip(i + 2));
            assert(strip_codes(rest) == strip_codes(rest.skip(2)));
            i = i + 2;
        } else {
            out.push(c);
            assert(rest.drop_first() =~= s@.skip(i + 1));
            assert(strip_codes(rest) == seq![c] + strip_codes(rest.drop_first()));
            assert(before + (seq![c] + strip_codes(rest.drop_first())) =~= out@ + strip_codes(
                s@.skip(i + 1),
            ));
            i = i + 1;
        }
    }
    assert(s@.skip(i as int) =~= Seq::<char>::empty());
    assert(out@ + seq![] =~= out@);
    out
}

/// The words of `s` joined with single spaces.
fn join_words(s: &Vec<char>) -> (r: Vec<char>)
    ensures
        r@ == join_spaces(words(s@)),
{
    let mut out: Vec<char> = Vec::new();
    let mut count: usize = 0;
    let mut i: usize = 0;
    let ghost mut done: Seq<Seq<char>> = seq![];
    assert(s@.skip(0) =~= s@);
    while i < s.len()
        invariant
            i <= s.len(),
            words(s@) == done + words(s@.skip(i as int)),
            out@ == join_spaces(done),
            count == done.len(),
            count <= i,
        decreases s.len() - i,
    {
        let ghost rest = s@.skip(i as int);
        if is_whitespace(s[i]) {
            assert(rest.drop_first() =~= s@.skip(i + 1));
            i = i + 1;
        } else {
            let mut j = i;
            while j < s.len() && !is_whitespace(s[j])
                invariant
                    i <= j <= s.len(),
                    word_len(rest) == (j - i) + word_len(s@.skip(j as int)),
                decreases s.len() - j,
            {
                assert(s@.skip(j as int).drop_first() =~= s@.skip(j + 1));
                j = j + 1;
            }
            proof {
                assert(word_len(s@.skip(j as int)) == 0);
                lemma_word_len(rest);
                assert(rest.take((j - i) as int) =~= s@.subrange(i as int, j as int));
                assert(rest.skip((j - i) as int) =~= s@.skip(j as int));
            }
            let word = slice_chars(s, i, j);
            if count > 0 {
                out.push(' ');
            }
            let mut k: usize = 0;
            let ghost base = out@;
            while k < word.len()
                invariant
                    k <= word.len(),
                    out@ == base + word@.take(k as int),
                decreases word.len() - k,
            {
                out.push(word[k]);
                assert(word@.take(k + 1) =~= word@.take(k as int).push(word@[k as int]));
                k = k + 1;
            }
            assert(word@.take(word.len() as int) =~= word@);
            proof {
                let nd = done.push(word@);
                assert(nd.drop_last() =~= done);
                if count == 0 {
                    assert(done.len() == 0);
                    assert(join_spaces(nd) == nd[0]);
                    assert(out@ =~= word@);
                } else {
                    assert(out@ =~= join_spaces(done) + seq![' '] + word@);
                }
                assert(words(rest) == seq![word@] + words(s@.skip(j as int)));
                assert(done + (seq![word@] + words(s@.skip(j as int))) =~= nd + words(s@.skip(j as int)));
                done = nd;
            }
            count = count + 1;
            i = j;
        }
    }
    assert(s@.skip(i as int) =~= Seq::<char>::empty());
    assert(done + seq![] =~= done);
    out
}

/// The command line of an `Exec` value; see `command_line`.
pub fn strip_desktop_field_codes(exec: &str) -> (r: String)
    ensures
        r@ == command_line(exec@),
{
    let stripped = strip_codes_chars(&chars_of(exec));
    string_of(&join_words(&stripped))
}

/// What to start: a program and its arguments.
pub struct LaunchCommand {
    pub program: String,
    pub args: Vec<String>,
}

/// Why an entry cannot be started.
#[derive(Debug, Clone, Copy, PartialEq, Eq)]
pub enum LaunchError {
    /// The command line is not valid shell syntax.
    Unparsable,
    /// The command line holds no word.
    Empty,
}

/// The launch that the shell words of a command line give: the first word is
/// the program, the others its arguments; no word at all is an error, and so
/// is a command line the shell could not split.
pub fn command_from_words(words: Option<Vec<String>>) -> (r: Result<LaunchCommand, LaunchError>)
    ensures
        words is None ==> r == Err::<LaunchCommand, LaunchError>(LaunchError::Unparsable),
        words matches Some(ws) ==> (ws@.len() == 0 <==> r == Err::<LaunchCommand, LaunchError>(
            LaunchError::Empty)),
        words matches Some(ws) ==> (ws@.len() > 0 <==> r is Ok),
        r matches Ok(c) ==> words matches Some(ws) && ws@.len() > 0 && c.program == ws@[0]
            && c.args@ == ws@.drop_first(),
{
    match words {
        None => Err(LaunchError::Unparsable),
        Some(ws) => {
            if ws.len() == 0 {
                return Err(LaunchError::Empty);
            }
            let ghost all = ws@;
            let mut rest = ws;
            let program = rest.remove(0);
            assert(rest@ =~= all.drop_first());
            Ok(LaunchCommand { program, args: rest })
        },
    }
}

/// The launch for `entry`: its `Exec` command line split the way a shell splits it.
pub fn launch_command(entry: &DesktopEntry) -> (r: Result<LaunchCommand, LaunchError>)
    ensures
        shell_words(command_line(entry.exec_command@)) is None ==> r == Err::<LaunchCommand, LaunchError>(
            LaunchError::Unparsable),
        shell_words(command_line(entry.exec_command@)) matches Some(ws) ==> (ws.len() == 0
            <==> r == Err::<LaunchCommand, LaunchError>(LaunchError::Empty)),
        r matches Ok(c) ==> shell_words(command_line(entry.exec_command@)) matches Some(ws) && ws.len() > 0
            && c.program@ == ws[0] && string_views(c.args@) == ws.drop_first(),
{
    let line = strip_desktop_field_codes(entry.exec_command.as_str());
    let words = shlex_split(line.as_str());
    let r = command_from_words(words);
    proof {
        if r is Ok {
            let ws = words->0@;
            assert(string_views(r->Ok_0.args@) =~= string_views(ws).drop_first());
        }
    }
    r
}

} // verus!
