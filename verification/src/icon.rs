//! Choosing icon files and naming their cached copies.
use vstd::prelude::*;
use crate::entry::opt_view;
use crate::text::{chars_eq_str, chars_of, contains_chars, contains_seq, string_of};

verus! {

/// The kind of an icon file.
#[derive(Debug, Clone, Copy, PartialEq, Eq, Structural)]
pub enum IconFormat {
    Raster,
    Svg,
}

/// The extension of a file name (what `Path::extension` gives): the part
/// after its last `.`, none when it has no `.` but a leading one.
pub open spec fn extension_of(name: Seq<char>) -> Option<Seq<char>> {
    match last_index_of(name, '.') {
        Some(i) => if i == 0 {
            None
        } else {
            Some(name.skip(i as int + 1))
        },
        None => None,
    }
}

/// The extension of a path: that of its file name, if it has one.
pub open spec fn path_extension(path: Seq<char>) -> Option<Seq<char>> {
    match crate::parser::path_file_name(path) {
        Some(name) => extension_of(name),
        None => None,
    }
}

/// The extension of the file name `name`; see `extension_of`.
fn extension_of_name(name: &str) -> (r: Option<String>)
    ensures
        opt_view(r) == extension_of(name@),
{
    let cs = chars_of(name);
    let mut i = cs.len();
    assert(cs@.take(i as int) =~= cs@);
    while i > 0
        invariant
            cs@ == name@,
            i <= cs.len(),
            last_index_of(cs@, '.') == last_index_of(cs@.take(i as int), '.'),
        decreases i,
    {
        if cs[i - 1] == '.' {
            assert(cs@.take(i as int).last() == '.');
            if i - 1 == 0 {
                return None;
            }
            let ext = string_of(&crate::text::slice_chars(&cs, i, cs.len()));
            assert(cs@.subrange(i as int, cs.len() as int) =~= cs@.skip(i as int));
            return Some(ext);
        }
        assert(cs@.take(i as int).drop_last() =~= cs@.take(i - 1));
        i = i - 1;
    }
    assert(cs@.take(0) =~= Seq::<char>::empty());
    None
}

/// The extension of `path`; see `path_extension`.
fn extension(path: &str) -> (r: Option<String>)
    ensures
        opt_view(r) == path_extension(path@),
{
    match crate::parser::file_name(path) {
        Some(name) => extension_of_name(name.as_str()),
        None => None,
    }
}

/// ASCII letters lowercased, other characters kept.
pub open spec fn ascii_lower(c: char) -> char {
    if 'A' <= c && c <= 'Z' {
        ((c as u32) + 32) as char
    } else {
        c
    }
}

/// `s` with its ASCII letters lowercased (what `to_ascii_lowercase` gives).
pub open spec fn ascii_lowercase(s: Seq<char>) -> Seq<char> {
    s.map_values(|c: char| ascii_lower(c))
}

fn ascii_lower_char(c: char) -> (r: char)
    ensures
        r == ascii_lower(c),
{
    if c == 'A' { 'a' } else if c == 'B' { 'b' } else if c == 'C' { 'c' } else if c == 'D' { 'd' }
    else if c == 'E' { 'e' } else if c == 'F' { 'f' } else if c == 'G' { 'g' } else if c == 'H' { 'h' }
    else if c == 'I' { 'i' } else if c == 'J' { 'j' } else if c == 'K' { 'k' } else if c == 'L' { 'l' }
    else if c == 'M' { 'm' } else if c == 'N' { 'n' } else if c == 'O' { 'o' } else if c == 'P' { 'p' }
    else if c == 'Q' { 'q' } else if c == 'R' { 'r' } else if c == 'S' { 's' } else if c == 'T' { 't' }
    else if c == 'U' { 'u' } else if c == 'V' { 'v' } else if c == 'W' { 'w' } else if c == 'X' { 'x' }
    else if c == 'Y' { 'y' } else if c == 'Z' { 'z' } else { c }
}

/// `s` with its ASCII letters lowercased.
fn ascii_lowercase_chars(s: &Vec<char>) -> (r: Vec<char>)
    ensures
        r@ == ascii_lowercase(s@),
{
    let mut r: Vec<char> = Vec::new();
    let mut i: usize = 0;
    while i < s.len()
        invariant
            i <= s.len(),
            r@ == ascii_lowercase(s@.take(i as int)),
        decreases s.len() - i,
    {
        r.push(ascii_lower_char(s[i]));
        assert(ascii_lowercase(s@.take(i + 1)) =~= ascii_lowercase(s@.take(i as int)).push(
            ascii_lower(s@[i as int]),
        ));
        i = i + 1;
    }
    assert(s@.take(s.len() as int) =~= s@);
    r
}

/// The format of an icon file by its (case-insensitive) extension: `png`,
/// `jpg`, `jpeg` and `webp` are raster images, `svg` is SVG, others are not icons.
pub open spec fn icon_format_spec(path: Seq<char>) -> Option<IconFormat> {
    match path_extension(path) {
        Some(e) => {
            let e = ascii_lowercase(e);
            if e == "png"@ || e == "jpg"@ || e == "jpeg"@ || e == "webp"@ {
                Some(IconFormat::Raster)
            } else if e == "svg"@ {
                Some(IconFormat::Svg)
            } else {
                None
            }
        },
        None => None,
    }
}

/// The format of the icon file at `path`, if it is one.
pub fn icon_format(path: &str) -> (r: Option<IconFormat>)
    ensures
        r == icon_format_spec(path@),
{
    match extension(path) {
        Some(e) => {
            let e = ascii_lowercase_chars(&chars_of(e.as_str()));
            if chars_eq_str(&e, "png") || chars_eq_str(&e, "jpg") || chars_eq_str(&e, "jpeg")
                || chars_eq_str(&e, "webp") {
                Some(IconFormat::Raster)
            } else if chars_eq_str(&e, "svg") {
                Some(IconFormat::Svg)
            } else {
                None
            }
        },
        None => None,
    }
}

/// The icon sizes that count, largest first.
pub open spec fn icon_sizes() -> Seq<int> {
    seq![1024, 512, 256, 192, 128, 96, 72, 64, 48, 32, 24, 22, 16]
}

/// The text `NxN` for size `n` of `icon_sizes`.
pub open spec fn size_text(n: int) -> Seq<char> {
    if n == 1024 { "1024x1024"@ } else if n == 512 { "512x512"@ } else if n == 256 { "256x256"@ }
    else if n == 192 { "192x192"@ } else if n == 128 { "128x128"@ } else if n == 96 { "96x96"@ }
    else if n == 72 { "72x72"@ } else if n == 64 { "64x64"@ } else if n == 48 { "48x48"@ }
    else if n == 32 { "32x32"@ } else if n == 24 { "24x24"@ } else if n == 22 { "22x22"@ }
    else { "16x16"@ }
}

/// The first size of `icon_sizes` (from position `k`) whose `NxN` the path holds, or 0.
pub open spec fn size_score(path: Seq<char>, k: int) -> int
    decreases 13 - k,
{
    if k < 0 || k >= 13 {
        0
    } else if contains_seq(path, size_text(icon_sizes()[k])) {
        icon_sizes()[k]
    } else {
        size_score(path, k + 1)
    }
}

/// How good an icon file is (higher is better), from its lowercased path:
/// symbolic icons lose 10000; scalable ones win 4000, application icons 2000,
/// SVG files 3000; and the first listed size (`1024x1024`, `512x512`, ...)
/// the path holds adds that size.
pub open spec fn icon_score(path: Seq<char>, format: IconFormat) -> int {
    let p = ascii_lowercase(path);
    let symbolic = if contains_seq(p, "symbolic"@) || contains_seq(p, "-symbolic"@) {
        -10000int
    } else {
        0
    };
    let scalable = if contains_seq(p, "/scalable/"@) {
        4000int
    } else {
        0
    };
    let app = if contains_seq(p, "/apps/"@) || contains_seq(p, "/pixmaps/"@) {
        2000int
    } else {
        0
    };
    let fmt = match format {
        IconFormat::Svg => 3000int,
        IconFormat::Raster => 0,
    };
    symbolic + scalable + app + fmt + size_score(p, 0)
}

fn holds(p: &Vec<char>, needle: &str) -> (r: bool)
    ensures
        r == contains_seq(p@, needle@),
{
    contains_chars(p, &chars_of(needle))
}

fn size_text_str(k: usize) -> (r: &'static str)
    requires
        k < 13,
    ensures
        r@ == size_text(icon_sizes()[k as int]),
{
    if k == 0 { "1024x1024" } else if k == 1 { "512x512" } else if k == 2 { "256x256" }
    else if k == 3 { "192x192" } else if k == 4 { "128x128" } else if k == 5 { "96x96" }
    else if k == 6 { "72x72" } else if k == 7 { "64x64" } else if k == 8 { "48x48" }
    else if k == 9 { "32x32" } else if k == 10 { "24x24" } else if k == 11 { "22x22" }
    else { "16x16" }
}

fn size_value(k: usize) -> (r: i32)
    requires
        k < 13,
    ensures
        r == icon_sizes()[k as int],
{
    if k == 0 { 1024 } else if k == 1 { 512 } else if k == 2 { 256 } else if k == 3 { 192 }
    else if k == 4 { 128 } else if k == 5 { 96 } else if k == 6 { 72 } else if k == 7 { 64 }
    else if k == 8 { 48 } else if k == 9 { 32 } else if k == 10 { 24 } else if k == 11 { 22 }
    else { 16 }
}

proof fn lemma_size_score(path: Seq<char>, k: int)
    ensures
        0 <= size_score(path, k) <= 1024,
    decreases 13 - k,
{
    if 0 <= k < 13 {
        lemma_size_score(path, k + 1);
    }
}

/// The first size (from position `k`) whose `NxN` the path holds, or 0.
fn size_score_from(p: &Vec<char>, k: usize) -> (r: i32)
    requires
        k <= 13,
    ensures
        r == size_score(p@, k as int),
        0 <= r <= 1024,
    decreases 13 - k,
{
    proof {
        lemma_size_score(p@, k as int);
    }
    if k >= 13 {
        return 0;
    }
    if holds(p, size_text_str(k)) {
        size_value(k)
    } else {
        size_score_from(p, k + 1)
    }
}

/// How good the icon file at `path` is; see `icon_score`.
pub fn score_icon_path(path: &str, format: IconFormat) -> (r: i32)
    ensures
        r == icon_score(path@, format),
{
    let p = ascii_lowercase_chars(&chars_of(path));
    let symbolic: i32 = if holds(&p, "symbolic") || holds(&p, "-symbolic") {
        -10000
    } else {
        0
    };
    let scalable: i32 = if holds(&p, "/scalable/") {
        4000
    } else {
        0
    };
    let app: i32 = if holds(&p, "/apps/") || holds(&p, "/pixmaps/") {
        2000
    } else {
        0
    };
    let fmt: i32 = match format {
        IconFormat::Svg => 3000,
        IconFormat::Raster => 0,
    };
    let size = size_score_from(&p, 0);
    symbolic + scalable + app + fmt + size
}
/// `c` may appear in a cache file name: an ASCII letter or digit, `-`, `_` or `.`.
pub open spec fn keeps_char(c: char) -> bool {
    ('a' <= c && c <= 'z') || ('A' <= c && c <= 'Z') || ('0' <= c && c <= '9') || c == '-' || c == '_'
        || c == '.'
}

/// The name of the cached copy of icon `name`: other characters replaced by
/// `_`, and `unknown` for an empty name.
pub open spec fn sanitized(name: Seq<char>) -> Seq<char> {
    if name.len() == 0 {
        "unknown"@
    } else {
        name.map_values(|c: char| if keeps_char(c) { c } else { '_' })
    }
}

/// The name of the cached copy of icon `name`; see `sanitized`.
pub fn sanitize_icon_name(name: &str) -> (r: String)
    ensures
        r@ == sanitized(name@),
{
    let s = chars_of(name);
    if s.len() == 0 {
        return String::from_str("unknown");
    }
    let mut out: Vec<char> = Vec::new();
    let mut i: usize = 0;
    while i < s.len()
        invariant
            i <= s.len(),
            out@ == s@.take(i as int).map_values(|c: char| if keeps_char(c) { c } else { '_' }),
        decreases s.len() - i,
    {
        let c = s[i];
        let kept = ('a' <= c && c <= 'z') || ('A' <= c && c <= 'Z') || ('0' <= c && c <= '9') || c == '-'
            || c == '_' || c == '.';
        out.push(if kept { c } else { '_' });
        assert(s@.take(i + 1).map_values(|c: char| if keeps_char(c) { c } else { '_' }) =~= s@.take(
            i as int,
        ).map_values(|c: char| if keeps_char(c) { c } else { '_' }).push(if keeps_char(c) { c } else { '_' }));
        i = i + 1;
    }
    assert(s@.take(s.len() as int) =~= s@);
    string_of(&out)
}

/// The file name of the cached copy of icon `name`: its sanitized name and `.png`.
pub fn cached_icon_file_name(name: &str) -> (r: String)
    ensures
        r@ == sanitized(name@) + ".png"@,
{
    let base = sanitize_icon_name(name);
    base.concat(".png")
}

/// Position of the last `c` in `s`, if any.
pub open spec fn last_index_of(s: Seq<char>, c: char) -> Option<nat>
    decreases s.len(),
{
    if s.len() == 0 {
        None
    } else if s.last() == c {
        Some((s.len() - 1) as nat)
    } else {
        last_index_of(s.drop_last(), c)
    }
}

/// A file name without its extension (what `Path::file_stem` gives): the part
/// before the last `.`, or the whole name when it has no `.` but a leading one.
pub open spec fn stem_of(name: Seq<char>) -> Seq<char> {
    match last_index_of(name, '.') {
        Some(i) => if i == 0 {
            name
        } else {
            name.take(i as int)
        },
        None => name,
    }
}

/// The name of a file without its extension; see `stem_of`.
fn file_stem_of(name: &str) -> (r: String)
    ensures
        r@ == stem_of(name@),
{
    let cs = chars_of(name);
    let mut i = cs.len();
    assert(cs@.take(i as int) =~= cs@);
    while i > 0
        invariant
            cs@ == name@,
            i <= cs.len(),
            last_index_of(cs@, '.') == last_index_of(cs@.take(i as int), '.'),
        decreases i,
    {
        if cs[i - 1] == '.' {
            assert(cs@.take(i as int).last() == '.');
            if i - 1 == 0 {
                return string_of(&cs);
            }
            return string_of(&crate::text::slice_chars(&cs, 0, i - 1));
        }
        assert(cs@.take(i as int).drop_last() =~= cs@.take(i - 1));
        i = i - 1;
    }
    assert(cs@.take(0) =~= Seq::<char>::empty());
    string_of(&cs)
}

/// The icon a file offers for the index: its name without extension, and
/// how good it is, if it is an image file with a name.
pub open spec fn candidate_spec(path: Seq<char>) -> Option<(Seq<char>, int)> {
    match icon_format_spec(path) {
        Some(format) => match crate::parser::path_file_name(path) {
            Some(name) => Some((stem_of(name), icon_score(path, format))),
            None => None,
        },
        None => None,
    }
}

/// The icon the file at `path` offers for the index; see `candidate_spec`.
pub fn icon_candidate(path: &str) -> (r: Option<(String, i32)>)
    ensures
        match r {
            Some((stem, score)) => candidate_spec(path@) == Some((stem@, score as int)),
            None => candidate_spec(path@) is None,
        },
{
    let format = match icon_format(path) {
        Some(f) => f,
        None => return None,
    };
    let name = match crate::parser::file_name(path) {
        Some(n) => n,
        None => return None,
    };
    Some((file_stem_of(name.as_str()), score_icon_path(path, format)))
}

/// Whether a candidate scoring `score` replaces the one already indexed under
/// its name: it does when there is none or it scores strictly higher (so the
/// first of equally good files stays).
pub fn replaces_indexed(existing: Option<i32>, score: i32) -> (r: bool)
    ensures
        r == match existing {
            Some(e) => e < score,
            None => true,
        },
{
    match existing {
        Some(e) => e < score,
        None => true,
    }
}

/// `name` is an absolute path (on Unix: it starts with `/`).
pub open spec fn is_absolute_spec(name: Seq<char>) -> bool {
    name.len() > 0 && name[0] == '/'
}

/// Whether icon `name` names its file directly: an absolute path to an
/// existing image file (`exists` says whether the file is there).
pub fn names_icon_file(name: &str, exists: bool) -> (r: bool)
    ensures
        r == (is_absolute_spec(name@) && exists && icon_format_spec(name@) is Some),
{
    let cs = chars_of(name);
    let absolute = cs.len() > 0 && cs[0] == '/';
    absolute && exists && icon_format(name).is_some()
}

/// The icon name of an entry: its `Icon` value trimmed, when not blank.
pub open spec fn icon_name_spec(icon: Option<Seq<char>>) -> Option<Seq<char>> {
    match icon {
        Some(i) => if crate::text::trim(i).len() > 0 {
            Some(crate::text::trim(i))
        } else {
            None
        },
        None => None,
    }
}

/// The icon name of `entry`; see `icon_name_spec`.
pub fn icon_name(entry: &crate::entry::DesktopEntry) -> (r: Option<String>)
    ensures
        opt_view(r) == icon_name_spec(opt_view(entry.icon)),
{
    match &entry.icon {
        Some(i) => {
            let t = crate::text::trim_string(i.as_str());
            if t.unicode_len() > 0 {
                Some(t)
            } else {
                None
            }
        },
        None => None,
    }
}

} // verus!
