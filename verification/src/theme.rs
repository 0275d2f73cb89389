//! Colors, and the palette the launcher is drawn with.
//!
//! The palette comes from hyprcolor's `colors.json`: colors written as
//! `#rrggbb`. Missing or unreadable palettes fall back to built-in colors.
use vstd::prelude::*;
use crate::num::{parse_unsigned, parse_unsigned_chars};
use crate::text::{chars_of, slice_chars, trim, trim_chars};

verus! {

/// A color with alpha, 8 bits per channel.
#[derive(Debug, Clone, Copy, PartialEq, Eq, Structural)]
pub struct Color {
    pub r: u8,
    pub g: u8,
    pub b: u8,
    pub a: u8,
}

/// The number of bytes `c` takes in UTF-8.
pub open spec fn utf8_len(c: char) -> nat {
    if c <= '\u{7f}' {
        1
    } else if c <= '\u{7ff}' {
        2
    } else if c <= '\u{ffff}' {
        3
    } else {
        4
    }
}

/// The number of bytes `s` takes in UTF-8.
pub open spec fn byte_len(s: Seq<char>) -> nat
    decreases s.len(),
{
    if s.len() == 0 {
        0
    } else {
        byte_len(s.drop_last()) + utf8_len(s.last())
    }
}

/// The number of characters whose bytes make up the first `b` bytes of `s`,
/// if `b` falls between two characters.
pub open spec fn chars_before_byte(s: Seq<char>, b: nat) -> Option<nat>
    decreases s.len(),
{
    if b == 0 {
        Some(0)
    } else if s.len() == 0 || utf8_len(s[0]) > b {
        None
    } else {
        match chars_before_byte(s.drop_first(), (b - utf8_len(s[0])) as nat) {
            Some(k) => Some(k + 1),
            None => None,
        }
    }
}

/// `s` without its leading `#` characters.
pub open spec fn strip_hashes(s: Seq<char>) -> Seq<char>
    decreases s.len(),
{
    if s.len() > 0 && s[0] == '#' {
        strip_hashes(s.drop_first())
    } else {
        s
    }
}

/// The hex digits of a color value: surrounding whitespace and leading `#`s removed.
pub open spec fn hex_digits(value: Seq<char>) -> Seq<char> {
    strip_hashes(trim(value))
}

/// Cutting the six bytes of the hex digits into pairs would cut through a character.
pub open spec fn hex_cut_splits_char(value: Seq<char>) -> bool {
    let raw = hex_digits(value);
    byte_len(raw) == 6 && (chars_before_byte(raw, 2) is None || chars_before_byte(raw, 4) is None)
}

/// The channel written by `s` in hexadecimal (an optional `+` then one or two digits).
pub open spec fn hex_channel(s: Seq<char>) -> Option<u8> {
    match parse_unsigned(s, 16, 255) {
        Some(v) => Some(v as u8),
        None => None,
    }
}

/// The opaque color that a value `#rrggbb` describes: six bytes after
/// trimming and removing leading `#`s, cut into three pairs that each read as
/// a hexadecimal byte.
pub open spec fn from_hex_spec(value: Seq<char>) -> Option<Color> {
    let raw = hex_digits(value);
    if byte_len(raw) != 6 {
        None
    } else {
        let k2 = chars_before_byte(raw, 2).unwrap_or(0) as int;
        let k4 = chars_before_byte(raw, 4).unwrap_or(0) as int;
        match (
            hex_channel(raw.subrange(0, k2)),
            hex_channel(raw.subrange(k2, k4)),
            hex_channel(raw.subrange(k4, raw.len() as int)),
        ) {
            (Some(r), Some(g), Some(b)) => Some(Color { r, g, b, a: 255 }),
            _ => None,
        }
    }
}

fn char_utf8_len(c: char) -> (r: usize)
    ensures
        r == utf8_len(c),
{
    if c <= '\u{7f}' {
        1
    } else if c <= '\u{7ff}' {
        2
    } else if c <= '\u{ffff}' {
        3
    } else {
        4
    }
}

/// `s` without its leading `#` characters.
fn strip_hashes_chars(s: &Vec<char>) -> (r: Vec<char>)
    ensures
        r@ == strip_hashes(s@),
{
    let mut i: usize = 0;
    assert(s@.skip(0) =~= s@);
    while i < s.len() && s[i] == '#'
        invariant
            i <= s.len(),
            strip_hashes(s@) == strip_hashes(s@.skip(i as int)),
        decreases s.len() - i,
    {
        assert(s@.skip(i as int).drop_first() =~= s@.skip(i + 1));
        i = i + 1;
    }
    slice_chars(s, i, s.len())
}

/// Where the UTF-8 bytes of `s` are cut after `b` bytes, counted in characters.
fn cut_at_byte(s: &Vec<char>, b: usize) -> (r: Option<usize>)
    requires
        b <= 8,
    ensures
        r matches Some(k) ==> chars_before_byte(s@, b as nat) == Some(k as nat) && k <= s@.len(),
        r is None ==> chars_before_byte(s@, b as nat) is None,
{
    let mut left: usize = b;
    let mut k: usize = 0;
    assert(s@.skip(0) =~= s@);
    while left > 0
        invariant
            k <= s.len(),
            left <= 8,
            k + left <= b + k,
            chars_before_byte(s@, b as nat) == match chars_before_byte(s@.skip(k as int), left as nat) {
                Some(j) => Some((j + k) as nat),
                None => None::<nat>,
            },
        decreases left,
    {
        if k >= s.len() {
            return None;
        }
        let n = char_utf8_len(s[k]);
        if n > left {
            return None;
        }
        assert(s@.skip(k as int).drop_first() =~= s@.skip(k + 1));
        left = left - n;
        k = k + 1;
    }
    Some(k)
}

proof fn lemma_byte_len_push(s: Seq<char>, c: char)
    ensures
        byte_len(s.push(c)) == byte_len(s) + utf8_len(c),
{
    assert(s.push(c).drop_last() =~= s);
}

/// The UTF-8 length of `s`, or 7 when it is longer than 6.
fn byte_len_up_to_7(s: &Vec<char>) -> (r: usize)
    ensures
        r == (if byte_len(s@) <= 6 {
            byte_len(s@)
        } else {
            7
        }),
{
    let mut total: usize = 0;
    let mut i: usize = 0;
    while i < s.len()
        invariant
            i <= s.len(),
            total == byte_len(s@.take(i as int)),
            total <= 6,
        decreases s.len() - i,
    {
        proof {
            lemma_byte_len_push(s@.take(i as int), s@[i as int]);
            assert(s@.take(i + 1) =~= s@.take(i as int).push(s@[i as int]));
        }
        total = total + char_utf8_len(s[i]);
        if total > 6 {
            proof {
                lemma_byte_len_monotone(s@, (i + 1) as int);
            }
            return 7;
        }
        i = i + 1;
    }
    assert(s@.take(s.len() as int) =~= s@);
    total
}

proof fn lemma_byte_len_monotone(s: Seq<char>, k: int)
    requires
        0 <= k <= s.len(),
    ensures
        byte_len(s.take(k)) <= byte_len(s),
    decreases s.len() - k,
{
    if k < s.len() {
        lemma_byte_len_monotone(s, k + 1);
        lemma_byte_len_push(s.take(k), s[k]);
        assert(s.take(k + 1) =~= s.take(k).push(s[k]));
    } else {
        assert(s.take(k) =~= s);
    }
}

/// Whether cutting the hex digits of `value` into byte pairs stays between
/// characters (a value for which `from_hex` can be asked).
pub fn hex_cut_is_clean(value: &str) -> (r: bool)
    ensures
        r == !hex_cut_splits_char(value@),
{
    let raw = strip_hashes_chars(&trim_chars(&chars_of(value)));
    let n = byte_len_up_to_7(&raw);
    if n != 6 {
        return true;
    }
    cut_at_byte(&raw, 2).is_some() && cut_at_byte(&raw, 4).is_some()
}

/// The channel written by `s` in hexadecimal.
fn hex_channel_chars(s: &Vec<char>) -> (r: Option<u8>)
    ensures
        r == hex_channel(s@),
{
    match parse_unsigned_chars(s, 16, 255) {
        Some(v) => Some(v as u8),
        None => None,
    }
}

impl Color {
    /// An opaque color.
    pub fn from_rgb(r: u8, g: u8, b: u8) -> (c: Self)
        ensures
            c == (Color { r, g, b, a: 255 }),
    {
        Color { r, g, b, a: 255 }
    }

    /// A color with alpha.
    pub fn from_rgba(r: u8, g: u8, b: u8, a: u8) -> (c: Self)
        ensures
            c == (Color { r, g, b, a }),
    {
        Color { r, g, b, a }
    }

    /// The same color with alpha `a`.
    pub fn with_alpha(self, a: u8) -> (c: Self)
        ensures
            c == (Color { a, ..self }),
    {
        Color { a, ..self }
    }

    /// The color a value `#rrggbb` describes; see `from_hex_spec`.
    pub fn from_hex(value: &str) -> (c: Option<Self>)
        requires
            !hex_cut_splits_char(value@),
        ensures
            c == from_hex_spec(value@),
    {
        let raw = strip_hashes_chars(&trim_chars(&chars_of(value)));
        if byte_len_up_to_7(&raw) != 6 {
            return None;
        }
        let k2 = match cut_at_byte(&raw, 2) {
            Some(k) => k,
            None => return None,
        };
        let k4 = match cut_at_byte(&raw, 4) {
            Some(k) => k,
            None => return None,
        };
        proof {
            lemma_cut_order(raw@, 2, 4);
        }
        let r = hex_channel_chars(&slice_chars(&raw, 0, k2));
        let g = hex_channel_chars(&slice_chars(&raw, k2, k4));
        let b = hex_channel_chars(&slice_chars(&raw, k4, raw.len()));
        match (r, g, b) {
            (Some(r), Some(g), Some(b)) => Some(Color::from_rgb(r, g, b)),
            _ => None,
        }
    }
}

/// Cuts further into the bytes fall further into the characters.
proof fn lemma_cut_order(s: Seq<char>, b1: nat, b2: nat)
    requires
        b1 <= b2,
        chars_before_byte(s, b1) is Some,
        chars_before_byte(s, b2) is Some,
    ensures
        chars_before_byte(s, b1).unwrap() <= chars_before_byte(s, b2).unwrap(),
    decreases s.len(),
{
    if b1 > 0 {
        lemma_cut_order(s.drop_first(), (b1 - utf8_len(s[0])) as nat, (b2 - utf8_len(s[0])) as nat);
    }
}

/// hyprcolor's palette, as read from its JSON file.
pub struct HyprcolorPalette {
    pub wallpaper: Option<String>,
    pub background: String,
    pub foreground: String,
    pub surface: String,
    pub surface_variant: String,
    pub accent: String,
    pub accent_1: String,
    pub accent_2: String,
    pub accent_3: String,
}

/// The palette's colors can all be asked of `from_hex`.
pub open spec fn palette_cuts_clean(p: HyprcolorPalette) -> bool {
    &&& !hex_cut_splits_char(p.background@)
    &&& !hex_cut_splits_char(p.foreground@)
    &&& !hex_cut_splits_char(p.surface@)
    &&& !hex_cut_splits_char(p.surface_variant@)
    &&& !hex_cut_splits_char(p.accent@)
    &&& !hex_cut_splits_char(p.accent_1@)
    &&& !hex_cut_splits_char(p.accent_2@)
    &&& !hex_cut_splits_char(p.accent_3@)
}

/// A palette entry that is not a color.
pub struct InvalidColor {
    /// The entry's name in the palette.
    pub name: String,
    /// What the entry held.
    pub value: String,
}

/// The colors the launcher is drawn with.
pub struct Theme {
    pub background: Color,
    pub foreground: Color,
    pub muted: Color,
    pub panel: Color,
    pub panel_border: Color,
    pub surface: Color,
    pub surface_variant: Color,
    pub accent: Color,
    pub accent_soft: Color,
    pub danger: Color,
    pub wallpaper: Option<String>,
}

/// The color of a palette entry, or the error naming it.
fn palette_color(name: &str, value: &String) -> (r: Result<Color, InvalidColor>)
    requires
        !hex_cut_splits_char(value@),
    ensures
        r matches Ok(c) ==> from_hex_spec(value@) == Some(c),
        r matches Err(e) ==> from_hex_spec(value@) is None && e.name@ == name@ && e.value@ == value@,
{
    match Color::from_hex(value.as_str()) {
        Some(c) => Ok(c),
        None => Err(InvalidColor { name: name.to_owned(), value: value.clone() }),
    }
}

/// The theme a palette gives, with its derived colors: if every color entry is
/// a color; otherwise the first entry (in the order below) that is not.
pub open spec fn palette_theme_ok(p: HyprcolorPalette, t: Theme) -> bool {
    match (
        from_hex_spec(p.background@),
        from_hex_spec(p.foreground@),
        from_hex_spec(p.surface@),
        from_hex_spec(p.surface_variant@),
        from_hex_spec(p.accent@),
        from_hex_spec(p.accent_1@),
        from_hex_spec(p.accent_2@),
        from_hex_spec(p.accent_3@),
    ) {
        (Some(bg), Some(fg), Some(sf), Some(sv), Some(ac), Some(a1), Some(a2), Some(a3)) => {
            &&& t.background == bg
            &&& t.foreground == fg
            &&& t.muted == Color { a: 160, ..fg }
            &&& t.panel == Color { a: 205, ..bg }
            &&& t.panel_border == Color { a: 72, ..a2 }
            &&& t.surface == Color { a: 212, ..sf }
            &&& t.surface_variant == Color { a: 228, ..sv }
            &&& t.accent == ac
            &&& t.accent_soft == Color { a: 190, ..a1 }
            &&& t.danger == Color { a: 235, ..a3 }
            &&& match (t.wallpaper, p.wallpaper) {
                (Some(w), Some(pw)) => w@ == pw@,
                (None, None) => true,
                _ => false,
            }
        },
        _ => false,
    }
}

/// The name and value of the first palette color entry that is not a color.
pub open spec fn first_invalid(p: HyprcolorPalette) -> Option<(Seq<char>, Seq<char>)> {
    if from_hex_spec(p.background@) is None {
        Some(("background"@, p.background@))
    } else if from_hex_spec(p.foreground@) is None {
        Some(("foreground"@, p.foreground@))
    } else if from_hex_spec(p.surface@) is None {
        Some(("surface"@, p.surface@))
    } else if from_hex_spec(p.surface_variant@) is None {
        Some(("surface_variant"@, p.surface_variant@))
    } else if from_hex_spec(p.accent@) is None {
        Some(("accent"@, p.accent@))
    } else if from_hex_spec(p.accent_1@) is None {
        Some(("accent_1"@, p.accent_1@))
    } else if from_hex_spec(p.accent_2@) is None {
        Some(("accent_2"@, p.accent_2@))
    } else if from_hex_spec(p.accent_3@) is None {
        Some(("accent_3"@, p.accent_3@))
    } else {
        None
    }
}

fn clone_opt_string(o: &Option<String>) -> (r: Option<String>)
    ensures
        r == *o,
{
    match o {
        Some(s) => Some(s.clone()),
        None => None,
    }
}

impl Theme {
    /// The theme of a palette: its colors, with the panel, border, muted and
    /// soft colors made translucent.
    pub fn from_palette(palette: &HyprcolorPalette) -> (r: Result<Theme, InvalidColor>)
        requires
            palette_cuts_clean(*palette),
        ensures
            r matches Ok(t) ==> first_invalid(*palette) is None && palette_theme_ok(*palette, t),
            r matches Err(e) ==> first_invalid(*palette) == Some((e.name@, e.value@)),
            first_invalid(*palette) is None ==> r is Ok,
    {
        let background = match palette_color("background", &palette.background) {
            Ok(c) => c,
            Err(e) => return Err(e),
        };
        let foreground = match palette_color("foreground", &palette.foreground) {
            Ok(c) => c,
            Err(e) => return Err(e),
        };
        let surface = match palette_color("surface", &palette.surface) {
            Ok(c) => c.with_alpha(212),
            Err(e) => return Err(e),
        };
        let surface_variant = match palette_color("surface_variant", &palette.surface_variant) {
            Ok(c) => c.with_alpha(228),
            Err(e) => return Err(e),
        };
        let accent = match palette_color("accent", &palette.accent) {
            Ok(c) => c,
            Err(e) => return Err(e),
        };
        let accent_1 = match palette_color("accent_1", &palette.accent_1) {
            Ok(c) => c,
            Err(e) => return Err(e),
        };
        let accent_2 = match palette_color("accent_2", &palette.accent_2) {
            Ok(c) => c,
            Err(e) => return Err(e),
        };
        let accent_3 = match palette_color("accent_3", &palette.accent_3) {
            Ok(c) => c,
            Err(e) => return Err(e),
        };
        Ok(
            Theme {
                background,
                foreground,
                muted: foreground.with_alpha(160),
                panel: background.with_alpha(205),
                panel_border: accent_2.with_alpha(72),
                surface,
                surface_variant,
                accent,
                accent_soft: accent_1.with_alpha(190),
                danger: accent_3.with_alpha(235),
                wallpaper: clone_opt_string(&palette.wallpaper),
            },
        )
    }

    /// The built-in theme.
    pub fn fallback() -> (r: Self)
        ensures
            r.background == (Color { r: 12, g: 20, b: 26, a: 255 }),
            r.foreground == (Color { r: 224, g: 232, b: 238, a: 255 }),
            r.muted == (Color { r: 148, g: 165, b: 176, a: 255 }),
            r.panel == (Color { r: 18, g: 32, b: 40, a: 210 }),
            r.panel_border == (Color { r: 170, g: 215, b: 225, a: 60 }),
            r.surface == (Color { r: 34, g: 51, b: 61, a: 205 }),
            r.surface_variant == (Color { r: 54, g: 75, b: 86, a: 210 }),
            r.accent == (Color { r: 223, g: 171, b: 154, a: 255 }),
            r.accent_soft == (Color { r: 223, g: 171, b: 154, a: 185 }),
            r.danger == (Color { r: 255, g: 119, b: 119, a: 255 }),
            r.wallpaper is None,
    {
        Theme {
            background: Color::from_rgb(12, 20, 26),
            foreground: Color::from_rgb(224, 232, 238),
            muted: Color::from_rgb(148, 165, 176),
            panel: Color::from_rgba(18, 32, 40, 210),
            panel_border: Color::from_rgba(170, 215, 225, 60),
            surface: Color::from_rgba(34, 51, 61, 205),
            surface_variant: Color::from_rgba(54, 75, 86, 210),
            accent: Color::from_rgb(223, 171, 154),
            accent_soft: Color::from_rgba(223, 171, 154, 185),
            danger: Color::from_rgb(255, 119, 119),
            wallpaper: None,
        }
    }

    /// The theme of the palette that was read, or the built-in theme when none
    /// was read or one of its colors is not a color.
    pub fn load(palette: Option<&HyprcolorPalette>) -> (r: Self)
        requires
            palette matches Some(p) ==> palette_cuts_clean(*p),
        ensures
            palette matches Some(p) ==> (first_invalid(*p) is None ==> palette_theme_ok(*p, r)),
            (palette is None || first_invalid(*palette->0) is Some) ==> r == Theme::fallback_spec(),
    {
        match palette {
            Some(p) => match Theme::from_palette(p) {
                Ok(t) => t,
                Err(_) => Theme::fallback(),
            },
            None => Theme::fallback(),
        }
    }

    /// The built-in theme, as a value.
    pub open spec fn fallback_spec() -> Theme {
        Theme {
            background: Color { r: 12, g: 20, b: 26, a: 255 },
            foreground: Color { r: 224, g: 232, b: 238, a: 255 },
            muted: Color { r: 148, g: 165, b: 176, a: 255 },
            panel: Color { r: 18, g: 32, b: 40, a: 210 },
            panel_border: Color { r: 170, g: 215, b: 225, a: 60 },
            surface: Color { r: 34, g: 51, b: 61, a: 205 },
            surface_variant: Color { r: 54, g: 75, b: 86, a: 210 },
            accent: Color { r: 223, g: 171, b: 154, a: 255 },
            accent_soft: Color { r: 223, g: 171, b: 154, a: 185 },
            danger: Color { r: 255, g: 119, b: 119, a: 255 },
            wallpaper: None,
        }
    }
}

} // verus!
