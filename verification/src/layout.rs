//! Where each part of the launcher goes on the surface.
use vstd::prelude::*;
use crate::geometry::{fits_i32, tdiv, Rect};
use crate::style::{pins, spacing};

verus! {

/// Halving `t` (and doubling `unit`) until `t` has at most 24 bits: the
/// significant part of `q` that an `f32` keeps, and the weight of its last bit.
pub open spec fn significand(t: nat, unit: nat) -> (nat, nat)
    decreases t,
{
    if t < 0x100_0000 {
        (t, unit)
    } else {
        significand(t / 2, unit * 2)
    }
}

/// The `f32` nearest to the whole number `q` (ties to an even significand),
/// for `q` far below the `f32` range's end.
pub open spec fn round_to_f32(q: nat) -> nat {
    let (hi, unit) = significand(q, 1);
    let lo = q - hi * unit;
    let half = unit / 2;
    if unit == 1 {
        q
    } else if lo > half || (lo == half && hi % 2 == 1) {
        (hi + 1) * unit
    } else {
        hi * unit
    }
}

/// The width of the preview for a panel `w` pixels wide: what
/// `((w as f32) * 0.45).round() as i32` gives. `0.45` as an `f32` is exactly
/// `7549747 / 2^24`, so the product is `round_to_f32(w' * 7549747) / 2^24` for
/// the `f32` `w'` nearest to `w`; rounding half away from zero and converting
/// (saturating) to `i32` follow.
pub open spec fn preview_width_spec(w: nat) -> int {
    let a = round_to_f32(w);
    let p = round_to_f32(a * 7549747);
    let r = (p + 0x80_0000) / 0x100_0000;
    if r > i32::MAX {
        i32::MAX as int
    } else {
        r as int
    }
}


proof fn lemma_significand(q: nat, t: nat, unit: nat)
    requires
        t * unit <= q < (t + 1) * unit,
        unit >= 1,
        unit > 1 ==> t >= 0x80_0000,
    ensures
        ({
            let (hi, u) = significand(t, unit);
            &&& hi * u <= q < (hi + 1) * u
            &&& u >= 1
            &&& hi < 0x100_0000
            &&& u > 1 ==> hi >= 0x80_0000
        }),
    decreases t,
{
    if t >= 0x100_0000 {
        assert(2 * (t / 2) <= t && t <= 2 * (t / 2) + 1);
        assert((t / 2) * (unit * 2) <= t * unit) by (nonlinear_arith)
            requires
                2 * (t / 2) <= t,
                unit >= 1,
        {
        }
        assert((t + 1) * unit <= (t / 2 + 1) * (unit * 2)) by (nonlinear_arith)
            requires
                t <= 2 * (t / 2) + 1,
                unit >= 1,
        {
        }
        lemma_significand(q, t / 2, unit * 2);
    }
}

/// Rounding to an `f32` moves a number up by at most one part in `2^23`.
pub proof fn lemma_round_to_f32(q: nat)
    ensures
        round_to_f32(q) <= q + q / 0x80_0000,
{
    lemma_significand(q, q, 1);
    let (hi, unit) = significand(q, 1);
    if unit > 1 {
        assert(unit <= q / 0x80_0000) by (nonlinear_arith)
            requires
                hi * unit <= q,
                hi >= 0x80_0000,
                unit >= 1,
        {
            assert(0x80_0000 * unit <= hi * unit);
        }
        assert((hi + 1) * unit == hi * unit + unit) by (nonlinear_arith);
    }
}

/// The preview is at most half the panel's width plus a little.
pub proof fn lemma_preview_width(w: nat)
    requires
        w <= 0x8000_0000,
    ensures
        0 <= preview_width_spec(w) <= w / 2 + 200,
{
    let a = round_to_f32(w);
    lemma_round_to_f32(w);
    assert(a <= w + 256);
    let b = a * 7549747;
    lemma_round_to_f32(b);
    let p = round_to_f32(b);
    assert(p <= b + b / 0x80_0000);
    assert(b <= (w + 256) * 7549747) by (nonlinear_arith)
        requires
            a <= w + 256,
            b == a * 7549747,
    {
    }
    assert((p + 0x80_0000) / 0x100_0000 <= w / 2 + 200) by (nonlinear_arith)
        requires
            p <= b + b / 0x80_0000,
            b <= (w + 256) * 7549747,
            w <= 0x8000_0000,
    {
    }
}

/// `round_to_f32` for a number below `2^56`.
fn round_to_f32_u64(q: u64) -> (r: u64)
    requires
        q < 0x100_0000_0000_0000,
    ensures
        r == round_to_f32(q as nat),
        r <= 2 * q,
{
    let mut t = q;
    let mut unit: u64 = 1;
    while t >= 0x100_0000
        invariant
            significand(q as nat, 1) == significand(t as nat, unit as nat),
            1 <= unit,
            unit > 1 ==> t >= 0x80_0000,
            t * unit <= q,
            q < (t + 1) * unit,
            q < 0x100_0000_0000_0000,
        decreases t,
    {
        proof {
            assert(2 * (t / 2) <= t && t <= 2 * (t / 2) + 1);
            assert((t / 2) * (unit * 2) <= t * unit) by (nonlinear_arith)
                requires
                    2 * (t / 2) <= t,
                    unit >= 1,
            {
            }
            assert((t + 1) * unit <= (t / 2 + 1) * (unit * 2)) by (nonlinear_arith)
                requires
                    t <= 2 * (t / 2) + 1,
                    unit >= 1,
            {
            }
            assert(unit * 2 <= q) by (nonlinear_arith)
                requires
                    t >= 0x100_0000,
                    t * unit <= q,
                    unit >= 1,
            {
            }
        }
        t = t / 2;
        unit = unit * 2;
    }
    if unit == 1 {
        return q;
    }
    proof {
        assert(t * unit + unit <= 2 * q) by (nonlinear_arith)
            requires
                t * unit <= q,
                q < (t + 1) * unit,
                t >= 1 || q >= unit,
                unit >= 2,
        {
        }
    }
    let lo = q - t * unit;
    let half = unit / 2;
    if lo > half || (lo == half && t % 2 == 1) {
        proof {
            assert((t + 1) * unit == t * unit + unit) by (nonlinear_arith);
        }
        (t + 1) * unit
    } else {
        t * unit
    }
}

/// The width of the preview for a panel `w` pixels wide; see `preview_width_spec`.
pub fn preview_width(w: i32) -> (r: i32)
    requires
        w >= 0,
    ensures
        r as int == preview_width_spec(w as nat),
{
    let a = round_to_f32_u64(w as u64);
    let p = round_to_f32_u64(a * 7549747);
    let r = (p + 0x80_0000) / 0x100_0000;
    if r > 0x7fff_ffff {
        0x7fff_ffff
    } else {
        r as i32
    }
}

/// `v` with 48 pixels of margin taken off, limited to `preferred`, and at least `least`.
pub open spec fn panel_size(surface: u32, preferred: u32, least: u32) -> int {
    let avail = if surface >= 48 {
        surface - 48
    } else {
        0
    };
    let s = if preferred <= avail {
        preferred as int
    } else {
        avail as int
    };
    if s >= least {
        s
    } else {
        least as int
    }
}

/// The parts of the launcher.
#[derive(Debug, Clone, Copy)]
pub struct LauncherLayout {
    pub panel: Rect,
    pub preview: Rect,
    pub search: Rect,
    pub pins_label: Rect,
    pub pins: Rect,
    pub list: Rect,
}

/// The rectangle with these corners and sizes.
pub open spec fn rect(x: int, y: int, w: int, h: int) -> Rect {
    Rect { x: x as i32, y: y as i32, w: w as i32, h: h as i32 }
}

/// The layout for a surface of `surface_w` x `surface_h` with a preferred
/// panel size, reserving the pinned strip when `pin_count > 0`: the panel is
/// centered; the preview fills its left part (45% of its width) just inside
/// its border; the search field, the pinned strip (a label, then the tiles)
/// and the list fill the rest, top to bottom, inside the padding.
pub open spec fn layout_spec(
    surface_w: u32,
    surface_h: u32,
    preferred_w: u32,
    preferred_h: u32,
    pin_count: usize,
) -> LauncherLayout {
    let pw = panel_size(surface_w, preferred_w, 360);
    let ph = panel_size(surface_h, preferred_h, 240);
    let px = tdiv(surface_w - pw, 2);
    let py = tdiv(surface_h - ph, 2);
    let preview_w = preview_width_spec(pw as nat);
    let inner_x = px + spacing::PANEL_PADDING;
    let inner_y = py + spacing::PANEL_PADDING;
    let inner_w = pw - 2 * spacing::PANEL_PADDING;
    let inner_h = ph - 2 * spacing::PANEL_PADDING;
    let right_x = px + 1 + preview_w + spacing::GAP;
    let right_w = inner_x + inner_w - right_x;
    let search_y = inner_y;
    let after_search = search_y + spacing::SEARCH_HEIGHT + spacing::ROW_GAP;
    let label_y = after_search;
    let tiles_y = label_y + pins::LABEL_HEIGHT + pins::LABEL_GAP;
    let list_y = if pin_count > 0 {
        tiles_y + pins::TILE_HEIGHT + spacing::ROW_GAP
    } else {
        after_search
    };
    LauncherLayout {
        panel: rect(px, py, pw, ph),
        preview: rect(px + 1, py + 1, preview_w, ph - 2),
        search: rect(right_x, search_y, right_w, spacing::SEARCH_HEIGHT as int),
        pins_label: if pin_count > 0 {
            rect(right_x, label_y, right_w, pins::LABEL_HEIGHT as int)
        } else {
            rect(right_x, after_search, right_w, 0)
        },
        pins: if pin_count > 0 {
            rect(right_x, tiles_y, right_w, pins::TILE_HEIGHT as int)
        } else {
            rect(right_x, after_search, right_w, 0)
        },
        list: rect(right_x, list_y, right_w, inner_y + inner_h - list_y),
    }
}

/// The width of one pinned tile: five tiles and four gaps fill the strip.
pub open spec fn pin_width(l: LauncherLayout) -> int {
    tdiv(l.pins.w - pins::GAP * (pins::MAX as int - 1), pins::MAX as int)
}

/// The rectangle of pinned tile `index` (from the numbers that `index as i32` gives).
pub open spec fn pin_rect_spec(l: LauncherLayout, index: usize) -> (int, int, int, int) {
    let k = index as i32 as int;
    (l.pins.x + k * (pin_width(l) + pins::GAP), l.pins.y as int, pin_width(l), l.pins.h as int)
}

/// Placing pinned tile `index` stays within `i32`.
pub open spec fn pin_rect_fits(l: LauncherLayout, index: usize) -> bool {
    let k = index as i32 as int;
    &&& fits_i32(l.pins.w - pins::GAP * (pins::MAX as int - 1))
    &&& fits_i32(pin_width(l) + pins::GAP)
    &&& fits_i32(k * (pin_width(l) + pins::GAP))
    &&& fits_i32(l.pins.x + k * (pin_width(l) + pins::GAP))
}

/// The distance from one list row to the next.
pub open spec fn row_step() -> int {
    spacing::ROW_HEIGHT + spacing::ROW_GAP
}

/// The rectangle of list row `index` (from the number that `index as i32` gives).
pub open spec fn row_rect_spec(l: LauncherLayout, index: usize) -> (int, int, int, int) {
    let k = index as i32 as int;
    (l.list.x as int, l.list.y + k * row_step(), l.list.w as int, spacing::ROW_HEIGHT as int)
}

/// Placing list row `index` stays within `i32`.
pub open spec fn row_rect_fits(l: LauncherLayout, index: usize) -> bool {
    let k = index as i32 as int;
    fits_i32(k * row_step()) && fits_i32(l.list.y + k * row_step())
}

/// The number of whole rows the list shows (a row needs its height, and a
/// gap before every row but the first).
pub open spec fn visible_rows_spec(l: LauncherLayout) -> int {
    if l.list.h <= 0 {
        0
    } else {
        (l.list.h + spacing::ROW_GAP) / row_step()
    }
}

/// The rectangle of the button that clears the query: 20 pixels square, at
/// the right end of the search field, centered vertically.
pub open spec fn clear_rect_spec(l: LauncherLayout) -> (int, int, int, int) {
    (l.search.x + l.search.w - 20 - 12, l.search.y + tdiv(l.search.h - 20, 2), 20, 20)
}

/// Placing the clear button stays within `i32`.
pub open spec fn clear_rect_fits(l: LauncherLayout) -> bool {
    &&& fits_i32(l.search.x + l.search.w)
    &&& fits_i32(l.search.x + l.search.w - 20)
    &&& fits_i32(l.search.x + l.search.w - 20 - 12)
    &&& fits_i32(l.search.h - 20)
    &&& fits_i32(l.search.y + tdiv(l.search.h - 20, 2))
}

/// Rect whose numbers are `v`.
pub open spec fn rect_is(r: Rect, v: (int, int, int, int)) -> bool {
    r.x as int == v.0 && r.y as int == v.1 && r.w as int == v.2 && r.h as int == v.3
}


/// The point `(px, py)` lies in the rectangle with numbers `v`.
pub open spec fn rect_contains(v: (int, int, int, int), px: int, py: int) -> bool {
    v.0 <= px < v.0 + v.2 && v.1 <= py < v.1 + v.3
}

/// The number of pinned tiles that can be hit: `count`, at most `pins::MAX`.
pub open spec fn pin_slots(count: usize) -> int {
    if count <= pins::MAX {
        count as int
    } else {
        pins::MAX as int
    }
}

/// The first of the pinned tiles `i..n` that contains the point.
pub open spec fn first_pin_hit(l: LauncherLayout, px: int, py: int, n: int, i: int) -> Option<usize>
    decreases n - i,
{
    if i >= n || i < 0 {
        None
    } else if rect_contains(pin_rect_spec(l, i as usize), px, py) {
        Some(i as usize)
    } else {
        first_pin_hit(l, px, py, n, i + 1)
    }
}

/// The pinned tile (of the first `pin_slots(count)`) at the point, if the strip is shown.
pub open spec fn pin_at_spec(l: LauncherLayout, px: int, py: int, count: usize) -> Option<usize> {
    if l.pins.h <= 0 {
        None
    } else {
        first_pin_hit(l, px, py, pin_slots(count), 0)
    }
}

/// The number of list rows that can be hit: `count`, at most the visible rows.
pub open spec fn row_slots(l: LauncherLayout, count: usize) -> int {
    if count <= visible_rows_spec(l) {
        count as int
    } else {
        visible_rows_spec(l)
    }
}

/// The first of the list rows `i..n` that contains the point.
pub open spec fn first_row_hit(l: LauncherLayout, px: int, py: int, n: int, i: int) -> Option<usize>
    decreases n - i,
{
    if i >= n || i < 0 {
        None
    } else if rect_contains(row_rect_spec(l, i as usize), px, py) {
        Some(i as usize)
    } else {
        first_row_hit(l, px, py, n, i + 1)
    }
}

/// The list row (of the first `row_slots(count)`) at the point.
pub open spec fn row_at_spec(l: LauncherLayout, px: int, py: int, count: usize) -> Option<usize> {
    first_row_hit(l, px, py, row_slots(l, count), 0)
}

/// The numbers of a layout's parts stay within `i32` wherever the launcher uses them.
pub open spec fn layout_fits(l: LauncherLayout) -> bool {
    &&& l.list.h <= i32::MAX - spacing::ROW_GAP
    &&& clear_rect_fits(l)
    &&& forall|i: usize| i < pins::MAX ==> #[trigger] pin_rect_fits(l, i)
    &&& forall|i: usize| i < visible_rows_spec(l) ==> #[trigger] row_rect_fits(l, i)
    &&& 0 <= visible_rows_spec(l) <= i32::MAX
    &&& ({
        let (x, y, w, h) = clear_rect_spec(l);
        fits_i32(x - 4) && fits_i32(y - 4) && fits_i32(w + 8) && fits_i32(h + 8)
    })
}

/// Every layout `LauncherLayout::new` makes keeps its numbers within `i32`.
pub proof fn lemma_layout_fits(
    surface_w: u32,
    surface_h: u32,
    preferred_w: u32,
    preferred_h: u32,
    pin_count: usize,
)
    requires
        surface_w <= i32::MAX,
        surface_h <= i32::MAX,
    ensures
        layout_fits(layout_spec(surface_w, surface_h, preferred_w, preferred_h, pin_count)),
{
    let l = layout_spec(surface_w, surface_h, preferred_w, preferred_h, pin_count);
    let pw = panel_size(surface_w, preferred_w, 360);
    lemma_preview_width(pw as nat);
    assert forall|i: usize| i < pins::MAX implies #[trigger] pin_rect_fits(l, i) by {
        let k = i as i32 as int;
        assert(k == i);
        let pwid = pin_width(l);
        let a = l.pins.w - pins::GAP * (pins::MAX as int - 1);
        assert(-20 <= pwid);
        assert(5 * pwid <= a || (a < 0 && pwid <= 0));
        assert(k * (pwid + pins::GAP) <= 4 * (pwid + pins::GAP) || pwid + pins::GAP < 0) by (nonlinear_arith)
            requires
                0 <= k <= 4,
        {
        }
        assert(k * (pwid + pins::GAP) >= 4 * (pwid + pins::GAP) || pwid + pins::GAP >= 0) by (nonlinear_arith)
            requires
                0 <= k <= 4,
        {
        }
        assert(k * (pwid + pins::GAP) >= 0 || pwid + pins::GAP < 0) by (nonlinear_arith)
            requires
                0 <= k <= 4,
        {
        }
        assert(k * (pwid + pins::GAP) <= 0 || pwid + pins::GAP >= 0) by (nonlinear_arith)
            requires
                0 <= k <= 4,
        {
        }
    }
    assert forall|i: usize| i < visible_rows_spec(l) implies #[trigger] row_rect_fits(l, i) by {
        let k = i as i32 as int;
        assert(k == i);
        assert(k * row_step() <= l.list.h) by (nonlinear_arith)
            requires
                0 <= k,
                k < (l.list.h + spacing::ROW_GAP) / row_step(),
                l.list.h > 0,
        {
        }
    }
}

fn half(v: i32) -> (r: i32)
    ensures
        r as int == tdiv(v as int, 2),
{
    v / 2
}

impl LauncherLayout {
    /// The layout for a surface of `surface_w` x `surface_h`; see `layout_spec`.
    pub fn new(surface_w: u32, surface_h: u32, preferred_w: u32, preferred_h: u32, pin_count: usize) -> (r: Self)
        requires
            surface_w <= i32::MAX,
            surface_h <= i32::MAX,
        ensures
            r == layout_spec(surface_w, surface_h, preferred_w, preferred_h, pin_count),
    {
        let avail_w = if surface_w >= 48 {
            surface_w - 48
        } else {
            0
        };
        let avail_h = if surface_h >= 48 {
            surface_h - 48
        } else {
            0
        };
        let pw = if preferred_w <= avail_w {
            preferred_w
        } else {
            avail_w
        };
        let pw = if pw >= 360 {
            pw
        } else {
            360
        };
        let ph = if preferred_h <= avail_h {
            preferred_h
        } else {
            avail_h
        };
        let ph = if ph >= 240 {
            ph
        } else {
            240
        };
        let panel_w = pw as i32;
        let panel_h = ph as i32;
        let sw = surface_w as i32;
        let sh = surface_h as i32;
        let panel = Rect::new(half(sw - panel_w), half(sh - panel_h), panel_w, panel_h);
        let preview_w = preview_width(panel.w);
        proof {
            lemma_preview_width(panel_w as nat);
        }
        let preview = Rect::new(panel.x + 1, panel.y + 1, preview_w, panel.h - 2);
        let inner = panel.inset(spacing::PANEL_PADDING);
        let right_x = preview.x + preview.w + spacing::GAP;
        let right_w = inner.x + inner.w - right_x;
        let search = Rect::new(right_x, inner.y, right_w, spacing::SEARCH_HEIGHT);
        let mut next_y = search.y + search.h + spacing::ROW_GAP;
        let (pins_label, pins) = if pin_count > 0 {
            let label = Rect::new(right_x, next_y, right_w, pins::LABEL_HEIGHT);
            let tiles = Rect::new(right_x, label.y + label.h + pins::LABEL_GAP, right_w, pins::TILE_HEIGHT);
            next_y = tiles.y + tiles.h + spacing::ROW_GAP;
            (label, tiles)
        } else {
            (Rect::new(right_x, next_y, right_w, 0), Rect::new(right_x, next_y, right_w, 0))
        };
        let list = Rect::new(right_x, next_y, right_w, inner.y + inner.h - next_y);
        LauncherLayout { panel, preview, search, pins_label, pins, list }
    }

    /// The button that clears the query, at the right end of the search field.
    pub fn search_clear_rect(&self) -> (r: Rect)
        requires
            clear_rect_fits(*self),
        ensures
            rect_is(r, clear_rect_spec(*self)),
    {
        let size: i32 = 20;
        Rect::new(self.search.x + self.search.w - size - 12, self.search.y + half(self.search.h - size), size, size)
    }

    /// Pinned tile `index`.
    pub fn pin_rect(&self, index: usize) -> (r: Rect)
        requires
            pin_rect_fits(*self, index),
        ensures
            rect_is(r, pin_rect_spec(*self, index)),
    {
        let gap: i32 = pins::GAP;
        let slots: i32 = pins::MAX as i32;
        let w: i32 = (self.pins.w - gap * (slots - 1)) / slots;
        Rect::new(self.pins.x + (index as i32) * (w + gap), self.pins.y, w, self.pins.h)
    }

    /// The number of rows the list shows.
    pub fn visible_rows(&self) -> (r: usize)
        requires
            self.list.h <= i32::MAX - spacing::ROW_GAP,
        ensures
            r as int == visible_rows_spec(*self),
    {
        let step: i32 = spacing::ROW_HEIGHT + spacing::ROW_GAP;
        if self.list.h <= 0 {
            return 0;
        }
        ((self.list.h + spacing::ROW_GAP) / step) as usize
    }


    /// The pinned tile at the point, among the first `count` (at most `pins::MAX`).
    pub fn pin_at(&self, x: i64, y: i64, count: usize) -> (r: Option<usize>)
        requires
            forall|i: usize| i < pins::MAX ==> #[trigger] pin_rect_fits(*self, i),
        ensures
            r == pin_at_spec(*self, x as int, y as int, count),
    {
        if self.pins.h <= 0 {
            return None;
        }
        let n = if count <= pins::MAX {
            count
        } else {
            pins::MAX
        };
        let mut i: usize = 0;
        while i < n
            invariant
                n == pin_slots(count),
                n <= pins::MAX,
                i <= n,
                forall|i: usize| i < pins::MAX ==> #[trigger] pin_rect_fits(*self, i),
                self.pins.h > 0,
                pin_at_spec(*self, x as int, y as int, count) == first_pin_hit(*self, x as int, y as int, n as int, i as int),
            decreases n - i,
        {
            let tile = self.pin_rect(i);
            if tile.contains(x, y) {
                return Some(i);
            }
            i = i + 1;
        }
        None
    }

    /// The list row at the point, among the first `count` (at most the visible rows).
    pub fn row_at(&self, x: i64, y: i64, count: usize) -> (r: Option<usize>)
        requires
            layout_fits(*self),
        ensures
            r == row_at_spec(*self, x as int, y as int, count),
    {
        let rows = self.visible_rows();
        let n = if count <= rows {
            count
        } else {
            rows
        };
        let mut i: usize = 0;
        while i < n
            invariant
                n == row_slots(*self, count),
                layout_fits(*self),
                i <= n,
                row_at_spec(*self, x as int, y as int, count) == first_row_hit(*self, x as int, y as int, n as int, i as int),
            decreases n - i,
        {
            let row = self.row_rect(i);
            if row.contains(x, y) {
                return Some(i);
            }
            i = i + 1;
        }
        None
    }

    /// List row `index`.
    pub fn row_rect(&self, index: usize) -> (r: Rect)
        requires
            row_rect_fits(*self, index),
        ensures
            rect_is(r, row_rect_spec(*self, index)),
    {
        let step: i32 = spacing::ROW_HEIGHT + spacing::ROW_GAP;
        Rect::new(self.list.x, self.list.y + (index as i32) * step, self.list.w, spacing::ROW_HEIGHT)
    }
}

proof fn lemma_first_row_hit(l: LauncherLayout, px: int, py: int, n: int, start: int, i: int)
    requires
        0 <= start <= i < n,
        i <= i32::MAX,
        rect_contains(row_rect_spec(l, i as usize), px, py),
    ensures
        first_row_hit(l, px, py, n, start) == Some(i as usize),
    decreases i - start,
{
    if start < i {
        assert(!rect_contains(row_rect_spec(l, start as usize), px, py));
        lemma_first_row_hit(l, px, py, n, start + 1, i);
    }
}

/// Hit-testing the list finds the row under the point: rows do not overlap,
/// so a point inside the rectangle of a row that can be hit is that row.
pub proof fn row_at_finds_the_row_under_the_point(l: LauncherLayout, count: usize, i: usize, px: int, py: int)
    requires
        layout_fits(l),
        i < row_slots(l, count),
        rect_contains(row_rect_spec(l, i), px, py),
    ensures
        row_at_spec(l, px, py, count) == Some(i),
{
    lemma_first_row_hit(l, px, py, row_slots(l, count), 0, i as int);
}

proof fn lemma_first_pin_hit(l: LauncherLayout, px: int, py: int, n: int, start: int, i: int)
    requires
        0 <= start <= i < n,
        n <= pins::MAX,
        rect_contains(pin_rect_spec(l, i as usize), px, py),
    ensures
        first_pin_hit(l, px, py, n, start) == Some(i as usize),
    decreases i - start,
{
    if start < i {
        let w = pin_width(l);
        let step = w + pins::GAP;
        assert(w > 0);
        assert((i - start) * step >= step) by (nonlinear_arith)
            requires
                i - start >= 1,
                step > 0,
        ;
        assert(i * step == start * step + (i - start) * step) by (nonlinear_arith);
        assert(!rect_contains(pin_rect_spec(l, start as usize), px, py));
        lemma_first_pin_hit(l, px, py, n, start + 1, i);
    }
}

/// Hit-testing the pinned strip finds the tile under the point: tiles do not
/// overlap, so a point inside the rectangle of a shown tile is that tile.
pub proof fn pin_at_finds_the_tile_under_the_point(l: LauncherLayout, count: usize, i: usize, px: int, py: int)
    requires
        l.pins.h > 0,
        i < pin_slots(count),
        rect_contains(pin_rect_spec(l, i), px, py),
    ensures
        pin_at_spec(l, px, py, count) == Some(i),
{
    lemma_first_pin_hit(l, px, py, pin_slots(count), 0, i as int);
}

/// Showing pinned applications changes only the right column below the
/// search field: the panel (its size the preferred one, within the surface
/// less the margin, and no smaller than the least), the preview and the search
/// field stay where they are; the label and the tiles take their heights, and
/// the list starts that much lower and ends where it ended.
pub proof fn pinned_strip_pushes_the_list_down(
    surface_w: u32,
    surface_h: u32,
    preferred_w: u32,
    preferred_h: u32,
    pin_count: usize,
)
    requires
        surface_w <= i32::MAX,
        surface_h <= i32::MAX,
        pin_count > 0,
    ensures
        ({
            let a = layout_spec(surface_w, surface_h, preferred_w, preferred_h, 0);
            let b = layout_spec(surface_w, surface_h, preferred_w, preferred_h, pin_count);
            let strip = pins::LABEL_HEIGHT + pins::LABEL_GAP + pins::TILE_HEIGHT + spacing::ROW_GAP;
            &&& a.panel == b.panel
            &&& a.preview == b.preview
            &&& a.search == b.search
            &&& a.panel.w == panel_size(surface_w, preferred_w, 360)
            &&& a.panel.h == panel_size(surface_h, preferred_h, 240)
            &&& a.pins_label.h == 0 && a.pins.h == 0
            &&& b.pins_label.h == pins::LABEL_HEIGHT
            &&& b.pins.h == pins::TILE_HEIGHT
            &&& b.pins_label.y == a.list.y
            &&& b.list.y == a.list.y + strip
            &&& b.list.h == a.list.h - strip
            &&& b.list.y + b.list.h == a.list.y + a.list.h
        }),
{
    let pw = panel_size(surface_w, preferred_w, 360);
    lemma_preview_width(pw as nat);
}

/// The list lies below the search field and below the pinned tiles.
pub proof fn lemma_list_below_search_and_tiles(
    surface_w: u32,
    surface_h: u32,
    preferred_w: u32,
    preferred_h: u32,
    pin_count: usize,
)
    requires
        surface_w <= i32::MAX,
        surface_h <= i32::MAX,
    ensures
        ({
            let l = layout_spec(surface_w, surface_h, preferred_w, preferred_h, pin_count);
            &&& l.search.y + l.search.h <= l.list.y
            &&& l.pins.y + l.pins.h <= l.list.y
        }),
{
    let pw = panel_size(surface_w, preferred_w, 360);
    lemma_preview_width(pw as nat);
}

proof fn lemma_no_pin_hit(l: LauncherLayout, px: int, py: int, n: int, i: int)
    requires
        0 <= i,
        py >= l.pins.y + l.pins.h,
    ensures
        first_pin_hit(l, px, py, n, i) is None,
    decreases n - i,
{
    if i < n {
        lemma_no_pin_hit(l, px, py, n, i + 1);
    }
}

/// No pinned tile holds a point below the strip.
pub proof fn lemma_no_tile_below_the_strip(l: LauncherLayout, px: int, py: int, count: usize)
    requires
        py >= l.pins.y + l.pins.h,
    ensures
        pin_at_spec(l, px, py, count) is None,
{
    lemma_no_pin_hit(l, px, py, pin_slots(count), 0);
}

} // verus!
