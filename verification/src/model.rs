//! The launcher's decisions: how each input event changes the state, and what
//! the shell around it should do next (redraw, launch, exit...).
//!
//! Pointer positions arrive as whole pixels: the position's floor, which
//! decides the same hits as the fractional position against the integer
//! rectangles of the layout.
use vstd::prelude::*;
use crate::entry::DesktopEntry;
use crate::launcher::{Launcher, LauncherView};
use crate::layout::{
    clear_rect_spec, lemma_layout_fits, layout_fits, layout_spec, pin_at_spec, rect_contains,
    row_at_spec, visible_rows_spec, LauncherLayout,
};
use crate::style::pins;

verus! {

/// An input event.
#[derive(Debug)]
pub enum Msg {
    Type(char),
    Backspace,
    SelectNext,
    SelectPrev,
    HoverAt { x: i64, y: i64 },
    ClearHover,
    PointerPressedAt { x: i64, y: i64 },
    LaunchSelected,
    Quit,
    Configured { width: u32, height: u32 },
    ScaleChanged(i32),
    LaunchFailed(String),
    CaretBlink,
}

/// Something for the shell to do.
#[derive(Debug)]
pub enum Cmd {
    Redraw,
    Launch(DesktopEntry),
    SetBufferScale(i32),
    Exit,
}

/// The whole state of the launcher window.
pub struct Model {
    pub launcher: Launcher,
    pub scale: i32,
    pub logical_width: u32,
    pub logical_height: u32,
    pub preferred_width: u32,
    pub preferred_height: u32,
    pub configured: bool,
    pub search_focused: bool,
    pub caret_visible: bool,
    pub hovered_pin: Option<usize>,
    pub error: Option<String>,
}

/// The window state, seen as values.
pub struct ModelView {
    pub launcher: LauncherView,
    pub scale: i32,
    pub logical_width: u32,
    pub logical_height: u32,
    pub preferred_width: u32,
    pub preferred_height: u32,
    pub configured: bool,
    pub search_focused: bool,
    pub caret_visible: bool,
    pub hovered_pin: Option<usize>,
    pub error: Option<Seq<char>>,
}

impl View for Model {
    type V = ModelView;

    open spec fn view(&self) -> ModelView {
        ModelView {
            launcher: self.launcher@,
            scale: self.scale,
            logical_width: self.logical_width,
            logical_height: self.logical_height,
            preferred_width: self.preferred_width,
            preferred_height: self.preferred_height,
            configured: self.configured,
            search_focused: self.search_focused,
            caret_visible: self.caret_visible,
            hovered_pin: self.hovered_pin,
            error: match self.error {
                Some(e) => Some(e@),
                None => None,
            },
        }
    }
}

/// `Redraw` when something changed, nothing otherwise.
pub open spec fn redraw_if_spec(changed: bool) -> Seq<Cmd> {
    if changed {
        seq![Cmd::Redraw]
    } else {
        seq![]
    }
}

/// Launching the selected result and exiting, or nothing without results.
pub open spec fn launch_cmds(l: LauncherView) -> Seq<Cmd> {
    match l.selected_entry() {
        Some(e) => seq![Cmd::Launch(e), Cmd::Exit],
        None => seq![],
    }
}

impl ModelView {
    /// The bounds the window state keeps: a well-formed launcher, and a
    /// surface size that `i32` pixel coordinates can address.
    pub open spec fn wf(self) -> bool {
        &&& self.launcher.wf()
        &&& self.logical_width <= i32::MAX
        &&& self.logical_height <= i32::MAX
    }

    /// The current layout (the pinned strip is there when something is pinned).
    pub open spec fn layout(self) -> LauncherLayout {
        layout_spec(
            self.logical_width,
            self.logical_height,
            self.preferred_width,
            self.preferred_height,
            self.launcher.pinned(pins::MAX).len() as usize,
        )
    }

    /// The number of list rows the current layout shows.
    pub open spec fn visible_rows(self) -> usize {
        visible_rows_spec(self.layout()) as usize
    }

    /// The state with launcher state `l`.
    pub open spec fn with_launcher(self, l: LauncherView) -> ModelView {
        ModelView { launcher: l, ..self }
    }

    /// After a launcher change `l` that reports `changed`: scroll the selection
    /// into view, and redraw if either changed anything.
    pub open spec fn settle(self, l: LauncherView, changed: bool) -> (ModelView, Seq<Cmd>) {
        let m = self.with_launcher(l);
        let l2 = l.scrolled_into_view(m.visible_rows());
        (m.with_launcher(l2), redraw_if_spec(changed || l.scroll_offset != l2.scroll_offset))
    }

    /// The result row under the point, if any.
    pub open spec fn hovered_result(self, x: int, y: int) -> Option<usize> {
        let layout = self.layout();
        let size = visible_rows_spec(layout) as usize;
        let rows = self.launcher.window(size).len() as usize;
        match row_at_spec(layout, x, y, rows) {
            Some(row) => self.launcher.entry_at_row(row, size),
            None => None,
        }
    }

    /// The pinned tile under the point, if any.
    pub open spec fn hovered_tile(self, x: int, y: int) -> Option<usize> {
        pin_at_spec(self.layout(), x, y, self.launcher.pinned(pins::MAX).len() as usize)
    }

    /// The point is on the clear button (a 4 pixel margin included) while a query is typed.
    pub open spec fn on_clear_button(self, x: int, y: int) -> bool {
        let (cx, cy, cw, ch) = clear_rect_spec(self.layout());
        self.launcher.query.len() > 0 && rect_contains((cx - 4, cy - 4, cw + 8, ch + 8), x, y)
    }

    /// What a press at `(x, y)` does: on the search field, focus it (and clear
    /// the query when on the clear button); on a pinned tile, launch it and
    /// exit; on a result row, select and launch it; elsewhere, unfocus the search.
    pub open spec fn pressed(self, x: int, y: int) -> (ModelView, Seq<Cmd>) {
        let layout = self.layout();
        if rect_contains(
            (layout.search.x as int, layout.search.y as int, layout.search.w as int, layout.search.h as int),
            x,
            y,
        ) {
            if self.on_clear_button(x, y) {
                (
                    ModelView {
                        launcher: self.launcher.cleared(),
                        search_focused: true,
                        caret_visible: true,
                        ..self
                    },
                    seq![Cmd::Redraw],
                )
            } else {
                (ModelView { search_focused: true, ..self }, redraw_if_spec(!self.search_focused))
            }
        } else {
            let tile = match self.hovered_tile(x, y) {
                Some(i) => self.launcher.pinned_entry(i, pins::MAX),
                None => None,
            };
            match tile {
                Some(e) => (ModelView { search_focused: false, ..self }, seq![Cmd::Launch(e), Cmd::Exit]),
                None => match self.hovered_result(x, y) {
                    Some(index) => {
                        let l = self.launcher.index_selected(index);
                        (ModelView { search_focused: false, launcher: l, ..self }, launch_cmds(l))
                    },
                    None => (ModelView { search_focused: false, ..self }, redraw_if_spec(self.search_focused)),
                },
            }
        }
    }

    /// The state after `msg`, and what the shell should do.
    pub open spec fn step(self, msg: Msg) -> (ModelView, Seq<Cmd>) {
        match msg {
            Msg::Type(ch) => ModelView { search_focused: true, caret_visible: true, ..self }.settle(
                self.launcher.typed(ch),
                !crate::text::is_control_spec(ch),
            ),
            Msg::Backspace => ModelView { search_focused: true, caret_visible: true, ..self }.settle(
                self.launcher.backspaced(),
                self.launcher.query.len() > 0,
            ),
            Msg::SelectNext => self.settle(
                self.launcher.next_selected(),
                self.launcher.next_selected().selected != self.launcher.selected,
            ),
            Msg::SelectPrev => self.settle(
                self.launcher.prev_selected(),
                self.launcher.prev_selected().selected != self.launcher.selected,
            ),
            Msg::HoverAt { x, y } => {
                let l = self.launcher.hovered_at(self.hovered_result(x as int, y as int));
                let pin = self.hovered_tile(x as int, y as int);
                (
                    ModelView { launcher: l, hovered_pin: pin, ..self },
                    redraw_if_spec(l.hovered != self.launcher.hovered || pin != self.hovered_pin),
                )
            },
            Msg::ClearHover => {
                let l = self.launcher.hovered_at(None);
                (
                    ModelView { launcher: l, hovered_pin: None, ..self },
                    redraw_if_spec(l.hovered != self.launcher.hovered || self.hovered_pin is Some),
                )
            },
            Msg::PointerPressedAt { x, y } => self.pressed(x as int, y as int),
            Msg::LaunchSelected => (self, launch_cmds(self.launcher)),
            Msg::Quit => (self, seq![Cmd::Exit]),
            Msg::Configured { width, height } => {
                let m = ModelView { logical_width: width, logical_height: height, configured: true, ..self };
                let l = self.launcher.scrolled_into_view(m.visible_rows());
                (
                    m.with_launcher(l),
                    redraw_if_spec(
                        self.logical_width != width || self.logical_height != height || !self.configured,
                    ),
                )
            },
            Msg::ScaleChanged(s) => if s < 1 || s == self.scale {
                (self, seq![])
            } else {
                (
                    ModelView { scale: s, ..self },
                    if self.configured {
                        seq![Cmd::SetBufferScale(s), Cmd::Redraw]
                    } else {
                        seq![Cmd::SetBufferScale(s)]
                    },
                )
            },
            Msg::LaunchFailed(e) => (ModelView { error: Some(e@), ..self }, seq![Cmd::Redraw]),
            Msg::CaretBlink => if !self.search_focused {
                (ModelView { caret_visible: true, ..self }, seq![])
            } else {
                (ModelView { caret_visible: !self.caret_visible, ..self }, seq![Cmd::Redraw])
            },
        }
    }
}

/// `Redraw` when something changed, nothing otherwise.
fn redraw_if(changed: bool) -> (r: Vec<Cmd>)
    ensures
        r@ == redraw_if_spec(changed),
{
    if changed {
        vec![Cmd::Redraw]
    } else {
        Vec::new()
    }
}

/// Launches the selected result and exits; nothing without results.
fn launch_selected(model: &Model) -> (r: Vec<Cmd>)
    ensures
        r@ == launch_cmds(model@.launcher),
{
    match model.launcher.selected_entry() {
        Some(entry) => vec![Cmd::Launch(entry), Cmd::Exit],
        None => Vec::new(),
    }
}

impl Model {
    /// A window for `launcher` with a preferred size (also its size until configured).
    pub fn new(launcher: Launcher, preferred_width: u32, preferred_height: u32) -> (r: Self)
        ensures
            r@ == (ModelView {
                launcher: launcher@,
                scale: 1,
                logical_width: preferred_width,
                logical_height: preferred_height,
                preferred_width,
                preferred_height,
                configured: false,
                search_focused: true,
                caret_visible: true,
                hovered_pin: None,
                error: None,
            }),
    {
        // The launcher grabs the keyboard as soon as it opens: the search field
        // starts focused, inviting to type.
        Model {
            launcher,
            scale: 1,
            logical_width: preferred_width,
            logical_height: preferred_height,
            preferred_width,
            preferred_height,
            configured: false,
            search_focused: true,
            caret_visible: true,
            hovered_pin: None,
            error: None,
        }
    }

    /// The current layout.
    pub fn layout(&self) -> (r: LauncherLayout)
        requires
            self@.wf(),
        ensures
            r == self@.layout(),
            layout_fits(r),
    {
        proof {
            lemma_layout_fits(
                self.logical_width,
                self.logical_height,
                self.preferred_width,
                self.preferred_height,
                self@.launcher.pinned(pins::MAX).len() as usize,
            );
            self@.launcher.lemma_pinned(pins::MAX);
        }
        LauncherLayout::new(
            self.logical_width,
            self.logical_height,
            self.preferred_width,
            self.preferred_height,
            self.launcher.pinned_count(pins::MAX),
        )
    }

    /// The number of list rows the current layout shows.
    fn visible_rows(&self) -> (r: usize)
        requires
            self@.wf(),
        ensures
            r == self@.visible_rows(),
            r <= i32::MAX,
    {
        self.layout().visible_rows()
    }

    /// Scrolls the selection into view; returns whether the scroll offset changed.
    fn scroll_selection(&mut self) -> (r: bool)
        requires
            old(self)@.wf(),
        ensures
            final(self)@ == old(self)@.with_launcher(old(self)@.launcher.scrolled_into_view(old(self)@.visible_rows())),
            r == (old(self)@.launcher.scroll_offset != final(self)@.launcher.scroll_offset),
            final(self)@.wf(),
    {
        let rows = self.visible_rows();
        proof {
            let l = self@.launcher;
            l.lemma_rows();
            crate::launcher::lemma_first_pos(l.rows(), crate::launcher::Row::Entry(l.selected_index()));
            crate::launcher::lemma_wf_kept(l, l.scrolled_into_view(self@.visible_rows()));
        }
        self.launcher.ensure_selected_visible(rows)
    }
}


/// Typing a character.
fn on_type(model: &mut Model, ch: char) -> (r: Vec<Cmd>)
    requires
        old(model)@.wf(),
    ensures
        (final(model)@, r@) == old(model)@.step(Msg::Type(ch)),
        final(model)@.wf(),
{
    model.search_focused = true;
    model.caret_visible = true;
    let changed = model.launcher.push_char(ch);
    let scrolled = model.scroll_selection();
    redraw_if(changed || scrolled)
}

/// Deleting a character.
fn on_backspace(model: &mut Model) -> (r: Vec<Cmd>)
    requires
        old(model)@.wf(),
    ensures
        (final(model)@, r@) == old(model)@.step(Msg::Backspace),
        final(model)@.wf(),
{
    model.search_focused = true;
    model.caret_visible = true;
    let changed = model.launcher.backspace();
    let scrolled = model.scroll_selection();
    redraw_if(changed || scrolled)
}

/// Moving the selection down.
fn on_select_next(model: &mut Model) -> (r: Vec<Cmd>)
    requires
        old(model)@.wf(),
    ensures
        (final(model)@, r@) == old(model)@.step(Msg::SelectNext),
        final(model)@.wf(),
{
    let changed = model.launcher.select_next();
    let scrolled = model.scroll_selection();
    redraw_if(changed || scrolled)
}

/// Moving the selection up.
fn on_select_prev(model: &mut Model) -> (r: Vec<Cmd>)
    requires
        old(model)@.wf(),
    ensures
        (final(model)@, r@) == old(model)@.step(Msg::SelectPrev),
        final(model)@.wf(),
{
    let changed = model.launcher.select_prev();
    let scrolled = model.scroll_selection();
    redraw_if(changed || scrolled)
}

/// The result row at the point, if any.
fn result_at(model: &Model, layout: &LauncherLayout, x: i64, y: i64) -> (r: Option<usize>)
    requires
        model@.wf(),
        *layout == model@.layout(),
        layout_fits(*layout),
    ensures
        r == model@.hovered_result(x as int, y as int),
{
    let window_size = layout.visible_rows();
    let row_count = model.launcher.window_len(window_size);
    match layout.row_at(x, y, row_count) {
        Some(row) => model.launcher.entry_index_at_row(row, window_size),
        None => None,
    }
}

/// The pointer moving.
fn on_hover(model: &mut Model, x: i64, y: i64) -> (r: Vec<Cmd>)
    requires
        old(model)@.wf(),
    ensures
        (final(model)@, r@) == old(model)@.step(Msg::HoverAt { x, y }),
        final(model)@.wf(),
{
    let layout = model.layout();
    let hovered = result_at(model, &layout, x, y);
    let pin_hovered = layout.pin_at(x, y, model.launcher.pinned_count(pins::MAX));
    let pins_changed = match (model.hovered_pin, pin_hovered) {
        (Some(a), Some(b)) => a != b,
        (None, None) => false,
        _ => true,
    };
    model.hovered_pin = pin_hovered;
    let ghost l0 = model@.launcher;
    let rows_changed = model.launcher.hover_index(hovered);
    proof {
        crate::launcher::lemma_wf_kept(l0, model@.launcher);
    }
    redraw_if(rows_changed || pins_changed)
}

/// The pointer leaving.
fn on_clear_hover(model: &mut Model) -> (r: Vec<Cmd>)
    requires
        old(model)@.wf(),
    ensures
        (final(model)@, r@) == old(model)@.step(Msg::ClearHover),
        final(model)@.wf(),
{
    let pins_changed = model.hovered_pin.is_some();
    model.hovered_pin = None;
    let ghost l0 = model@.launcher;
    let rows_changed = model.launcher.hover_index(None);
    proof {
        crate::launcher::lemma_wf_kept(l0, model@.launcher);
    }
    redraw_if(rows_changed || pins_changed)
}

/// A press on the search field.
fn press_search(model: &mut Model, layout: &LauncherLayout, x: i64, y: i64) -> (r: Vec<Cmd>)
    requires
        old(model)@.wf(),
        *layout == old(model)@.layout(),
        layout_fits(*layout),
    ensures
        (final(model)@, r@) == (if old(model)@.on_clear_button(x as int, y as int) {
            (
                ModelView {
                    launcher: old(model)@.launcher.cleared(),
                    search_focused: true,
                    caret_visible: true,
                    ..old(model)@
                },
                seq![Cmd::Redraw],
            )
        } else {
            (ModelView { search_focused: true, ..old(model)@ }, redraw_if_spec(!old(model)@.search_focused))
        }),
        final(model)@.wf(),
{
    // The clear button empties the query (with a generous click area).
    let typed = model.launcher.query().unicode_len() > 0;
    if typed && layout.search_clear_rect().inset(-4).contains(x, y) {
        model.launcher.clear_query();
        model.search_focused = true;
        model.caret_visible = true;
        return vec![Cmd::Redraw];
    }
    let changed = !model.search_focused;
    model.search_focused = true;
    redraw_if(changed)
}

/// A press elsewhere than on the search field.
fn press_list(model: &mut Model, layout: &LauncherLayout, x: i64, y: i64) -> (r: Vec<Cmd>)
    requires
        old(model)@.wf(),
        *layout == old(model)@.layout(),
        layout_fits(*layout),
    ensures
        (final(model)@, r@) == ({
            let m = old(model)@;
            let tile = match m.hovered_tile(x as int, y as int) {
                Some(i) => m.launcher.pinned_entry(i, pins::MAX),
                None => None,
            };
            match tile {
                Some(e) => (ModelView { search_focused: false, ..m }, seq![Cmd::Launch(e), Cmd::Exit]),
                None => match m.hovered_result(x as int, y as int) {
                    Some(index) => {
                        let l = m.launcher.index_selected(index);
                        (ModelView { search_focused: false, launcher: l, ..m }, launch_cmds(l))
                    },
                    None => (ModelView { search_focused: false, ..m }, redraw_if_spec(m.search_focused)),
                },
            }
        }),
        final(model)@.wf(),
{
    let tile = match layout.pin_at(x, y, model.launcher.pinned_count(pins::MAX)) {
        Some(index) => model.launcher.pinned_entry(index, pins::MAX),
        None => None,
    };
    if let Some(entry) = tile {
        model.search_focused = false;
        return vec![Cmd::Launch(entry), Cmd::Exit];
    }
    let hit = result_at(model, layout, x, y);
    if let Some(index) = hit {
        model.search_focused = false;
        model.launcher.select_index(index);
        return launch_selected(model);
    }
    let changed = model.search_focused;
    model.search_focused = false;
    redraw_if(changed)
}

/// A pointer press.
fn on_press(model: &mut Model, x: i64, y: i64) -> (r: Vec<Cmd>)
    requires
        old(model)@.wf(),
    ensures
        (final(model)@, r@) == old(model)@.step(Msg::PointerPressedAt { x, y }),
        final(model)@.wf(),
{
    let layout = model.layout();
    if layout.search.contains(x, y) {
        press_search(model, &layout, x, y)
    } else {
        press_list(model, &layout, x, y)
    }
}

/// The compositor giving the surface its size.
fn on_configured(model: &mut Model, width: u32, height: u32) -> (r: Vec<Cmd>)
    requires
        old(model)@.wf(),
        width <= i32::MAX,
        height <= i32::MAX,
    ensures
        (final(model)@, r@) == old(model)@.step(Msg::Configured { width, height }),
        final(model)@.wf(),
{
    let size_changed = model.logical_width != width || model.logical_height != height;
    let first_configure = !model.configured;
    model.logical_width = width;
    model.logical_height = height;
    model.configured = true;
    model.scroll_selection();
    if size_changed || first_configure {
        vec![Cmd::Redraw]
    } else {
        Vec::new()
    }
}

/// A new output scale.
fn on_scale(model: &mut Model, new_scale: i32) -> (r: Vec<Cmd>)
    requires
        old(model)@.wf(),
    ensures
        (final(model)@, r@) == old(model)@.step(Msg::ScaleChanged(new_scale)),
        final(model)@.wf(),
{
    if new_scale < 1 || new_scale == model.scale {
        return Vec::new();
    }
    model.scale = new_scale;
    let mut cmds = vec![Cmd::SetBufferScale(new_scale)];
    if model.configured {
        cmds.push(Cmd::Redraw);
    }
    cmds
}

/// The caret's blink timer firing.
fn on_caret_blink(model: &mut Model) -> (r: Vec<Cmd>)
    requires
        old(model)@.wf(),
    ensures
        (final(model)@, r@) == old(model)@.step(Msg::CaretBlink),
        final(model)@.wf(),
{
    if !model.search_focused {
        model.caret_visible = true;
        return Vec::new();
    }
    model.caret_visible = !model.caret_visible;
    vec![Cmd::Redraw]
}

/// The pixel size of the window's buffer: the logical size (at least one
/// pixel each way) times the scale (at least 1), and the bytes per row.
pub open spec fn buffer_size_spec(logical_width: u32, logical_height: u32, scale: i32) -> (int, int, int) {
    let s: int = if scale >= 1 { scale as int } else { 1 };
    let w: int = if logical_width >= 1 { logical_width as int } else { 1 };
    let h: int = if logical_height >= 1 { logical_height as int } else { 1 };
    (w * s, h * s, w * s * 4)
}

/// The pixel size of the window's buffer and its bytes per row; see
/// `buffer_size_spec`. (Larger buffers overflow the arithmetic.)
pub fn buffer_size(logical_width: u32, logical_height: u32, scale: i32) -> (r: (u32, u32, i32))
    requires
        buffer_size_spec(logical_width, logical_height, scale).2 <= i32::MAX,
        buffer_size_spec(logical_width, logical_height, scale).1 <= u32::MAX,
    ensures
        (r.0 as int, r.1 as int, r.2 as int) == buffer_size_spec(logical_width, logical_height, scale),
{
    let s: u32 = if scale >= 1 { scale as u32 } else { 1 };
    let w: u32 = if logical_width >= 1 { logical_width } else { 1 };
    let h: u32 = if logical_height >= 1 { logical_height } else { 1 };
    proof {
        assert(w * s <= w * s * 4) by (nonlinear_arith)
            requires
                w >= 1,
                s >= 1,
        ;
    }
    let pw = w * s;
    let ph = h * s;
    (pw, ph, (pw as i32) * 4)
}

/// The pointer's look over a spot of the window.
#[derive(Debug, Clone, Copy, PartialEq, Eq, Structural)]
pub enum CursorKind {
    Default,
    Text,
    Pointer,
}

impl ModelView {
    /// A press at the point would launch something: a pinned tile or a result row.
    pub open spec fn over_clickable(self, x: int, y: int) -> bool {
        self.hovered_tile(x, y) is Some || self.hovered_result(x, y) is Some
    }

    /// The cursor over `(x, y)`: a hand over the clear button, a text beam over
    /// the search field, a hand over what a press would launch, the arrow elsewhere.
    pub open spec fn cursor_at(self, x: int, y: int) -> CursorKind {
        let layout = self.layout();
        if self.on_clear_button(x, y) {
            CursorKind::Pointer
        } else if rect_contains(
            (layout.search.x as int, layout.search.y as int, layout.search.w as int, layout.search.h as int),
            x,
            y,
        ) {
            CursorKind::Text
        } else if self.over_clickable(x, y) {
            CursorKind::Pointer
        } else {
            CursorKind::Default
        }
    }
}

/// The cursor to show with the pointer at `(x, y)`; see `ModelView::cursor_at`.
pub fn cursor_at(model: &Model, x: i64, y: i64) -> (r: CursorKind)
    requires
        model@.wf(),
    ensures
        r == model@.cursor_at(x as int, y as int),
{
    let layout = model.layout();
    let typed = model.launcher.query().unicode_len() > 0;
    if typed && layout.search_clear_rect().inset(-4).contains(x, y) {
        return CursorKind::Pointer;
    }
    if layout.search.contains(x, y) {
        return CursorKind::Text;
    }
    if layout.pin_at(x, y, model.launcher.pinned_count(pins::MAX)).is_some() {
        return CursorKind::Pointer;
    }
    if result_at(model, &layout, x, y).is_some() {
        CursorKind::Pointer
    } else {
        CursorKind::Default
    }
}

/// Applies `msg` to the window state and says what the shell should do next;
/// see `ModelView::step`.
pub fn update(model: &mut Model, msg: Msg) -> (r: Vec<Cmd>)
    requires
        old(model)@.wf(),
        msg matches Msg::Configured { width, height } ==> width <= i32::MAX && height <= i32::MAX,
    ensures
        (final(model)@, r@) == old(model)@.step(msg),
        final(model)@.wf(),
{
    match msg {
        Msg::Type(ch) => on_type(model, ch),
        Msg::Backspace => on_backspace(model),
        Msg::SelectNext => on_select_next(model),
        Msg::SelectPrev => on_select_prev(model),
        Msg::HoverAt { x, y } => on_hover(model, x, y),
        Msg::ClearHover => on_clear_hover(model),
        Msg::PointerPressedAt { x, y } => on_press(model, x, y),
        Msg::LaunchSelected => launch_selected(model),
        Msg::Quit => vec![Cmd::Exit],
        Msg::Configured { width, height } => on_configured(model, width, height),
        Msg::ScaleChanged(new_scale) => on_scale(model, new_scale),
        Msg::LaunchFailed(error) => {
            model.error = Some(error);
            vec![Cmd::Redraw]
        },
        Msg::CaretBlink => on_caret_blink(model),
    }
}

} // verus!
