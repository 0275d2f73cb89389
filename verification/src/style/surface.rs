use vstd::prelude::*;

verus! {

pub const WIDTH_HINT: u32 = 760;
pub const HEIGHT_HINT: u32 = 420;
pub const PANEL_RADIUS: i32 = 22;
/// The preview sits flush against the panel (leaving 1px of border visible),
/// so its radius follows the panel's.
pub const PREVIEW_RADIUS: i32 = PANEL_RADIUS - 1;
pub const ITEM_RADIUS: i32 = 16;
/// The same radius as the pinned tiles: one language of shapes.
pub const SEARCH_RADIUS: i32 = 12;

} // verus!
