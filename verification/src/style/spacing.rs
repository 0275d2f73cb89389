use vstd::prelude::*;

verus! {

pub const PANEL_PADDING: i32 = 18;
pub const GAP: i32 = 18;
pub const SEARCH_HEIGHT: i32 = 40;
pub const SEARCH_ICON_SIZE: i32 = 18;
pub const ROW_HEIGHT: i32 = 44;
pub const ROW_GAP: i32 = 8;
pub const ICON_SIZE: i32 = 26;

} // verus!
