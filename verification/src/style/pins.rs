//! The strip of pinned applications (the most used ones) between the search
//! field and the list: tiles with the icon only.
use vstd::prelude::*;

verus! {

pub const MAX: usize = 5;
pub const LABEL_HEIGHT: i32 = 14;
pub const LABEL_GAP: i32 = 6;
pub const TILE_HEIGHT: i32 = 40;
pub const GAP: i32 = 8;
pub const RADIUS: i32 = 12;
pub const ICON_SIZE: i32 = 24;

} // verus!
