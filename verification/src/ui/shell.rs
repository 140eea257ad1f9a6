//! The sidebar of the pages.
use vstd::prelude::*;

verus! {

pub const MIN_WIDTH: u32 = 180;

pub const MAX_WIDTH: u32 = 480;

pub const DEFAULT_WIDTH: u32 = 260;

/// The width that a pointer at `px` drags the sidebar to.
pub fn clamp_width(px: i32) -> (r: u32)
    ensures
        r == if px < MIN_WIDTH {
            MIN_WIDTH
        } else if px > MAX_WIDTH {
            MAX_WIDTH
        } else {
            px as u32
        },
{
    if px < 180 {
        MIN_WIDTH
    } else if px > 480 {
        MAX_WIDTH
    } else {
        px as u32
    }
}

/// The width at the start: the one that was kept, within bounds.
pub fn start_width(kept: Option<i32>) -> (r: u32)
    ensures
        MIN_WIDTH <= r <= MAX_WIDTH,
        match kept {
            Some(px) => MIN_WIDTH <= px <= MAX_WIDTH ==> r == px,
            None => r == DEFAULT_WIDTH,
        },
        kept is Some && kept->0 < MIN_WIDTH ==> r == MIN_WIDTH,
        kept is Some && kept->0 > MAX_WIDTH ==> r == MAX_WIDTH,
{
    match kept {
        Some(px) => clamp_width(px),
        None => DEFAULT_WIDTH,
    }
}

} // verus!
