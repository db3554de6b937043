//! Deciding how a video that is too large is scaled down.

use vstd::prelude::*;

verus! {

/// The side of the picture that is held to a number of pixels; the other
/// follows.
#[derive(Debug, Clone, Copy, PartialEq, Eq, Structural)]
pub enum Scale {
    ConstraintWidth(i32),
    ConstraintHeight(i32),
}

/// The scaling of a picture of that width and height, if its smaller side is
/// longer than `max_lines`.
pub open spec fn scale_for(width: i32, height: i32, max_lines: i32) -> Option<Scale> {
    let lines = if width <= height {
        width
    } else {
        height
    };
    if lines <= max_lines {
        None
    } else if width > height {
        Some(Scale::ConstraintHeight(max_lines))
    } else {
        Some(Scale::ConstraintWidth(max_lines))
    }
}

/// How to scale a picture whose smaller side is longer than `max_lines`:
/// that side is held to `max_lines`. A picture that is small enough is left
/// alone.
pub fn choose_scale(width: i32, height: i32, max_lines: i32) -> (r: Option<Scale>)
    ensures
        r == scale_for(width, height, max_lines),
{
    let lines = if width <= height {
        width
    } else {
        height
    };
    if lines <= max_lines {
        None
    } else if width > height {
        Some(Scale::ConstraintHeight(max_lines))
    } else {
        Some(Scale::ConstraintWidth(max_lines))
    }
}

} // verus!
