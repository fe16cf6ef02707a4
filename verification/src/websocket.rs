//! What is computed for the messages on the progress of a job: the part of
//! the work that is done, and the size of the preview of a page.

use vstd::prelude::*;

verus! {

/// The width of the preview of a page, in pixels.
pub const PREVIEW_WIDTH: u32 = 200;

/// The part of the steps that is done, in percent and rounded down; 0 for
/// no steps, and 255 at most.
pub open spec fn percent_done(current_step: u32, total_steps: u32) -> int {
    if total_steps == 0 {
        0
    } else if 100 * current_step / (total_steps as int) > 255 {
        255
    } else {
        100 * current_step / (total_steps as int)
    }
}

/// The height that belongs to a width of `max_width` where the proportions
/// of the image are kept, rounded down and limited to 32 bits. An image
/// without width has the largest height, unless it has no height or the
/// preview no width.
pub open spec fn preview_height(width: u32, height: u32, max_width: u32) -> int {
    if width == 0 {
        if height > 0 && max_width > 0 {
            u32::MAX as int
        } else {
            0
        }
    } else if height * max_width / (width as int) > u32::MAX {
        u32::MAX as int
    } else {
        height * max_width / (width as int)
    }
}

/// The part of the steps that is done, in percent.
pub fn progress_percent(current_step: u32, total_steps: u32) -> (percent: u8)
    ensures
        percent == percent_done(current_step, total_steps),
{
    if total_steps == 0 {
        return 0;
    }
    let done: u64 = 100 * current_step as u64 / total_steps as u64;
    if done > 255 {
        255
    } else {
        done as u8
    }
}

/// The size of the preview of an image: `max_width` wide, and as high as
/// the proportions of the image ask.
pub fn preview_size(width: u32, height: u32, max_width: u32) -> (size: (u32, u32))
    ensures
        size.0 == max_width,
        size.1 == preview_height(width, height, max_width),
{
    if width == 0 {
        return (max_width, if height > 0 && max_width > 0 { u32::MAX } else { 0 });
    }
    assert(height as int * max_width as int <= 0xFFFF_FFFF * 0xFFFF_FFFF) by (nonlinear_arith)
        requires
            0 <= height <= 0xFFFF_FFFF,
            0 <= max_width <= 0xFFFF_FFFF,
    ;
    let scaled: u64 = height as u64 * max_width as u64 / width as u64;
    if scaled > u32::MAX as u64 {
        (max_width, u32::MAX)
    } else {
        (max_width, scaled as u32)
    }
}

} // verus!
