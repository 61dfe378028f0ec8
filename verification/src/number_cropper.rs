//! The part of a sticker that its number is read from.

use crate::embedding::CropBox;
use crate::text;
use vstd::prelude::*;

verus! {

/// A length that goes no farther than what is left.
pub open spec fn cut_short(length: int, left: int) -> int {
    if length < left {
        length
    } else {
        left
    }
}

/// Cuts the rectangle of a sticker's number off where the sticker ends.
pub fn crop_number_region(cols: i32, rows: i32, wished: CropBox) -> (crop: Result<CropBox, String>)
    requires
        cols > 0 && rows > 0 ==> wished.x >= 0 && wished.y >= 0,
    ensures
        ({
            let w = cut_short(wished.w as int, cols - wished.x);
            let h = cut_short(wished.h as int, rows - wished.y);
            match crop {
                Ok(c) => cols > 0 && rows > 0 && w > 1 && h > 1 && c == (CropBox {
                    x: wished.x,
                    y: wished.y,
                    w: w as i32,
                    h: h as i32,
                }) && c.inside(cols, rows),
                Err(message) => if cols <= 0 || rows <= 0 {
                    message@ == "warped sticker is empty"@
                } else {
                    (w <= 1 || h <= 1) && message@
                        == "configured number region is too small after warping"@
                },
            }
        }),
{
    if cols <= 0 || rows <= 0 {
        return Err(text::owned("warped sticker is empty"));
    }
    let w: i32 = if wished.w < cols - wished.x {
        wished.w
    } else {
        cols - wished.x
    };
    let h: i32 = if wished.h < rows - wished.y {
        wished.h
    } else {
        rows - wished.y
    };
    if w <= 1 || h <= 1 {
        return Err(text::owned("configured number region is too small after warping"));
    }
    Ok(CropBox { x: wished.x, y: wished.y, w, h })
}

/// The name of how the part that holds the number is prepared for reading: gray,
/// with its contrast evened out, made black and white by its surroundings, and with
/// small gaps closed.
pub const PREPROCESSING_VARIANT: &'static str = "gray_equalized_adaptive_close";

/// The side of the surroundings by which a pixel is made black or white: an eighth of
/// the shorter side, between 11 and 41, and odd.
pub fn adaptive_block_size(width: i32, height: i32) -> (side: i32)
    ensures
        ({
            let shorter = if width < height {
                width as int
            } else {
                height as int
            };
            let eighth = shorter / 8;
            let base = if eighth < 11 {
                11
            } else if eighth > 41 {
                41
            } else {
                eighth
            };
            side == base + (base + 1) % 2
        }),
        11 <= side <= 41,
        side % 2 == 1,
{
    let shorter: i32 = if width < height {
        width
    } else {
        height
    };
    let base: i32 = if shorter < 88 {
        11
    } else if shorter >= 336 {
        41
    } else {
        shorter / 8
    };
    if base % 2 == 0 {
        base + 1
    } else {
        base
    }
}

/// A length that is cut short goes as far as it was wished to where there is room, and
/// otherwise as far as there is room.
pub proof fn lengths_are_cut_at_the_edge(length: int, left: int)
    ensures
        cut_short(length, left) <= length,
        cut_short(length, left) <= left,
        length <= left ==> cut_short(length, left) == length,
        length >= left ==> cut_short(length, left) == left,
{
}

}
