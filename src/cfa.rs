//! The colour filter array layout and the extension of coordinates one pixel
//! beyond the image border.
use vstd::prelude::*;

verus! {

/// A colour channel of an RGB pixel.
#[derive(Clone, Copy, Debug, PartialEq, Eq, Structural)]
pub enum Channel {
    Red,
    Green,
    Blue,
}

/// The channel that the filter samples at `(x, y)`: green where the parities
/// of `x` and `y` agree, blue at odd `x` of even rows, red at even `x` of odd rows.
pub open spec fn pattern(x: int, y: int) -> Channel {
    if x % 2 == y % 2 {
        Channel::Green
    } else if x % 2 == 1 {
        Channel::Blue
    } else {
        Channel::Red
    }
}

/// The channel that the filter samples at `(x, y)`.
pub fn mosaic_channel(x: u32, y: u32) -> (c: Channel)
    ensures
        c == pattern(x as int, y as int),
{
    if x % 2 == y % 2 {
        Channel::Green
    } else if x % 2 == 1 {
        Channel::Blue
    } else {
        Channel::Red
    }
}

/// Whether `(x, y)` lies at most one pixel outside a `w` by `h` image.
pub open spec fn in_extended_range(x: int, y: int, w: int, h: int) -> bool {
    -1 <= x <= w && -1 <= y <= h
}

/// The in-image coordinate read in place of `(x, y)`: an overhanging
/// coordinate is reflected onto the second row or column from that edge,
/// corners on both axes.
pub open spec fn boundary_index(x: int, y: int, w: int, h: int) -> (int, int) {
    if x == -1 && y == -1 {
        (1, 1)
    } else if x == w && y == -1 {
        (w - 2, 1)
    } else if x == w && y == h {
        (w - 2, h - 2)
    } else if x == -1 && y == h {
        (1, h - 2)
    } else if y == -1 {
        (x, 1)
    } else if y == h {
        (x, h - 2)
    } else if x == -1 {
        (1, y)
    } else if x == w {
        (w - 2, y)
    } else {
        (x, y)
    }
}

/// Maps a coordinate at most one pixel outside a `width` by `height` image to
/// the in-image coordinate that stands for it.
pub fn convert_index(x: i32, y: i32, width: u32, height: u32) -> (r: (u32, u32))
    requires
        2 <= width <= i32::MAX,
        2 <= height <= i32::MAX,
        in_extended_range(x as int, y as int, width as int, height as int),
    ensures
        (r.0 as int, r.1 as int) == boundary_index(x as int, y as int, width as int, height as int),
        r.0 < width,
        r.1 < height,
{
    let (w, h) = (width as i32, height as i32);
    if x == -1 && y == -1 {
        (1, 1)
    } else if x == w && y == -1 {
        (width - 2, 1)
    } else if x == w && y == h {
        (width - 2, height - 2)
    } else if x == -1 && y == h {
        (1, height - 2)
    } else if y == -1 {
        (x as u32, 1)
    } else if y == h {
        (x as u32, height - 2)
    } else if x == -1 {
        (1, y as u32)
    } else if x == w {
        (width - 2, y as u32)
    } else {
        (x as u32, y as u32)
    }
}

} // verus!
