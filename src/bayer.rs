//! Bayer mosaic encoding and two-pass demosaicing, sequential and parallel.
//!
//! The first pass separates the mosaic into an RGB buffer whose green channel
//! is complete (interpolated from the four orthogonal neighbours where the
//! filter did not sample green) and whose red and blue channels hold only
//! their native samples. The second pass reads only that buffer and estimates
//! the missing red and blue values from colour-to-green ratios of neighbours.
use crate::cfa::{boundary_index, convert_index, in_extended_range, mosaic_channel, pattern, Channel};
use crate::chroma::{estimate2, estimate4, ratio_estimate2, ratio_estimate4, RatioTerm};
use crate::raster::{
    cell, gray_height, gray_pixels, gray_width, rgb_height, rgb_pixels, rgb_width, GrayImage,
    Rgb8, RgbImage,
};
use vstd::prelude::*;

verus! {

/// The sample of channel `c` in pixel `p`.
pub open spec fn sample_of(p: Rgb8, c: Channel) -> u8 {
    match c {
        Channel::Red => p.0,
        Channel::Green => p.1,
        Channel::Blue => p.2,
    }
}

/// `m` is the mosaic of the `w` by `h` RGB grid `img`: each cell keeps the
/// channel that the filter pattern selects there.
pub open spec fn is_mosaic_of(m: Seq<u8>, img: Seq<Rgb8>, w: int, h: int) -> bool {
    &&& m.len() == w * h
    &&& forall|x: int, y: int|
        0 <= x < w && 0 <= y < h ==> #[trigger] cell(m, w, x, y) == sample_of(
            cell(img, w, x, y),
            pattern(x, y),
        )
}

/// The cell read for `(x, y)`, which may overhang the grid by one pixel.
pub open spec fn ext_cell<T>(s: Seq<T>, w: int, h: int, x: int, y: int) -> T {
    cell(s, w, boundary_index(x, y, w, h).0, boundary_index(x, y, w, h).1)
}

/// Green at a red or blue site: the truncated mean of the four orthogonal
/// neighbours of the mosaic.
pub open spec fn green_estimate(m: Seq<u8>, w: int, h: int, x: int, y: int) -> u8 {
    ((ext_cell(m, w, h, x - 1, y) + ext_cell(m, w, h, x + 1, y) + ext_cell(m, w, h, x, y - 1)
        + ext_cell(m, w, h, x, y + 1)) / 4) as u8
}

/// The first-pass pixel at `(x, y)`: complete green, and red or blue only
/// where the filter sampled it.
pub open spec fn separated_pixel(m: Seq<u8>, w: int, h: int, x: int, y: int) -> Rgb8 {
    let s = cell(m, w, x, y);
    match pattern(x, y) {
        Channel::Green => (0, s, 0),
        Channel::Red => (s, green_estimate(m, w, h, x, y), 0),
        Channel::Blue => (0, green_estimate(m, w, h, x, y), s),
    }
}

/// The first-pass pixel read for `(x, y)`, which may overhang by one pixel.
#[verifier::opaque]
pub open spec fn separated_ext(m: Seq<u8>, w: int, h: int, x: int, y: int) -> Rgb8 {
    separated_pixel(m, w, h, boundary_index(x, y, w, h).0, boundary_index(x, y, w, h).1)
}

/// `p` is the first-pass buffer of the `w` by `h` mosaic `m`.
pub open spec fn is_separation_of(p: Seq<Rgb8>, m: Seq<u8>, w: int, h: int) -> bool {
    &&& p.len() == w * h
    &&& forall|x: int, y: int|
        0 <= x < w && 0 <= y < h ==> #[trigger] cell(p, w, x, y) == separated_pixel(m, w, h, x, y)
}

/// Red against green of a pixel.
pub open spec fn red_term(p: Rgb8) -> RatioTerm {
    (p.0, p.1)
}

/// Blue against green of a pixel.
pub open spec fn blue_term(p: Rgb8) -> RatioTerm {
    (p.2, p.1)
}

/// The reconstructed pixel at `(x, y)` of the `w` by `h` mosaic `m`.
///
/// At a green site with both coordinates even, blue comes from the left and
/// right neighbours and red from those above and below; with both odd, the
/// other way round. At a blue site red comes from the four diagonal
/// neighbours, and at a red site blue does. Green, and the sampled channel,
/// are kept from the first pass.
pub open spec fn demosaiced_pixel(m: Seq<u8>, w: int, h: int, x: int, y: int) -> Rgb8 {
    let own = separated_pixel(m, w, h, x, y);
    let g = own.1;
    match pattern(x, y) {
        Channel::Green => {
            let left = separated_ext(m, w, h, x - 1, y);
            let right = separated_ext(m, w, h, x + 1, y);
            let up = separated_ext(m, w, h, x, y - 1);
            let down = separated_ext(m, w, h, x, y + 1);
            if x % 2 == 0 {
                (
                    ratio_estimate2(red_term(up), red_term(down), g),
                    g,
                    ratio_estimate2(blue_term(left), blue_term(right), g),
                )
            } else {
                (
                    ratio_estimate2(red_term(left), red_term(right), g),
                    g,
                    ratio_estimate2(blue_term(up), blue_term(down), g),
                )
            }
        },
        Channel::Blue => (
            ratio_estimate4(
                red_term(separated_ext(m, w, h, x - 1, y - 1)),
                red_term(separated_ext(m, w, h, x + 1, y - 1)),
                red_term(separated_ext(m, w, h, x - 1, y + 1)),
                red_term(separated_ext(m, w, h, x + 1, y + 1)),
                g,
            ),
            g,
            own.2,
        ),
        Channel::Red => (
            own.0,
            g,
            ratio_estimate4(
                blue_term(separated_ext(m, w, h, x - 1, y - 1)),
                blue_term(separated_ext(m, w, h, x + 1, y - 1)),
                blue_term(separated_ext(m, w, h, x - 1, y + 1)),
                blue_term(separated_ext(m, w, h, x + 1, y + 1)),
                g,
            ),
        ),
    }
}

/// `p` is the demosaiced image of the `w` by `h` mosaic `m`.
pub open spec fn is_demosaic_of(p: Seq<Rgb8>, m: Seq<u8>, w: int, h: int) -> bool {
    &&& p.len() == w * h
    &&& forall|x: int, y: int|
        0 <= x < w && 0 <= y < h ==> #[trigger] cell(p, w, x, y) == demosaiced_pixel(m, w, h, x, y)
}

/// Image sizes that demosaicing accepts: at least two pixels each way, and
/// coordinates that fit in `i32` with one pixel of overhang.
pub open spec fn demosaic_size(w: int, h: int) -> bool {
    2 <= w <= i32::MAX && 2 <= h <= i32::MAX && 3 * w * h <= usize::MAX
}

/// Converts an RGB image into the single-channel mosaic that the colour
/// filter array would record.
pub fn cast_rgb_to_bayer_mosaic(img: &RgbImage) -> (r: GrayImage)
    ensures
        gray_width(r) == rgb_width(*img),
        gray_height(r) == rgb_height(*img),
        is_mosaic_of(gray_pixels(r), rgb_pixels(*img), rgb_width(*img) as int, rgb_height(*img) as int),
{
    let (width, height) = img.dimensions();
    let ghost w = width as int;
    let ghost src = rgb_pixels(*img);
    let mut raw: Vec<u8> = Vec::new();
    assert(width * height <= usize::MAX) by (nonlinear_arith)
        requires
            3 * width * height <= usize::MAX,
    ;
    let mut y: u32 = 0;
    while y < height
        invariant
            y <= height,
            w == width,
            src == rgb_pixels(*img),
            width == rgb_width(*img),
            height == rgb_height(*img),
            width * height <= usize::MAX,
            raw@.len() == y * w,
            forall|xx: int, yy: int|
                0 <= xx < w && 0 <= yy < y ==> #[trigger] cell(raw@, w, xx, yy) == sample_of(
                    cell(src, w, xx, yy),
                    pattern(xx, yy),
                ),
        decreases height - y,
    {
        let mut x: u32 = 0;
        while x < width
            invariant
                x <= width,
                y < height,
                w == width,
                src == rgb_pixels(*img),
                width == rgb_width(*img),
                height == rgb_height(*img),
                width * height <= usize::MAX,
                raw@.len() == y * w + x,
                forall|xx: int, yy: int|
                    (0 <= xx < w && 0 <= yy < y) || (0 <= xx < x && yy == y) ==> #[trigger] cell(
                        raw@,
                        w,
                        xx,
                        yy,
                    ) == sample_of(cell(src, w, xx, yy), pattern(xx, yy)),
            decreases width - x,
        {
            let p = img.get_pixel(x, y);
            let s = match mosaic_channel(x, y) {
                Channel::Red => p.0,
                Channel::Green => p.1,
                Channel::Blue => p.2,
            };
            let ghost before = raw@;
            proof {
                crate::raster::lemma_cell_index_bounds(w, height as int, x as int, y as int);
            }
            raw.push(s);
            assert forall|xx: int, yy: int|
                (0 <= xx < w && 0 <= yy < y) || (0 <= xx < x + 1 && yy == y) implies #[trigger] cell(
                raw@,
                w,
                xx,
                yy,
            ) == sample_of(cell(src, w, xx, yy), pattern(xx, yy)) by {
                if !(xx == x && yy == y) {
                    crate::raster::lemma_cell_index_order(w, xx, yy, x as int, y as int);
                    crate::raster::lemma_cell_index_bounds(w, height as int, xx, yy);
                    assert(cell(raw@, w, xx, yy) == cell(before, w, xx, yy));
                }
            }
            x = x + 1;
        }
        assert(raw@.len() == (y + 1) * w) by (nonlinear_arith)
            requires
                raw@.len() == y * w + w,
        ;
        y = y + 1;
    }
    let ghost samples = raw@;
    assert(samples.len() == w * height) by (nonlinear_arith)
        requires
            samples.len() == height * w,
    ;
    let out = GrayImage::from_vec(width, height, raw);
    assert(samples.take(w * height) =~= samples);
    out.unwrap()
}

/// Reads the mosaic at `(x, y)`, which may overhang the image by one pixel.
pub fn ext_index_gray(img: &GrayImage, width: u32, height: u32, x: i32, y: i32) -> (r: u8)
    requires
        width == gray_width(*img),
        height == gray_height(*img),
        gray_pixels(*img).len() == width * height,
        demosaic_size(width as int, height as int),
        in_extended_range(x as int, y as int, width as int, height as int),
    ensures
        r == ext_cell(gray_pixels(*img), width as int, height as int, x as int, y as int),
{
    let (ax, ay) = convert_index(x, y, width, height);
    img.get_pixel(ax, ay)
}

/// Reads an RGB image at `(x, y)`, which may overhang the image by one pixel.
pub fn ext_index_rgb(img: &RgbImage, width: u32, height: u32, x: i32, y: i32) -> (r: Rgb8)
    requires
        width == rgb_width(*img),
        height == rgb_height(*img),
        rgb_pixels(*img).len() == width * height,
        demosaic_size(width as int, height as int),
        in_extended_range(x as int, y as int, width as int, height as int),
    ensures
        r == ext_cell(rgb_pixels(*img), width as int, height as int, x as int, y as int),
{
    let (ax, ay) = convert_index(x, y, width, height);
    img.get_pixel(ax, ay)
}

/// The first-pass pixel at `(x, y)` of a mosaic.
pub fn separate_at(img: &GrayImage, width: u32, height: u32, x: u32, y: u32) -> (r: Rgb8)
    requires
        width == gray_width(*img),
        height == gray_height(*img),
        gray_pixels(*img).len() == width * height,
        demosaic_size(width as int, height as int),
        x < width,
        y < height,
    ensures
        r == separated_pixel(gray_pixels(*img), width as int, height as int, x as int, y as int),
{
    let s = img.get_pixel(x, y);
    match mosaic_channel(x, y) {
        Channel::Green => (0, s, 0),
        channel => {
            let (xi, yi) = (x as i32, y as i32);
            let left = ext_index_gray(img, width, height, xi - 1, yi);
            let right = ext_index_gray(img, width, height, xi + 1, yi);
            let up = ext_index_gray(img, width, height, xi, yi - 1);
            let down = ext_index_gray(img, width, height, xi, yi + 1);
            let green = ((left as u16 + right as u16 + up as u16 + down as u16) / 4) as u8;
            if channel == Channel::Red {
                (s, green, 0)
            } else {
                (0, green, s)
            }
        },
    }
}

/// The reconstructed pixel at `(x, y)`, read from the first-pass buffer
/// `sep` of the mosaic `m`.
fn reconstruct_at(
    sep: &RgbImage,
    Ghost(m): Ghost<Seq<u8>>,
    width: u32,
    height: u32,
    x: u32,
    y: u32,
) -> (r: Rgb8)
    requires
        width == rgb_width(*sep),
        height == rgb_height(*sep),
        demosaic_size(width as int, height as int),
        is_separation_of(rgb_pixels(*sep), m, width as int, height as int),
        x < width,
        y < height,
    ensures
        r == demosaiced_pixel(m, width as int, height as int, x as int, y as int),
{
    let ghost (w, h) = (width as int, height as int);
    let (xi, yi) = (x as i32, y as i32);
    let own = sep.get_pixel(x, y);
    let g = own.1;
    match mosaic_channel(x, y) {
        Channel::Green => {
            let left = ext_index_rgb(sep, width, height, xi - 1, yi);
            let right = ext_index_rgb(sep, width, height, xi + 1, yi);
            let up = ext_index_rgb(sep, width, height, xi, yi - 1);
            let down = ext_index_rgb(sep, width, height, xi, yi + 1);
            proof {
                lemma_ext_separated(rgb_pixels(*sep), m, w, h, x - 1, y as int);
                lemma_ext_separated(rgb_pixels(*sep), m, w, h, x + 1, y as int);
                lemma_ext_separated(rgb_pixels(*sep), m, w, h, x as int, y - 1);
                lemma_ext_separated(rgb_pixels(*sep), m, w, h, x as int, y + 1);
            }
            if x % 2 == 0 {
                (
                    estimate2((up.0, up.1), (down.0, down.1), g),
                    g,
                    estimate2((left.2, left.1), (right.2, right.1), g),
                )
            } else {
                (
                    estimate2((left.0, left.1), (right.0, right.1), g),
                    g,
                    estimate2((up.2, up.1), (down.2, down.1), g),
                )
            }
        },
        channel => {
            let up_left = ext_index_rgb(sep, width, height, xi - 1, yi - 1);
            let up_right = ext_index_rgb(sep, width, height, xi + 1, yi - 1);
            let down_left = ext_index_rgb(sep, width, height, xi - 1, yi + 1);
            let down_right = ext_index_rgb(sep, width, height, xi + 1, yi + 1);
            proof {
                lemma_ext_separated(rgb_pixels(*sep), m, w, h, x - 1, y - 1);
                lemma_ext_separated(rgb_pixels(*sep), m, w, h, x + 1, y - 1);
                lemma_ext_separated(rgb_pixels(*sep), m, w, h, x - 1, y + 1);
                lemma_ext_separated(rgb_pixels(*sep), m, w, h, x + 1, y + 1);
            }
            if channel == Channel::Blue {
                let red = estimate4(
                    (up_left.0, up_left.1),
                    (up_right.0, up_right.1),
                    (down_left.0, down_left.1),
                    (down_right.0, down_right.1),
                    g,
                );
                (red, g, own.2)
            } else {
                let blue = estimate4(
                    (up_left.2, up_left.1),
                    (up_right.2, up_right.1),
                    (down_left.2, down_left.1),
                    (down_right.2, down_right.1),
                    g,
                );
                (own.0, g, blue)
            }
        },
    }
}

/// A read of the first-pass buffer through the boundary indexer gives the
/// first-pass pixel of the reflected coordinate.
proof fn lemma_ext_separated(p: Seq<Rgb8>, m: Seq<u8>, w: int, h: int, x: int, y: int)
    requires
        demosaic_size(w, h),
        is_separation_of(p, m, w, h),
        in_extended_range(x, y, w, h),
    ensures
        ext_cell(p, w, h, x, y) == separated_ext(m, w, h, x, y),
{
    reveal(separated_ext);
    let (bx, by) = boundary_index(x, y, w, h);
    assert(cell(p, w, bx, by) == separated_pixel(m, w, h, bx, by));
}

/// Reconstructs an RGB image from a mosaic, one pass after the other.
pub fn demosaic(img: &GrayImage) -> (r: RgbImage)
    requires
        demosaic_size(gray_width(*img) as int, gray_height(*img) as int),
    ensures
        rgb_width(r) == gray_width(*img),
        rgb_height(r) == gray_height(*img),
        is_demosaic_of(rgb_pixels(r), gray_pixels(*img), gray_width(*img) as int, gray_height(*img) as int),
{
    let (width, height) = img.dimensions();
    let ghost m = gray_pixels(*img);
    let ghost (w, h) = (width as int, height as int);
    let separate = |x: u32, y: u32| -> (p: Rgb8)
        requires
            x < width && y < height,
        ensures
            p == separated_pixel(gray_pixels(*img), w, h, x as int, y as int),
    {
        separate_at(img, width, height, x, y)
    };
    let sep = RgbImage::from_fn(width, height, separate);
    assert(is_separation_of(rgb_pixels(sep), m, w, h)) by {
        assert forall|x: int, y: int| 0 <= x < w && 0 <= y < h implies #[trigger] cell(rgb_pixels(sep), w, x, y) == separated_pixel(m, w, h, x, y) by {
            assert(x as u32 as int == x && y as u32 as int == y);
            assert(separate.ensures((x as u32, y as u32), cell(rgb_pixels(sep), w, x, y)));
        }
    }
    let mosaic: Ghost<Seq<u8>> = Ghost(m);
    let reconstruct = |x: u32, y: u32| -> (p: Rgb8)
        requires
            x < width && y < height,
        ensures
            p == demosaiced_pixel(gray_pixels(*img), w, h, x as int, y as int),
    {
        reconstruct_at(&sep, mosaic, width, height, x, y)
    };
    let out = RgbImage::from_fn(width, height, reconstruct);
    assert forall|x: int, y: int| 0 <= x < w && 0 <= y < h implies #[trigger] cell(rgb_pixels(out), w, x, y) == demosaiced_pixel(m, w, h, x, y) by {
        assert(x as u32 as int == x && y as u32 as int == y);
        assert(reconstruct.ensures((x as u32, y as u32), cell(rgb_pixels(out), w, x, y)));
    }
    out
}

/// Reconstructs an RGB image from a mosaic with each pass run as a parallel
/// map over the pixels; the second pass starts once the first has written
/// every pixel, and the result equals that of `demosaic`.
pub fn demosaic_rayon(img: &GrayImage) -> (r: RgbImage)
    requires
        demosaic_size(gray_width(*img) as int, gray_height(*img) as int),
    ensures
        rgb_width(r) == gray_width(*img),
        rgb_height(r) == gray_height(*img),
        is_demosaic_of(rgb_pixels(r), gray_pixels(*img), gray_width(*img) as int, gray_height(*img) as int),
{
    let (width, height) = img.dimensions();
    let ghost m = gray_pixels(*img);
    let ghost (w, h) = (width as int, height as int);
    let separate = |x: u32, y: u32| -> (p: Rgb8)
        requires
            x < width && y < height,
        ensures
            p == separated_pixel(gray_pixels(*img), w, h, x as int, y as int),
    {
        separate_at(img, width, height, x, y)
    };
    let sep = RgbImage::from_par_fn(width, height, separate);
    assert(is_separation_of(rgb_pixels(sep), m, w, h)) by {
        assert forall|x: int, y: int| 0 <= x < w && 0 <= y < h implies #[trigger] cell(rgb_pixels(sep), w, x, y) == separated_pixel(m, w, h, x, y) by {
            assert(x as u32 as int == x && y as u32 as int == y);
            assert(separate.ensures((x as u32, y as u32), cell(rgb_pixels(sep), w, x, y)));
        }
    }
    let mosaic: Ghost<Seq<u8>> = Ghost(m);
    let reconstruct = |x: u32, y: u32| -> (p: Rgb8)
        requires
            x < width && y < height,
        ensures
            p == demosaiced_pixel(gray_pixels(*img), w, h, x as int, y as int),
    {
        reconstruct_at(&sep, mosaic, width, height, x, y)
    };
    let out = RgbImage::from_par_fn(width, height, reconstruct);
    assert forall|x: int, y: int| 0 <= x < w && 0 <= y < h implies #[trigger] cell(rgb_pixels(out), w, x, y) == demosaiced_pixel(m, w, h, x, y) by {
        assert(x as u32 as int == x && y as u32 as int == y);
        assert(reconstruct.ensures((x as u32, y as u32), cell(rgb_pixels(out), w, x, y)));
    }
    out
}

} // verus!
