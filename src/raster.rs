//! Image buffers backed by the `image` crate, described to the verifier by a
//! row-major model of their pixels.
use vstd::prelude::*;

verus! {

/// An RGB pixel as plain values: (red, green, blue).
pub type Rgb8 = (u8, u8, u8);

/// A single-channel 8-bit image (a mosaic, or any grey image).
#[verifier::external_body]
pub struct GrayImage {
    buf: image::GrayImage,
}

/// A three-channel 8-bit RGB image.
#[verifier::external_body]
pub struct RgbImage {
    buf: image::RgbImage,
}

/// Width of a single-channel image.
pub uninterp spec fn gray_width(img: GrayImage) -> nat;

/// Height of a single-channel image.
pub uninterp spec fn gray_height(img: GrayImage) -> nat;

/// The samples of a single-channel image, one per pixel, in row-major order.
pub uninterp spec fn gray_pixels(img: GrayImage) -> Seq<u8>;

/// Width of an RGB image.
pub uninterp spec fn rgb_width(img: RgbImage) -> nat;

/// Height of an RGB image.
pub uninterp spec fn rgb_height(img: RgbImage) -> nat;

/// The pixels of an RGB image, one triple per pixel, in row-major order.
pub uninterp spec fn rgb_pixels(img: RgbImage) -> Seq<Rgb8>;

/// The value at column `x`, row `y` of a row-major grid of width `w`.
pub open spec fn cell<T>(s: Seq<T>, w: int, x: int, y: int) -> T {
    s[y * w + x]
}

/// A cell of a `w` by `h` grid lies inside its row-major sequence.
pub proof fn lemma_cell_index_bounds(w: int, h: int, x: int, y: int)
    requires
        0 <= x < w,
        0 <= y < h,
    ensures
        0 <= y * w + x < w * h,
{
    assert(0 <= y * w + x < w * h) by (nonlinear_arith)
        requires
            0 <= x < w,
            0 <= y < h,
    ;
}

/// Row-major order: earlier rows, then earlier columns, come first.
pub proof fn lemma_cell_index_order(w: int, x1: int, y1: int, x2: int, y2: int)
    requires
        0 <= x1 < w,
        0 <= x2 < w,
        0 <= y1,
        0 <= y2,
        y1 < y2 || (y1 == y2 && x1 < x2),
    ensures
        y1 * w + x1 < y2 * w + x2,
{
    if y1 < y2 {
        assert(y1 * w + w <= y2 * w) by (nonlinear_arith)
            requires
                y1 < y2,
                0 <= w,
        ;
    }
}

/// The pixel encoded by three consecutive samples starting at `3 * i`.
pub open spec fn triple_at(s: Seq<u8>, i: int) -> Rgb8 {
    (s[3 * i], s[3 * i + 1], s[3 * i + 2])
}

/// Relies on `ImageBuffer::from_vec` (through `from_raw`): `Some` exactly when
/// the buffer holds at least `width * height` samples; the image then reads
/// its pixels from the front of the buffer in row-major order.
#[verifier::external_body]
fn gray_from_vec(width: u32, height: u32, data: Vec<u8>) -> (r: Option<GrayImage>)
    ensures
        r.is_some() <==> width * height <= data@.len(),
        r.is_some() ==> gray_width(r.unwrap()) == width && gray_height(r.unwrap()) == height
            && gray_pixels(r.unwrap()) == data@.take(width * height),
{
    image::GrayImage::from_vec(width, height, data).map(|buf| GrayImage { buf })
}

/// Relies on `ImageBuffer::dimensions`, which returns the stored width and
/// height; every constructor checks that the sample count fits in `usize`.
#[verifier::external_body]
fn gray_dimensions(img: &GrayImage) -> (r: (u32, u32))
    ensures
        r.0 == gray_width(*img),
        r.1 == gray_height(*img),
        gray_pixels(*img).len() == r.0 * r.1,
        r.0 * r.1 <= usize::MAX,
{
    img.buf.dimensions()
}

/// Relies on `ImageBuffer::get_pixel`, which reads the sample at `(x, y)` and
/// panics outside the image.
#[verifier::external_body]
fn gray_get_pixel(img: &GrayImage, x: u32, y: u32) -> (r: u8)
    requires
        x < gray_width(*img),
        y < gray_height(*img),
    ensures
        r == cell(gray_pixels(*img), gray_width(*img) as int, x as int, y as int),
{
    img.buf.get_pixel(x, y).0[0]
}

/// Relies on `ImageBuffer::into_raw`: the buffer starts with the image's samples.
#[verifier::external_body]
fn gray_into_raw(img: GrayImage) -> (r: Vec<u8>)
    ensures
        gray_pixels(img).len() <= r@.len(),
        r@.take(gray_pixels(img).len() as int) == gray_pixels(img),
{
    img.buf.into_raw()
}

/// Relies on `ImageBuffer::new`: every sample is zero; it panics when the
/// buffer length overflows `usize`.
#[verifier::external_body]
fn rgb_new(width: u32, height: u32) -> (r: RgbImage)
    requires
        3 * width * height <= usize::MAX,
    ensures
        rgb_width(r) == width,
        rgb_height(r) == height,
        rgb_pixels(r) == Seq::new((width * height) as nat, |i: int| (0u8, 0u8, 0u8)),
{
    RgbImage { buf: image::RgbImage::new(width, height) }
}

/// Relies on `ImageBuffer::from_vec` (through `from_raw`): `Some` exactly when
/// the buffer holds at least `3 * width * height` samples; pixel `i` is read
/// from samples `3 * i .. 3 * i + 3`.
#[verifier::external_body]
fn rgb_from_vec(width: u32, height: u32, data: Vec<u8>) -> (r: Option<RgbImage>)
    ensures
        r.is_some() <==> 3 * width * height <= data@.len(),
        r.is_some() ==> rgb_width(r.unwrap()) == width && rgb_height(r.unwrap()) == height
            && rgb_pixels(r.unwrap()) == Seq::new(
            (width * height) as nat,
            |i: int| triple_at(data@, i),
        ),
{
    image::RgbImage::from_vec(width, height, data).map(|buf| RgbImage { buf })
}

/// Relies on `ImageBuffer::dimensions`, which returns the stored width and
/// height; every constructor checks that the sample count fits in `usize`.
#[verifier::external_body]
fn rgb_dimensions(img: &RgbImage) -> (r: (u32, u32))
    ensures
        r.0 == rgb_width(*img),
        r.1 == rgb_height(*img),
        rgb_pixels(*img).len() == r.0 * r.1,
        3 * r.0 * r.1 <= usize::MAX,
{
    img.buf.dimensions()
}

/// Relies on `ImageBuffer::get_pixel`, which reads the pixel at `(x, y)` and
/// panics outside the image.
#[verifier::external_body]
fn rgb_get_pixel(img: &RgbImage, x: u32, y: u32) -> (r: Rgb8)
    requires
        x < rgb_width(*img),
        y < rgb_height(*img),
    ensures
        r == cell(rgb_pixels(*img), rgb_width(*img) as int, x as int, y as int),
{
    let [red, green, blue] = img.buf.get_pixel(x, y).0;
    (red, green, blue)
}

/// Relies on `ImageBuffer::put_pixel`, which overwrites the pixel at `(x, y)`
/// and panics outside the image.
#[verifier::external_body]
fn rgb_put_pixel(img: &mut RgbImage, x: u32, y: u32, p: Rgb8)
    requires
        x < rgb_width(*old(img)),
        y < rgb_height(*old(img)),
    ensures
        rgb_width(*final(img)) == rgb_width(*old(img)),
        rgb_height(*final(img)) == rgb_height(*old(img)),
        rgb_pixels(*final(img)) == rgb_pixels(*old(img)).update(
            y * rgb_width(*old(img)) + x,
            p,
        ),
{
    img.buf.put_pixel(x, y, image::Rgb([p.0, p.1, p.2]))
}

/// Relies on `ImageBuffer::from_par_fn`: it allocates a zeroed image and sets
/// each pixel `(x, y)` to `f(x, y)` on rayon's thread pool, returning once
/// every pixel is written; it panics when the buffer length overflows `usize`.
#[verifier::external_body]
fn rgb_from_par_fn<F>(width: u32, height: u32, f: F) -> (r: RgbImage) where
    F: Fn(u32, u32) -> Rgb8 + Send + Sync,

    requires
        3 * width * height <= usize::MAX,
        forall|x: u32, y: u32| x < width && y < height ==> #[trigger] f.requires((x, y)),
    ensures
        rgb_width(r) == width,
        rgb_height(r) == height,
        rgb_pixels(r).len() == width * height,
        forall|x: u32, y: u32|
            x < width && y < height ==> #[trigger] f.ensures(
                (x, y),
                cell(rgb_pixels(r), width as int, x as int, y as int),
            ),
{
    let buf = image::RgbImage::from_par_fn(width, height, |x, y| {
        let (red, green, blue) = f(x, y);
        image::Rgb([red, green, blue])
    });
    RgbImage { buf }
}

/// Relies on `ImageBuffer::into_raw`: the buffer starts with the image's
/// samples, three per pixel.
#[verifier::external_body]
fn rgb_into_raw(img: RgbImage) -> (r: Vec<u8>)
    ensures
        3 * rgb_pixels(img).len() <= r@.len(),
        forall|i: int| 0 <= i < rgb_pixels(img).len() ==> #[trigger] triple_at(r@, i) == rgb_pixels(img)[i],
{
    img.buf.into_raw()
}

impl GrayImage {
    /// Builds an image from its samples in row-major order; `None` when
    /// `data` is shorter than `width * height`.
    pub fn from_vec(width: u32, height: u32, data: Vec<u8>) -> (r: Option<GrayImage>)
        ensures
            r.is_some() <==> width * height <= data@.len(),
            r.is_some() ==> gray_width(r.unwrap()) == width && gray_height(r.unwrap()) == height
                && gray_pixels(r.unwrap()) == data@.take(width * height),
    {
        gray_from_vec(width, height, data)
    }

    /// The width and height of the image.
    pub fn dimensions(&self) -> (r: (u32, u32))
        ensures
            r.0 == gray_width(*self),
            r.1 == gray_height(*self),
            gray_pixels(*self).len() == r.0 * r.1,
            r.0 * r.1 <= usize::MAX,
    {
        gray_dimensions(self)
    }

    /// The sample at column `x`, row `y`.
    pub fn get_pixel(&self, x: u32, y: u32) -> (r: u8)
        requires
            x < gray_width(*self),
            y < gray_height(*self),
        ensures
            r == cell(gray_pixels(*self), gray_width(*self) as int, x as int, y as int),
    {
        gray_get_pixel(self, x, y)
    }

    /// The samples in row-major order, exactly one per pixel.
    pub fn into_vec(self) -> (r: Vec<u8>)
        ensures
            r@ == gray_pixels(self),
    {
        let (w, h) = gray_dimensions(&self);
        let mut raw = gray_into_raw(self);
        let len = raw.len();
        assert(w * h <= len);
        let n = w as usize * h as usize;
        raw.truncate(n);
        raw
    }
}

impl RgbImage {
    /// A black image of the given size.
    pub fn new(width: u32, height: u32) -> (r: RgbImage)
        requires
            3 * width * height <= usize::MAX,
        ensures
            rgb_width(r) == width,
            rgb_height(r) == height,
            rgb_pixels(r) == Seq::new((width * height) as nat, |i: int| (0u8, 0u8, 0u8)),
    {
        rgb_new(width, height)
    }

    /// Builds an image from its samples, three per pixel in row-major order;
    /// `None` when `data` is shorter than `3 * width * height`.
    pub fn from_vec(width: u32, height: u32, data: Vec<u8>) -> (r: Option<RgbImage>)
        ensures
            r.is_some() <==> 3 * width * height <= data@.len(),
            r.is_some() ==> rgb_width(r.unwrap()) == width && rgb_height(r.unwrap()) == height
                && rgb_pixels(r.unwrap()) == Seq::new(
                (width * height) as nat,
                |i: int| triple_at(data@, i),
            ),
    {
        rgb_from_vec(width, height, data)
    }

    /// The width and height of the image.
    pub fn dimensions(&self) -> (r: (u32, u32))
        ensures
            r.0 == rgb_width(*self),
            r.1 == rgb_height(*self),
            rgb_pixels(*self).len() == r.0 * r.1,
            3 * r.0 * r.1 <= usize::MAX,
    {
        rgb_dimensions(self)
    }

    /// The pixel at column `x`, row `y`.
    pub fn get_pixel(&self, x: u32, y: u32) -> (r: Rgb8)
        requires
            x < rgb_width(*self),
            y < rgb_height(*self),
        ensures
            r == cell(rgb_pixels(*self), rgb_width(*self) as int, x as int, y as int),
    {
        rgb_get_pixel(self, x, y)
    }

    /// Overwrites the pixel at column `x`, row `y`.
    pub fn put_pixel(&mut self, x: u32, y: u32, p: Rgb8)
        requires
            x < rgb_width(*old(self)),
            y < rgb_height(*old(self)),
        ensures
            rgb_width(*final(self)) == rgb_width(*old(self)),
            rgb_height(*final(self)) == rgb_height(*old(self)),
            rgb_pixels(*final(self)) == rgb_pixels(*old(self)).update(
                y * rgb_width(*old(self)) + x,
                p,
            ),
    {
        rgb_put_pixel(self, x, y, p)
    }

    /// An image whose pixel at `(x, y)` is `f(x, y)`, filled row by row.
    pub fn from_fn<F: Fn(u32, u32) -> Rgb8>(width: u32, height: u32, f: F) -> (r: RgbImage)
        requires
            3 * width * height <= usize::MAX,
            forall|x: u32, y: u32| x < width && y < height ==> #[trigger] f.requires((x, y)),
        ensures
            rgb_width(r) == width,
            rgb_height(r) == height,
            rgb_pixels(r).len() == width * height,
            forall|x: u32, y: u32|
                x < width && y < height ==> #[trigger] f.ensures(
                    (x, y),
                    cell(rgb_pixels(r), width as int, x as int, y as int),
                ),
    {
        let mut out = RgbImage::new(width, height);
        let ghost w = width as int;
        let mut y: u32 = 0;
        while y < height
            invariant
                y <= height,
                w == width,
                rgb_width(out) == width,
                rgb_height(out) == height,
                rgb_pixels(out).len() == width * height,
                forall|x: u32, y: u32| x < width && y < height ==> #[trigger] f.requires((x, y)),
                forall|xx: int, yy: int|
                    0 <= xx < width && 0 <= yy < y ==> f.ensures(
                        (xx as u32, yy as u32),
                        #[trigger] cell(rgb_pixels(out), w, xx, yy),
                    ),
            decreases height - y,
        {
            let mut x: u32 = 0;
            while x < width
                invariant
                    x <= width,
                    y < height,
                    w == width,
                    rgb_width(out) == width,
                    rgb_height(out) == height,
                    rgb_pixels(out).len() == width * height,
                    forall|x: u32, y: u32| x < width && y < height ==> #[trigger] f.requires((x, y)),
                    forall|xx: int, yy: int|
                        (0 <= xx < width && 0 <= yy < y) || (0 <= xx < x && yy == y) ==> f.ensures(
                            (xx as u32, yy as u32),
                            #[trigger] cell(rgb_pixels(out), w, xx, yy),
                        ),
                decreases width - x,
            {
                let p = f(x, y);
                let ghost before = rgb_pixels(out);
                proof {
                    lemma_cell_index_bounds(w, height as int, x as int, y as int);
                }
                out.put_pixel(x, y, p);
                assert forall|xx: int, yy: int|
                    (0 <= xx < width && 0 <= yy < y) || (0 <= xx < x + 1 && yy == y) implies f.ensures(
                    (xx as u32, yy as u32),
                    #[trigger] cell(rgb_pixels(out), w, xx, yy),
                ) by {
                    if xx == x && yy == y {
                    } else {
                        lemma_cell_index_order(w, xx, yy, x as int, y as int);
                        lemma_cell_index_bounds(w, height as int, xx, yy);
                        assert(cell(rgb_pixels(out), w, xx, yy) == cell(before, w, xx, yy));
                    }
                }
                x = x + 1;
            }
            y = y + 1;
        }
        assert forall|x: u32, y: u32| x < width && y < height implies #[trigger] f.ensures(
            (x, y),
            cell(rgb_pixels(out), w, x as int, y as int),
        ) by {
            assert(f.ensures(
                (x as int as u32, y as int as u32),
                cell(rgb_pixels(out), w, x as int, y as int),
            ));
        }
        out
    }

    /// An image whose pixel at `(x, y)` is `f(x, y)`, computed on rayon's
    /// thread pool; it returns once every pixel has been written.
    pub fn from_par_fn<F: Fn(u32, u32) -> Rgb8 + Send + Sync>(
        width: u32,
        height: u32,
        f: F,
    ) -> (r: RgbImage)
        requires
            3 * width * height <= usize::MAX,
            forall|x: u32, y: u32| x < width && y < height ==> #[trigger] f.requires((x, y)),
        ensures
            rgb_width(r) == width,
            rgb_height(r) == height,
            rgb_pixels(r).len() == width * height,
            forall|x: u32, y: u32|
                x < width && y < height ==> #[trigger] f.ensures(
                    (x, y),
                    cell(rgb_pixels(r), width as int, x as int, y as int),
                ),
    {
        rgb_from_par_fn(width, height, f)
    }

    /// The samples, three per pixel in row-major order.
    pub fn into_vec(self) -> (r: Vec<u8>)
        ensures
            r@.len() == 3 * rgb_pixels(self).len(),
            forall|i: int| 0 <= i < rgb_pixels(self).len() ==> #[trigger] triple_at(r@, i) == rgb_pixels(self)[i],
    {
        let (w, h) = rgb_dimensions(&self);
        let ghost pixels = rgb_pixels(self);
        let mut raw = rgb_into_raw(self);
        let ghost before = raw@;
        let len = raw.len();
        assert(3 * (w * h) <= len);
        let n = 3 * (w as usize * h as usize);
        raw.truncate(n);
        assert forall|i: int| 0 <= i < pixels.len() implies #[trigger] triple_at(raw@, i) == pixels[i] by {
            assert(triple_at(before, i) == pixels[i]);
        }
        raw
    }
}

} // verus!
