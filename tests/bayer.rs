use bayer_mosaic::bayer::{
    cast_rgb_to_bayer_mosaic, demosaic, demosaic_rayon, ext_index_gray, ext_index_rgb,
    separate_at,
};
use bayer_mosaic::cfa::{convert_index, mosaic_channel, Channel};
use bayer_mosaic::chroma::{estimate2, estimate4};
use bayer_mosaic::raster::{GrayImage, RgbImage};

fn rgb_from_pixels(width: u32, height: u32, pixels: &[(u8, u8, u8)]) -> RgbImage {
    let mut raw = Vec::new();
    for &(r, g, b) in pixels {
        raw.push(r);
        raw.push(g);
        raw.push(b);
    }
    RgbImage::from_vec(width, height, raw).expect("buffer fits")
}

fn pixels_of(img: &RgbImage) -> Vec<(u8, u8, u8)> {
    let (w, h) = img.dimensions();
    let mut out = Vec::new();
    for y in 0..h {
        for x in 0..w {
            out.push(img.get_pixel(x, y));
        }
    }
    out
}

fn example_image() -> RgbImage {
    let row = [(10, 20, 30), (40, 50, 60), (70, 80, 90), (100, 110, 120)];
    let mut pixels = Vec::new();
    for _ in 0..4 {
        pixels.extend_from_slice(&row);
    }
    rgb_from_pixels(4, 4, &pixels)
}

struct Lcg(u64);

impl Lcg {
    fn next(&mut self) -> u64 {
        self.0 = self.0.wrapping_mul(6364136223846793005).wrapping_add(1442695040888963407);
        self.0 >> 33
    }
}

#[test]
fn test_index() {
    let img = RgbImage::new(3318, 4161);
    let (w, h) = img.dimensions();
    assert_eq!((w, h), (3318, 4161));
    assert_eq!(ext_index_rgb(&img, w, h, -1, -1), (0, 0, 0));
    assert_eq!(ext_index_rgb(&img, w, h, 30, -1), (0, 0, 0));
    assert_eq!(ext_index_rgb(&img, w, h, -1, 28), (0, 0, 0));
    assert_eq!(ext_index_rgb(&img, w, h, 3318, 100), (0, 0, 0));
    assert_eq!(ext_index_rgb(&img, w, h, 200, 4161), (0, 0, 0));
    assert_eq!(ext_index_rgb(&img, w, h, 3318, 4161), (0, 0, 0));
    assert_eq!(ext_index_rgb(&img, w, h, 50, 60), (0, 0, 0));
    assert_eq!(convert_index(3318, 100, w, h), (3316, 100));
    assert_eq!(convert_index(200, 4161, w, h), (200, 4159));
    assert_eq!(convert_index(3318, 4161, w, h), (3316, 4159));
    assert_eq!(convert_index(50, 60, w, h), (50, 60));
}

#[test]
fn boundary_table_four_by_four() {
    assert_eq!(convert_index(-1, -1, 4, 4), (1, 1));
    assert_eq!(convert_index(4, -1, 4, 4), (2, 1));
    assert_eq!(convert_index(4, 4, 4, 4), (2, 2));
    assert_eq!(convert_index(-1, 4, 4, 4), (1, 2));
    assert_eq!(convert_index(2, -1, 4, 4), (2, 1));
    assert_eq!(convert_index(-1, 2, 4, 4), (1, 2));
}

#[test]
fn boundary_edges_and_interior() {
    assert_eq!(convert_index(2, 4, 4, 4), (2, 2));
    assert_eq!(convert_index(4, 2, 4, 4), (2, 2));
    assert_eq!(convert_index(3, 3, 4, 4), (3, 3));
    assert_eq!(convert_index(0, 0, 2, 2), (0, 0));
    assert_eq!(convert_index(-1, -1, 2, 2), (1, 1));
    assert_eq!(convert_index(2, 2, 2, 2), (0, 0));
    assert_eq!(convert_index(-1, 0, 5, 3), (1, 0));
    assert_eq!(convert_index(5, 1, 5, 3), (3, 1));
}

#[test]
fn mosaic_pattern_table() {
    assert_eq!(mosaic_channel(0, 0), Channel::Green);
    assert_eq!(mosaic_channel(1, 1), Channel::Green);
    assert_eq!(mosaic_channel(1, 0), Channel::Blue);
    assert_eq!(mosaic_channel(0, 1), Channel::Red);
    assert_eq!(mosaic_channel(7, 4), Channel::Blue);
    assert_eq!(mosaic_channel(6, 3), Channel::Red);
}

#[test]
fn mosaic_selects_pattern_channel() {
    let mut rng = Lcg(7);
    let (w, h) = (5u32, 3u32);
    let pixels: Vec<(u8, u8, u8)> = (0..w * h)
        .map(|_| (rng.next() as u8, rng.next() as u8, rng.next() as u8))
        .collect();
    let img = rgb_from_pixels(w, h, &pixels);
    let mosaic = cast_rgb_to_bayer_mosaic(&img);
    assert_eq!(mosaic.dimensions(), (w, h));
    for y in 0..h {
        for x in 0..w {
            let (r, g, b) = pixels[(y * w + x) as usize];
            let expected = match (x % 2, y % 2) {
                (0, 0) | (1, 1) => g,
                (1, 0) => b,
                _ => r,
            };
            assert_eq!(mosaic.get_pixel(x, y), expected);
        }
    }
}

#[test]
fn end_to_end_four_by_four() {
    let img = example_image();
    let mosaic = cast_rgb_to_bayer_mosaic(&img);
    let row_even = [20u8, 60, 80, 120];
    let row_odd = [10u8, 50, 70, 110];
    let mut expected = Vec::new();
    for y in 0..4 {
        expected.extend_from_slice(if y % 2 == 0 { &row_even } else { &row_odd });
    }
    assert_eq!(mosaic.into_vec(), expected);

    let mosaic = cast_rgb_to_bayer_mosaic(&img);
    let rgb = demosaic(&mosaic);
    assert_eq!(rgb.dimensions(), (4, 4));
    let even = [(5, 20, 24), (29, 50, 60), (70, 80, 98), (83, 95, 120)];
    let odd = [(10, 35, 42), (29, 50, 60), (70, 80, 98), (96, 110, 138)];
    for y in 0..4u32 {
        for x in 0..4u32 {
            let want = if y % 2 == 0 { even[x as usize] } else { odd[x as usize] };
            assert_eq!(rgb.get_pixel(x, y), want, "pixel ({}, {})", x, y);
        }
    }
    for (x, y) in [(0u32, 0u32), (1, 1), (2, 2), (3, 3), (2, 0), (1, 3)] {
        assert_eq!(rgb.get_pixel(x, y).1, img.get_pixel(x, y).1);
    }
}

#[test]
fn first_pass_of_example() {
    let mosaic = cast_rgb_to_bayer_mosaic(&example_image());
    assert_eq!(separate_at(&mosaic, 4, 4, 0, 0), (0, 20, 0));
    assert_eq!(separate_at(&mosaic, 4, 4, 1, 0), (0, 50, 60));
    assert_eq!(separate_at(&mosaic, 4, 4, 3, 0), (0, 95, 120));
    assert_eq!(separate_at(&mosaic, 4, 4, 0, 1), (10, 35, 0));
    assert_eq!(separate_at(&mosaic, 4, 4, 2, 3), (70, 80, 0));
    assert_eq!(ext_index_gray(&mosaic, 4, 4, -1, 1), 50);
    assert_eq!(ext_index_gray(&mosaic, 4, 4, 2, 4), 80);
}

#[test]
fn parallel_matches_sequential_on_random_images() {
    let mut rng = Lcg(12345);
    let mut sizes = vec![(2u32, 2u32), (2, 3), (3, 2), (3, 3), (4, 4), (5, 7), (8, 6), (9, 9)];
    while sizes.len() < 60 {
        sizes.push((2 + (rng.next() % 30) as u32, 2 + (rng.next() % 30) as u32));
    }
    for (w, h) in sizes {
        let raw: Vec<u8> = (0..w * h).map(|_| rng.next() as u8).collect();
        let mosaic = GrayImage::from_vec(w, h, raw).expect("buffer fits");
        let seq = demosaic(&mosaic);
        let par = demosaic_rayon(&mosaic);
        assert_eq!(seq.dimensions(), (w, h));
        assert_eq!(par.dimensions(), (w, h));
        assert_eq!(seq.into_vec(), par.into_vec(), "size {}x{}", w, h);
    }
}

#[test]
fn flat_color_round_trip() {
    for &(w, h) in &[(2u32, 2u32), (3, 5), (6, 4), (7, 7)] {
        for &c in &[(200u8, 100u8, 50u8), (1, 255, 254), (0, 0, 0), (255, 255, 255), (13, 7, 250)] {
            let img = rgb_from_pixels(w, h, &vec![c; (w * h) as usize]);
            let mosaic = cast_rgb_to_bayer_mosaic(&img);
            let seq = demosaic(&mosaic);
            let par = demosaic_rayon(&mosaic);
            assert!(pixels_of(&seq).iter().all(|&p| p == c), "{:?} {}x{}", c, w, h);
            assert!(pixels_of(&par).iter().all(|&p| p == c), "{:?} {}x{}", c, w, h);
        }
    }
}

#[test]
fn flat_color_with_zero_green() {
    let img = rgb_from_pixels(4, 4, &vec![(90, 0, 0); 16]);
    let rgb = demosaic(&cast_rgb_to_bayer_mosaic(&img));
    // red / 0 is unbounded and is scaled by a zero green: the estimate is 0
    assert_eq!(rgb.get_pixel(0, 0), (0, 0, 0));
    assert_eq!(rgb.get_pixel(0, 1), (90, 0, 0));
}

#[test]
fn shapes_are_preserved() {
    for &(w, h) in &[(2u32, 2u32), (3, 8), (11, 2), (1, 1), (0, 0)] {
        let img = RgbImage::new(w, h);
        let mosaic = cast_rgb_to_bayer_mosaic(&img);
        assert_eq!(mosaic.dimensions(), (w, h));
        if w >= 2 && h >= 2 {
            assert_eq!(demosaic(&mosaic).dimensions(), (w, h));
            assert_eq!(demosaic_rayon(&mosaic).dimensions(), (w, h));
        }
    }
}

#[test]
fn all_zero_and_saturated_mosaics() {
    let zero = GrayImage::from_vec(3, 3, vec![0; 9]).unwrap();
    assert!(pixels_of(&demosaic(&zero)).iter().all(|&p| p == (0, 0, 0)));
    let full = GrayImage::from_vec(3, 3, vec![255; 9]).unwrap();
    assert!(pixels_of(&demosaic(&full)).iter().all(|&p| p == (255, 255, 255)));
}

#[test]
fn ratio_estimates() {
    assert_eq!(estimate2((60, 50), (120, 95), 80), 98);
    assert_eq!(estimate2((10, 35), (10, 35), 20), 5);
    assert_eq!(estimate2((0, 0), (200, 1), 255), 0);
    assert_eq!(estimate2((5, 0), (200, 1), 3), 255);
    assert_eq!(estimate2((5, 0), (200, 1), 0), 0);
    assert_eq!(estimate2((255, 1), (255, 1), 255), 255);
    assert_eq!(estimate4((10, 35), (70, 80), (10, 35), (70, 80), 50), 29);
    assert_eq!(estimate4((1, 1), (1, 1), (1, 1), (0, 0), 9), 0);
    assert_eq!(estimate4((1, 1), (1, 1), (1, 1), (4, 0), 9), 255);
    assert_eq!(estimate4((255, 1), (255, 1), (255, 1), (255, 1), 255), 255);
    assert_eq!(estimate4((3, 7), (3, 7), (3, 7), (3, 7), 7), 3);
}

#[test]
fn image_buffers_round_trip() {
    assert!(GrayImage::from_vec(3, 2, vec![1, 2, 3, 4, 5]).is_none());
    assert!(RgbImage::from_vec(2, 1, vec![1, 2, 3, 4, 5]).is_none());
    let gray = GrayImage::from_vec(3, 2, vec![1, 2, 3, 4, 5, 6, 7]).unwrap();
    assert_eq!(gray.dimensions(), (3, 2));
    assert_eq!(gray.get_pixel(2, 1), 6);
    assert_eq!(gray.into_vec(), vec![1, 2, 3, 4, 5, 6]);

    let mut rgb = RgbImage::from_vec(2, 1, vec![1, 2, 3, 4, 5, 6]).unwrap();
    assert_eq!(rgb.get_pixel(1, 0), (4, 5, 6));
    rgb.put_pixel(0, 0, (9, 8, 7));
    assert_eq!(rgb.into_vec(), vec![9, 8, 7, 4, 5, 6]);

    let made = RgbImage::from_fn(3, 2, |x, y| (x as u8, y as u8, 7));
    let made_par = RgbImage::from_par_fn(3, 2, |x, y| (x as u8, y as u8, 7));
    assert_eq!(made.get_pixel(2, 1), (2, 1, 7));
    assert_eq!(made.into_vec(), made_par.into_vec());
}

#[test]
fn sampled_channel_survives_demosaicing() {
    let mut rng = Lcg(99);
    for &(w, h) in &[(2u32, 2u32), (5, 4), (7, 9)] {
        let pixels: Vec<(u8, u8, u8)> = (0..w * h)
            .map(|_| (rng.next() as u8, rng.next() as u8, rng.next() as u8))
            .collect();
        let img = rgb_from_pixels(w, h, &pixels);
        let rgb = demosaic(&cast_rgb_to_bayer_mosaic(&img));
        for y in 0..h {
            for x in 0..w {
                let (got, orig) = (rgb.get_pixel(x, y), img.get_pixel(x, y));
                match mosaic_channel(x, y) {
                    Channel::Red => assert_eq!(got.0, orig.0),
                    Channel::Green => assert_eq!(got.1, orig.1),
                    Channel::Blue => assert_eq!(got.2, orig.2),
                }
            }
        }
    }
}
