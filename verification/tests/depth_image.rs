use rasterizer::depth_image::{quantize, DepthImage};
use rasterizer::fixed::Fixed;
use rasterizer::pixel::LinearRgba;

fn fx(num: i64, den: i64) -> Fixed {
    Fixed::from_raw(num * (1i64 << 32) / den)
}

fn px(r: Fixed, g: Fixed, b: Fixed, a: Fixed) -> LinearRgba {
    LinearRgba::new(r, g, b, a)
}

#[test]
fn default_framebuffer_is_empty() {
    let img = DepthImage::default();
    assert_eq!(img.width(), 0);
    assert_eq!(img.height(), 0);
    assert!(img.resolve().is_empty());
}

#[test]
fn allocation_needs_a_subsample_and_room() {
    assert!(DepthImage::allocate(3, 2, 0).is_none());
    assert!(!DepthImage::fits(3, 2, 0));
    assert!(DepthImage::allocate(u32::MAX, 1, 2).is_none());
    assert!(DepthImage::allocate(1, u32::MAX, 2).is_none());
    assert!(DepthImage::fits(u32::MAX, 0, 1));
    assert!(DepthImage::fits(0, 0, u32::MAX));
    assert!(!DepthImage::fits(1 << 16, 1 << 16, 1 << 16));
    let img = DepthImage::allocate(3, 2, 4).unwrap();
    assert_eq!(img.width(), 12);
    assert_eq!(img.height(), 8);
    let empty = DepthImage::allocate(0, 5, 8).unwrap();
    assert_eq!(empty.width(), 0);
    assert_eq!(empty.height(), 40);
    assert!(empty.resolve().is_empty());
}

#[test]
fn fresh_cells_are_transparent_and_without_depth() {
    let img = DepthImage::allocate(3, 2, 2).unwrap();
    for y in 0..4 {
        for x in 0..6 {
            assert_eq!(img.get_pixel(x, y), LinearRgba::clear());
            assert_eq!(img.depth(x, y), None);
        }
    }
    assert_eq!(img.resolve(), vec![LinearRgba::clear(); 6]);
}

#[test]
fn writes_reach_one_cell() {
    let mut img = DepthImage::allocate(3, 2, 1).unwrap();
    let c = px(fx(1, 2), fx(1, 4), fx(1, 8), fx(1, 1));
    img.put_pixel(2, 1, c, Some(fx(3, 1)));
    for y in 0..2 {
        for x in 0..3 {
            let here = x == 2 && y == 1;
            assert_eq!(img.get_pixel(x, y), if here { c } else { LinearRgba::clear() });
            assert_eq!(img.depth(x, y), if here { Some(fx(3, 1)) } else { None });
        }
    }
    // A write without a depth keeps the depth that is stored.
    let d = px(fx(1, 1), fx(1, 1), fx(1, 1), fx(1, 2));
    img.put_pixel(2, 1, d, None);
    assert_eq!(img.get_pixel(2, 1), d);
    assert_eq!(img.depth(2, 1), Some(fx(3, 1)));
    img.put_pixel(2, 1, d, Some(fx(-1, 1)));
    assert_eq!(img.depth(2, 1), Some(fx(-1, 1)));
}

#[test]
fn resolve_without_supersampling_is_the_identity() {
    let mut img = DepthImage::allocate(2, 2, 1).unwrap();
    let a = px(fx(1, 3), fx(2, 3), fx(1, 7), fx(5, 7));
    let b = px(fx(1, 1), fx(0, 1), fx(1, 1), fx(0, 1));
    img.put_pixel(1, 0, a, None);
    img.put_pixel(0, 1, b, Some(fx(1, 1)));
    assert_eq!(img.resolve(), vec![LinearRgba::clear(), a, b, LinearRgba::clear()]);
}

#[test]
fn resolve_averages_color_over_drawn_subsamples_and_opacity_over_all() {
    let mut img = DepthImage::allocate(2, 1, 2).unwrap();
    // LinearRgba 0: two of four subsamples drawn.
    img.put_pixel(0, 0, px(fx(1, 1), fx(0, 1), fx(1, 2), fx(1, 1)), None);
    img.put_pixel(1, 1, px(fx(0, 1), fx(1, 2), fx(1, 2), fx(1, 2)), None);
    // LinearRgba 1: all four subsamples drawn.
    img.put_pixel(2, 0, px(fx(1, 1), fx(1, 1), fx(1, 1), fx(1, 1)), None);
    img.put_pixel(3, 0, px(fx(0, 1), fx(0, 1), fx(0, 1), fx(1, 1)), None);
    img.put_pixel(2, 1, px(fx(0, 1), fx(0, 1), fx(0, 1), fx(1, 1)), None);
    img.put_pixel(3, 1, px(fx(0, 1), fx(0, 1), fx(0, 1), fx(0, 1)), None);
    let image = img.resolve();
    assert_eq!(
        image,
        vec![
            px(fx(1, 2), fx(1, 4), fx(1, 2), fx(3, 8)),
            px(fx(1, 4), fx(1, 4), fx(1, 4), fx(3, 4)),
        ]
    );
    assert_eq!(quantize(&image), vec![127, 63, 127, 95, 63, 63, 63, 191]);
}

#[test]
fn resolve_reads_the_subsamples_of_each_pixel() {
    let mut img = DepthImage::allocate(2, 2, 2).unwrap();
    // One opaque subsample in each pixel, each with its own red.
    img.put_pixel(1, 0, px(fx(1, 8), fx(0, 1), fx(0, 1), fx(1, 1)), None);
    img.put_pixel(2, 1, px(fx(2, 8), fx(0, 1), fx(0, 1), fx(1, 1)), None);
    img.put_pixel(0, 3, px(fx(3, 8), fx(0, 1), fx(0, 1), fx(1, 1)), None);
    img.put_pixel(3, 2, px(fx(4, 8), fx(0, 1), fx(0, 1), fx(1, 1)), None);
    let image = img.resolve();
    let quarter = fx(1, 4);
    assert_eq!(
        image,
        vec![
            px(fx(1, 8), fx(0, 1), fx(0, 1), quarter),
            px(fx(2, 8), fx(0, 1), fx(0, 1), quarter),
            px(fx(3, 8), fx(0, 1), fx(0, 1), quarter),
            px(fx(4, 8), fx(0, 1), fx(0, 1), quarter),
        ]
    );
}

#[test]
fn bytes_come_channel_by_channel() {
    let pixels = vec![
        px(fx(0, 1), fx(1, 2), fx(1, 1), fx(2, 1)),
        px(fx(-1, 1), fx(1, 255), fx(254, 255), fx(1, 4)),
    ];
    assert_eq!(quantize(&pixels), vec![0, 127, 255, 255, 0, 0, 253, 63]);
    assert_eq!(quantize(&Vec::new()), Vec::<u8>::new());
}
