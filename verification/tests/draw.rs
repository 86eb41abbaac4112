use rasterizer::depth_image::DepthImage;
use rasterizer::draw::{draw_points, overlay_pixels};
use rasterizer::fixed::Fixed;
use rasterizer::pixel::LinearRgba;
use rasterizer::point::{Point, Points};
use rasterizer::texture::Texture;

fn fx(num: i64, den: i64) -> Fixed {
    Fixed::from_raw(num * (1i64 << 32) / den)
}

fn whole(n: i64) -> Fixed {
    fx(n, 1)
}

fn rgba(r: Fixed, g: Fixed, b: Fixed, a: Fixed) -> LinearRgba {
    LinearRgba::new(r, g, b, a)
}

/// A fragment at `(x, y)` with depth `z`, the colour `color` and the
/// texture coordinates `(s, t)`.
fn fragment(x: Fixed, y: Fixed, z: Fixed, color: LinearRgba, s: Fixed, t: Fixed) -> Point<10> {
    Point::new([x, y, z, whole(1), color.r, color.g, color.b, color.a, s, t])
}

fn list(fragments: Vec<Point<10>>) -> Points<10> {
    Points(fragments)
}

fn red() -> LinearRgba {
    rgba(whole(1), whole(0), whole(0), whole(1))
}

fn half_blue() -> LinearRgba {
    rgba(whole(0), whole(0), whole(1), fx(1, 2))
}

#[test]
fn over_follows_the_formula() {
    let dst = rgba(fx(1, 2), fx(1, 4), whole(1), fx(1, 2));
    let src = rgba(whole(1), fx(1, 2), whole(0), fx(1, 4));
    // a = 1/4 + 1/2 * 3/4 = 5/8
    let a = fx(5, 8);
    // weights: (1/4) / (5/8) = 2/5 and (3/4 * 1/2) / (5/8) = 3/5, rounded down
    let ws = fx(1, 4).div(a);
    let wd = fx(3, 8).div(a);
    assert_eq!(ws, Fixed::from_raw(1717986918));
    assert_eq!(wd, Fixed::from_raw(2576980377));
    let expected = rgba(
        ws.mul(whole(1)).add(wd.mul(fx(1, 2))),
        ws.mul(fx(1, 2)).add(wd.mul(fx(1, 4))),
        ws.mul(whole(0)).add(wd.mul(whole(1))),
        a,
    );
    assert_eq!(overlay_pixels(dst, src), expected);
    // r = 2/5 + 3/10 = 7/10, up to the rounding of the weights
    assert!((expected.r.raw - fx(7, 10).raw).abs() <= 2);
}

#[test]
fn opaque_source_replaces_the_destination() {
    let dst = rgba(fx(1, 2), fx(1, 4), whole(1), fx(1, 2));
    assert_eq!(overlay_pixels(dst, red()), red());
    assert_eq!(overlay_pixels(LinearRgba::clear(), red()), red());
}

#[test]
fn clear_source_keeps_the_destination() {
    let dst = rgba(fx(1, 2), fx(1, 4), whole(1), fx(1, 3));
    let clear_green = rgba(whole(0), whole(1), whole(0), whole(0));
    assert_eq!(overlay_pixels(dst, clear_green), dst);
    assert_eq!(overlay_pixels(dst, LinearRgba::clear()), dst);
}

#[test]
fn nothing_over_nothing_is_transparent() {
    let clear_green = rgba(whole(0), whole(1), whole(0), whole(0));
    let clear_red = rgba(whole(1), whole(0), whole(0), whole(0));
    assert_eq!(overlay_pixels(clear_green, clear_red), LinearRgba::clear());
    assert_eq!(overlay_pixels(LinearRgba::clear(), LinearRgba::clear()), LinearRgba::clear());
}

#[test]
fn regrouping_layers_may_change_the_last_bit() {
    let green = rgba(whole(0), whole(1), whole(0), fx(1, 2));
    let upper_first = overlay_pixels(red(), overlay_pixels(green, half_blue()));
    let lower_first = overlay_pixels(overlay_pixels(red(), green), half_blue());
    assert_eq!(lower_first, rgba(fx(1, 4), fx(1, 4), fx(1, 2), whole(1)));
    assert_eq!(
        upper_first,
        rgba(
            fx(1, 4),
            Fixed::from_raw(fx(1, 4).raw - 1),
            Fixed::from_raw(fx(1, 2).raw - 1),
            whole(1)
        )
    );
    // Opaque layers and layers without opacity regroup exactly.
    let clear = rgba(whole(1), whole(1), whole(1), whole(0));
    for bottom in [red(), green, clear] {
        for (middle, top) in [(red(), clear), (clear, red()), (clear, clear), (red(), red())] {
            assert_eq!(
                overlay_pixels(overlay_pixels(bottom, middle), top),
                overlay_pixels(bottom, overlay_pixels(middle, top))
            );
        }
    }
}

#[test]
fn fragments_are_drawn_in_order() {
    let mut img = DepthImage::allocate(3, 2, 1).unwrap();
    let fragments = list(vec![
        fragment(whole(1), whole(1), whole(0), red(), whole(0), whole(0)),
        fragment(whole(1), whole(1), whole(0), half_blue(), whole(0), whole(0)),
        fragment(whole(2), whole(0), whole(0), half_blue(), whole(0), whole(0)),
    ]);
    draw_points(&mut img, fragments, &None, false, false);
    assert_eq!(img.get_pixel(1, 1), rgba(fx(1, 2), whole(0), fx(1, 2), whole(1)));
    assert_eq!(img.get_pixel(2, 0), half_blue());
    assert_eq!(img.get_pixel(0, 0), LinearRgba::clear());
    assert_eq!(img.depth(1, 1), None);
}

#[test]
fn fragment_positions_are_truncated() {
    let mut img = DepthImage::allocate(3, 2, 1).unwrap();
    let fragments = list(vec![fragment(fx(5, 2), fx(3, 2), whole(0), red(), whole(0), whole(0))]);
    draw_points(&mut img, fragments, &None, false, false);
    assert_eq!(img.get_pixel(2, 1), red());
}

#[test]
fn fragments_outside_are_dropped() {
    let mut img = DepthImage::allocate(3, 2, 1).unwrap();
    let fragments = list(vec![
        fragment(whole(3), whole(0), whole(0), red(), whole(0), whole(0)),
        fragment(whole(0), whole(2), whole(0), red(), whole(0), whole(0)),
        fragment(whole(-1), whole(0), whole(0), red(), whole(0), whole(0)),
        fragment(whole(0), whole(-1), whole(0), red(), whole(0), whole(0)),
        fragment(Fixed::from_raw(-1), whole(0), whole(0), red(), whole(0), whole(0)),
        fragment(Fixed::from_raw(i64::MAX), Fixed::from_raw(i64::MAX), whole(0), red(), whole(0), whole(0)),
    ]);
    draw_points(&mut img, fragments, &None, false, false);
    assert_eq!(img.resolve(), vec![LinearRgba::clear(); 6]);
}

#[test]
fn depth_test_keeps_the_nearest() {
    let mut img = DepthImage::allocate(2, 1, 1).unwrap();
    let blue = rgba(whole(0), whole(0), whole(1), whole(1));
    let green = rgba(whole(0), whole(1), whole(0), whole(1));
    let fragments = list(vec![
        fragment(whole(0), whole(0), fx(1, 2), red(), whole(0), whole(0)),
        fragment(whole(0), whole(0), fx(3, 4), blue, whole(0), whole(0)),
        fragment(whole(0), whole(0), fx(1, 2), blue, whole(0), whole(0)),
        fragment(whole(0), whole(0), fx(1, 4), green, whole(0), whole(0)),
        fragment(whole(1), whole(0), Fixed::from_raw(i64::MAX), blue, whole(0), whole(0)),
    ]);
    draw_points(&mut img, fragments, &None, true, false);
    assert_eq!(img.get_pixel(0, 0), green);
    assert_eq!(img.depth(0, 0), Some(fx(1, 4)));
    // A fresh cell is further away than the largest depth.
    assert_eq!(img.get_pixel(1, 0), blue);
    assert_eq!(img.depth(1, 0), Some(Fixed::from_raw(i64::MAX)));
}

#[test]
fn without_the_depth_test_depths_are_neither_read_nor_written() {
    let mut img = DepthImage::allocate(1, 1, 1).unwrap();
    let blue = rgba(whole(0), whole(0), whole(1), whole(1));
    let near = list(vec![fragment(whole(0), whole(0), whole(0), red(), whole(0), whole(0))]);
    draw_points(&mut img, near, &None, true, false);
    let far = list(vec![fragment(whole(0), whole(0), whole(9), blue, whole(0), whole(0))]);
    draw_points(&mut img, far, &None, false, false);
    assert_eq!(img.get_pixel(0, 0), blue);
    assert_eq!(img.depth(0, 0), Some(whole(0)));
}

#[test]
fn texture_is_looked_up_per_fragment() {
    let texels = vec![
        rgba(whole(0), whole(1), whole(0), whole(1)),
        rgba(whole(1), whole(1), whole(0), fx(1, 2)),
    ];
    let texture = Some(Texture::new(2, 1, texels.clone()).unwrap());
    let mut img = DepthImage::allocate(2, 1, 1).unwrap();
    let fragments = list(vec![
        fragment(whole(0), whole(0), whole(0), red(), fx(1, 4), whole(0)),
        fragment(whole(1), whole(0), whole(0), red(), fx(3, 4), whole(5)),
    ]);
    draw_points(&mut img, fragments, &texture, false, false);
    assert_eq!(img.get_pixel(0, 0), texels[0]);
    assert_eq!(img.get_pixel(1, 0), texels[1]);

    let mut decal = DepthImage::allocate(2, 1, 1).unwrap();
    let fragments = list(vec![
        fragment(whole(0), whole(0), whole(0), red(), fx(1, 4), whole(0)),
        fragment(whole(1), whole(0), whole(0), red(), fx(3, 4), whole(5)),
    ]);
    draw_points(&mut decal, fragments, &texture, false, true);
    assert_eq!(decal.get_pixel(0, 0), texels[0]);
    assert_eq!(decal.get_pixel(1, 0), rgba(whole(1), fx(1, 2), whole(0), whole(1)));
}

#[test]
fn framebuffer_reports_its_shape() {
    let img = DepthImage::allocate(3, 2, 4).unwrap();
    assert_eq!((img.pixel_width(), img.pixel_height(), img.fsaa()), (3, 2, 4));
    assert_eq!((img.width(), img.height()), (12, 8));
}
