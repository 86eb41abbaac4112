use rasterizer::encode::to_image;
use rasterizer::fixed::Fixed;
use rasterizer::pixel::LinearRgba;

fn fx(num: i64, den: i64) -> Fixed {
    Fixed::from_raw(num * (1i64 << 32) / den)
}

fn gray(num: i64, den: i64) -> LinearRgba {
    LinearRgba::new(fx(num, den), fx(num, den), fx(num, den), fx(1, 1))
}

#[test]
fn image_holds_the_bytes_of_the_pixels() {
    let pixels = vec![
        LinearRgba::new(fx(1, 1), fx(0, 1), fx(1, 2), fx(1, 4)),
        gray(1, 1),
        gray(0, 1),
        gray(1, 2),
        gray(1, 4),
        gray(3, 4),
    ];
    let img = to_image(3, 2, &pixels).unwrap().buffer;
    assert_eq!((img.width(), img.height()), (3, 2));
    assert_eq!(
        img.as_raw(),
        &vec![
            255, 0, 127, 63, 255, 255, 255, 255, 0, 0, 0, 255, 127, 127, 127, 255, 63, 63, 63,
            255, 191, 191, 191, 255
        ]
    );
    assert_eq!(img.get_pixel(0, 0).0, [255, 0, 127, 63]);
    assert_eq!(img.get_pixel(2, 0).0, [0, 0, 0, 255]);
    assert_eq!(img.get_pixel(0, 1).0, [127, 127, 127, 255]);
    assert_eq!(img.get_pixel(2, 1).0, [191, 191, 191, 255]);

    let tall = to_image(2, 3, &pixels).unwrap().buffer;
    assert_eq!((tall.width(), tall.height()), (2, 3));
    assert_eq!(tall.get_pixel(0, 1).0, [0, 0, 0, 255]);
}

#[test]
fn image_needs_a_color_for_every_pixel() {
    let pixels = vec![gray(1, 1); 5];
    assert!(to_image(3, 2, &pixels).is_none());
    assert!(to_image(1, 6, &pixels).is_none());
    assert!(to_image(u32::MAX, u32::MAX, &pixels).is_none());
    assert!(to_image(5, 1, &pixels).is_some());
    assert!(to_image(2, 2, &pixels).is_some());
    let empty = to_image(0, 7, &Vec::new()).unwrap().buffer;
    assert_eq!((empty.width(), empty.height()), (0, 7));
    assert!(empty.as_raw().is_empty());
}
