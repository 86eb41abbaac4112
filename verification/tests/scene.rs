use rasterizer::color::Color;
use rasterizer::depth_image::DepthImage;
use rasterizer::fixed::Fixed;
use rasterizer::matrix::Matrix;
use rasterizer::pixel::LinearRgba;
use rasterizer::position::Position;
use rasterizer::scene::{
    draw_arrays_points, draw_arrays_triangles, draw_elements_triangles, read_colors,
    read_pointsizes, read_positions, read_texcoords, InvalidSize,
};

fn fx(num: i64, den: i64) -> Fixed {
    Fixed::from_raw(num * (1i64 << 32) / den)
}

fn whole(n: i64) -> Fixed {
    fx(n, 1)
}

fn numbers(values: &[i64]) -> Vec<Fixed> {
    values.iter().map(|&v| whole(v)).collect()
}

fn halves(values: &[i64]) -> Vec<Fixed> {
    values.iter().map(|&v| fx(v, 2)).collect()
}

fn opaque(r: i64, g: i64, b: i64) -> LinearRgba {
    LinearRgba::new(whole(r), whole(g), whole(b), whole(1))
}

/// The pixels of a 2x2 framebuffer, row by row.
fn pixels(img: &DepthImage) -> Vec<LinearRgba> {
    img.resolve()
}

fn quarters(values: &[i64]) -> Vec<Fixed> {
    values.iter().map(|&v| fx(v, 4)).collect()
}

/// The positions of two triangles: one over the pixel (0, 0) and one over
/// the pixel (1, 1) of a 2x2 viewport. In pixels their corners are
/// (-1/2, -1/2), (3/4, -1/2), (-1/2, 3/4) and the same moved by (1, 1).
fn two_corners() -> Vec<Position> {
    read_positions(&quarters(&[8, -6, -6, -1, -6, -6, -1, -2, -2, 3, -2, -2, 3])).unwrap()
}

#[test]
fn positions_come_in_groups_of_the_announced_size() {
    let got = read_positions(&numbers(&[2, 10, 11, 20, 21, 30])).unwrap();
    assert_eq!(got.len(), 2);
    assert_eq!(got[0], Position::new(vec![whole(10), whole(11)]));
    assert_eq!(got[1], Position::new(vec![whole(20), whole(21)]));
    let got = read_positions(&numbers(&[1, 5, 6, 7])).unwrap();
    assert_eq!(got.len(), 3);
    assert_eq!(got[2], Position::new(vec![whole(7)]));
    let got = read_positions(&numbers(&[4, 1, 2, 3, 4, 5, 6, 7])).unwrap();
    assert_eq!(got, vec![Position::new(numbers(&[1, 2, 3, 4]))]);
    assert_eq!(read_positions(&numbers(&[3, 1, 2])).unwrap(), Vec::new());
    assert_eq!(read_positions(&numbers(&[4, 1])).unwrap(), Vec::new());
    assert_eq!(read_positions(&numbers(&[1])).unwrap(), Vec::new());
    // The size is the integer part of the first number.
    let got = read_positions(&vec![fx(5, 2), whole(1), whole(2)]).unwrap();
    assert_eq!(got, vec![Position::new(numbers(&[1, 2]))]);
}

#[test]
fn positions_have_one_to_four_coordinates() {
    assert_eq!(read_positions(&numbers(&[0, 1, 2])), Err(InvalidSize));
    assert_eq!(read_positions(&numbers(&[-1, 1, 2])), Err(InvalidSize));
    assert_eq!(read_positions(&numbers(&[5, 1, 2, 3, 4, 5])), Err(InvalidSize));
    assert_eq!(read_positions(&vec![fx(1, 2), whole(1)]), Err(InvalidSize));
}

#[test]
fn colors_have_three_or_four_channels() {
    let got = read_colors(&numbers(&[3, 1, 2, 3, 4, 5, 6, 7])).unwrap();
    assert_eq!(got, vec![Color::new(numbers(&[1, 2, 3])), Color::new(numbers(&[4, 5, 6]))]);
    assert_eq!(got[0].a, whole(1));
    let got = read_colors(&numbers(&[4, 1, 2, 3, 0])).unwrap();
    assert_eq!(got, vec![Color::new(numbers(&[1, 2, 3, 0]))]);
    assert_eq!(got[0].a, whole(0));
    assert_eq!(read_colors(&numbers(&[2, 1, 2])), Err(InvalidSize));
    assert_eq!(read_colors(&numbers(&[5, 1, 2, 3, 4, 5])), Err(InvalidSize));
    assert_eq!(read_colors(&numbers(&[0])), Err(InvalidSize));
}

#[test]
fn texture_coordinates_come_in_pairs() {
    let got = read_texcoords(&numbers(&[2, 1, 2, 3, 4, 5])).unwrap();
    assert_eq!(got, vec![[whole(1), whole(2)], [whole(3), whole(4)]]);
    assert_eq!(read_texcoords(&numbers(&[2, 1])).unwrap(), Vec::<[Fixed; 2]>::new());
    assert_eq!(read_texcoords(&numbers(&[2])).unwrap(), Vec::<[Fixed; 2]>::new());
    assert_eq!(read_texcoords(&numbers(&[3, 1, 2, 3])), Err(InvalidSize));
    assert_eq!(read_texcoords(&numbers(&[1, 1])), Err(InvalidSize));
}

#[test]
fn point_sizes_come_one_by_one() {
    assert_eq!(read_pointsizes(&numbers(&[1, 4, 5, 6])).unwrap(), numbers(&[4, 5, 6]));
    assert_eq!(read_pointsizes(&numbers(&[1])).unwrap(), Vec::new());
    assert_eq!(read_pointsizes(&numbers(&[2, 4, 5])), Err(InvalidSize));
    assert_eq!(read_pointsizes(&numbers(&[0, 4, 5])), Err(InvalidSize));
}

#[test]
fn array_draw_takes_consecutive_vertices() {
    let positions = two_corners();
    let red = Color::new(numbers(&[1, 0, 0]));
    let green = Color::new(numbers(&[0, 1, 0]));
    let colors = vec![red, red, red, green, green, green];
    let id = Matrix::identity();
    let mut img = DepthImage::allocate(2, 2, 1).unwrap();
    draw_arrays_triangles(
        &mut img, &positions, &colors, &Vec::new(), 0, 6, &id, &None, false, false, false, false,
    );
    assert_eq!(pixels(&img), vec![opaque(1, 0, 0), LinearRgba::clear(), LinearRgba::clear(), opaque(0, 1, 0)]);

    // A count that is no multiple of three leaves the rest out.
    let mut img = DepthImage::allocate(2, 2, 1).unwrap();
    draw_arrays_triangles(
        &mut img, &positions, &colors, &Vec::new(), 0, 5, &id, &None, false, false, false, false,
    );
    assert_eq!(pixels(&img), vec![opaque(1, 0, 0), LinearRgba::clear(), LinearRgba::clear(), LinearRgba::clear()]);

    let mut img = DepthImage::allocate(2, 2, 1).unwrap();
    draw_arrays_triangles(
        &mut img, &positions, &colors, &Vec::new(), 3, 3, &id, &None, false, false, false, false,
    );
    assert_eq!(pixels(&img), vec![LinearRgba::clear(), LinearRgba::clear(), LinearRgba::clear(), opaque(0, 1, 0)]);

    // Fewer than three vertices make no triangle.
    let mut img = DepthImage::allocate(2, 2, 1).unwrap();
    draw_arrays_triangles(
        &mut img, &positions, &colors, &Vec::new(), 0, 2, &id, &None, false, false, false, false,
    );
    assert_eq!(pixels(&img), vec![LinearRgba::clear(); 4]);
}

#[test]
fn element_draw_takes_the_named_vertices() {
    let positions = two_corners();
    let red = Color::new(numbers(&[1, 0, 0]));
    let green = Color::new(numbers(&[0, 1, 0]));
    let colors = vec![red, red, red, green, green, green];
    let elements = vec![9, 5, 4, 3, 2, 1, 0];
    let id = Matrix::identity();
    let mut img = DepthImage::allocate(2, 2, 1).unwrap();
    draw_elements_triangles(
        &mut img, &positions, &colors, &Vec::new(), &elements, 6, 1, &id, &None, false, false,
        false, false,
    );
    assert_eq!(pixels(&img), vec![opaque(1, 0, 0), LinearRgba::clear(), LinearRgba::clear(), opaque(0, 1, 0)]);

    let mut img = DepthImage::allocate(2, 2, 1).unwrap();
    draw_elements_triangles(
        &mut img, &positions, &colors, &Vec::new(), &elements, 4, 4, &id, &None, false, false,
        false, false,
    );
    assert_eq!(pixels(&img), vec![opaque(1, 0, 0), LinearRgba::clear(), LinearRgba::clear(), LinearRgba::clear()]);
}

#[test]
fn element_draw_hands_colors_to_the_first_vertices() {
    let positions = two_corners();
    let blue = Color::new(numbers(&[0, 0, 1]));
    // Only the vertices 0 and 1 have a colour. Named in the order 2, 1, 0,
    // the two colours go to the first two vertices of the triangle and the
    // third is left with no opacity.
    let colors = vec![blue, blue];
    let elements = vec![2, 1, 0];
    let mut img = DepthImage::allocate(2, 2, 1).unwrap();
    draw_elements_triangles(
        &mut img, &positions, &colors, &Vec::new(), &elements, 3, 0, &Matrix::identity(), &None,
        false, false, false, false,
    );
    // The sample of the pixel (0, 0) lies 2/5 of the way from the last
    // vertex of the triangle to each of the others, so it has 2/5 of each
    // of the two blue vertices: blue and opacity are both 4/5.
    let got = img.get_pixel(0, 0);
    assert!((got.a.raw - fx(4, 5).raw).abs() <= 16);
    assert!((got.b.raw - fx(4, 5).raw).abs() <= 16);
    assert_eq!(got.r, whole(0));
    assert_eq!(got.g, whole(0));
}

#[test]
fn point_draw_takes_size_and_color_from_the_buffers() {
    let positions = read_positions(&halves(&[4, -1, -1, 0, 2, 1, 1, 0, 2])).unwrap();
    let colors = vec![Color::new(numbers(&[1, 0, 0]))];
    let sizes = numbers(&[1, 1]);
    let id = Matrix::identity();
    let mut img = DepthImage::allocate(4, 4, 1).unwrap();
    draw_arrays_points(&mut img, &positions, &colors, &sizes, 0, 2, &id, &None, false, false);
    let image = img.resolve();
    for y in 0..4usize {
        for x in 0..4usize {
            // The first sprite spans [0.5, 1.5) around (1, 1): the pixel
            // (1, 1). The second has no colour, so it draws no opacity over
            // the pixel (3, 3), which stays transparent.
            let expected = if (x, y) == (1, 1) { opaque(1, 0, 0) } else { LinearRgba::clear() };
            assert_eq!(image[4 * y + x], expected);
        }
    }
    let mut none = DepthImage::allocate(4, 4, 1).unwrap();
    draw_arrays_points(&mut none, &positions, &colors, &sizes, 1, 0, &id, &None, false, false);
    assert_eq!(none.resolve(), vec![LinearRgba::clear(); 16]);
}
