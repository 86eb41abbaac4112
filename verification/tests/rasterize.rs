use rasterizer::fixed::Fixed;
use rasterizer::point::Point;
use rasterizer::rasterize::{dda_full, dda_setup, square, triangle};

fn fx(num: i64, den: i64) -> Fixed {
    Fixed::from_raw(num * (1i64 << 32) / den)
}

fn whole(n: i64) -> Fixed {
    fx(n, 1)
}

/// A vertex with a position and one attribute.
fn vertex3(x: Fixed, y: Fixed, c: Fixed) -> Point<3> {
    Point::new([x, y, c])
}

fn positions<const DIM: usize>(samples: &[Point<DIM>]) -> Vec<(i64, i64)> {
    samples
        .iter()
        .map(|p| {
            assert_eq!(p.index(0).raw % (1i64 << 32), 0);
            assert_eq!(p.index(1).raw % (1i64 << 32), 0);
            (p.index(0).raw >> 32, p.index(1).raw >> 32)
        })
        .collect()
}

#[test]
fn setup_seeds_on_the_first_whole_value() {
    let mut a = vertex3(fx(1, 2), whole(0), whole(10));
    let mut b = vertex3(fx(5, 2), whole(4), whole(30));
    let (seed, step) = dda_setup(&mut a, &mut b, 0);
    // Per unit of x: y grows by 2, the attribute by 10.
    assert_eq!(step.data, [whole(1), whole(2), whole(10)]);
    // From x = 1/2 to x = 1.
    assert_eq!(seed.data, [whole(1), whole(1), whole(15)]);
    assert_eq!(a.data, [fx(1, 2), whole(0), whole(10)]);
    assert_eq!(b.data, [fx(5, 2), whole(4), whole(30)]);
}

#[test]
fn setup_orders_the_ends() {
    let mut a = vertex3(fx(5, 2), whole(4), whole(30));
    let mut b = vertex3(fx(1, 2), whole(0), whole(10));
    let (seed, step) = dda_setup(&mut a, &mut b, 0);
    assert_eq!(step.data, [whole(1), whole(2), whole(10)]);
    assert_eq!(seed.data, [whole(1), whole(1), whole(15)]);
    assert_eq!(a.data, [fx(1, 2), whole(0), whole(10)]);
    assert_eq!(b.data, [fx(5, 2), whole(4), whole(30)]);
}

#[test]
fn setup_of_a_flat_edge_does_not_move() {
    let mut a = vertex3(whole(7), fx(1, 2), whole(1));
    let mut b = vertex3(whole(9), fx(1, 2), whole(2));
    let (seed, step) = dda_setup(&mut a, &mut b, 1);
    assert_eq!(seed.data, a.data);
    assert_eq!(step.data, [whole(0), whole(0), whole(0)]);
    assert_eq!(b.data, [whole(9), fx(1, 2), whole(2)]);
}

#[test]
fn setup_on_a_whole_value_starts_there() {
    let mut a = vertex3(whole(-2), whole(0), whole(0));
    let mut b = vertex3(whole(2), whole(0), whole(8));
    let (seed, step) = dda_setup(&mut a, &mut b, 0);
    assert_eq!(seed.data, [whole(-2), whole(0), whole(0)]);
    assert_eq!(step.data, [whole(1), whole(0), whole(2)]);
}

#[test]
fn span_includes_the_near_end_and_excludes_the_far_end() {
    let samples = dda_full(vertex3(whole(1), whole(5), whole(0)), vertex3(whole(4), whole(5), whole(3)), 0);
    let data: Vec<[Fixed; 3]> = samples.iter().map(|p| p.data).collect();
    assert_eq!(
        data,
        vec![
            [whole(1), whole(5), whole(0)],
            [whole(2), whole(5), whole(1)],
            [whole(3), whole(5), whole(2)],
        ]
    );
}

#[test]
fn span_starts_at_the_ceiling() {
    let a = vertex3(fx(-3, 2), whole(0), whole(0));
    let b = vertex3(fx(3, 2), whole(0), whole(3));
    let samples = dda_full(b, a, 0);
    let data: Vec<[Fixed; 3]> = samples.iter().map(|p| p.data).collect();
    assert_eq!(
        data,
        vec![
            [whole(-1), whole(0), fx(1, 2)],
            [whole(0), whole(0), fx(3, 2)],
            [whole(1), whole(0), fx(5, 2)],
        ]
    );
}

#[test]
fn span_between_two_whole_values_may_be_empty() {
    assert!(dda_full(vertex3(fx(1, 4), whole(0), whole(0)), vertex3(fx(3, 4), whole(0), whole(0)), 0).is_empty());
    assert!(dda_full(vertex3(whole(2), whole(0), whole(0)), vertex3(whole(2), whole(9), whole(1)), 0).is_empty());
    let top = Fixed::from_raw(i64::MAX);
    assert!(dda_full(vertex3(Fixed::from_raw(i64::MAX - 5), whole(0), whole(0)), vertex3(top, whole(0), whole(0)), 0).is_empty());
}

#[test]
fn span_over_the_whole_range_of_an_attribute_saturates() {
    let low = Fixed::from_raw(i64::MIN);
    let top = Fixed::from_raw(i64::MAX);
    let samples = dda_full(vertex3(whole(0), whole(0), low), vertex3(whole(2), whole(0), top), 0);
    assert_eq!(samples.len(), 2);
    // The difference of the attribute saturates, so its step is half the
    // largest number.
    let step = top.div(whole(2));
    assert_eq!(samples[0].data, [whole(0), whole(0), low]);
    assert_eq!(samples[1].data, [whole(1), whole(0), low.add(step)]);
}

#[test]
fn triangle_covers_its_rows_and_columns() {
    let samples = triangle(
        vertex3(whole(0), whole(0), whole(0)),
        vertex3(whole(4), whole(0), whole(0)),
        vertex3(whole(0), whole(4), whole(0)),
    );
    assert_eq!(
        positions(&samples.0),
        vec![(0, 0), (1, 0), (2, 0), (3, 0), (0, 1), (1, 1), (2, 1), (0, 2), (1, 2), (0, 3)]
    );
}

#[test]
fn triangle_does_not_depend_on_the_order_of_its_vertices() {
    let a = vertex3(fx(1, 2), fx(1, 3), whole(1));
    let b = vertex3(fx(13, 2), fx(5, 3), whole(2));
    let c = vertex3(fx(7, 3), fx(31, 4), whole(3));
    let expected = positions(&triangle(a, b, c).0);
    assert!(!expected.is_empty());
    for (p, q, r) in [(a, c, b), (b, a, c), (b, c, a), (c, a, b), (c, b, a)] {
        assert_eq!(positions(&triangle(p, q, r).0), expected);
    }
}

#[test]
fn triangle_emits_each_position_once() {
    let samples = triangle(
        vertex3(fx(1, 2), fx(1, 3), whole(1)),
        vertex3(fx(13, 2), fx(5, 3), whole(2)),
        vertex3(fx(7, 3), fx(31, 4), whole(3)),
    );
    let found = positions(&samples.0);
    let mut sorted = found.clone();
    sorted.sort_by_key(|&(x, y)| (y, x));
    assert_eq!(found, sorted);
    sorted.dedup();
    assert_eq!(found.len(), sorted.len());
    // Rows 1 to 7; the sample count is the sum of the widths of the rows.
    let mut widths = [0usize; 8];
    for &(_, y) in &found {
        widths[y as usize] += 1;
    }
    assert_eq!(widths[0], 0);
    assert_eq!(widths.iter().sum::<usize>(), found.len());
    for (y, &width) in widths.iter().enumerate().skip(1) {
        let row: Vec<i64> = found.iter().filter(|p| p.1 == y as i64).map(|p| p.0).collect();
        assert_eq!(row.len(), width);
        for pair in row.windows(2) {
            assert_eq!(pair[1], pair[0] + 1);
        }
    }
}

#[test]
fn triangle_interpolates_attributes_linearly() {
    // The attribute is x + 10 y at the vertices, so it is at every sample.
    let samples = triangle(
        vertex3(whole(0), whole(0), whole(0)),
        vertex3(whole(4), whole(0), whole(4)),
        vertex3(whole(0), whole(4), whole(40)),
    );
    assert_eq!(samples.len(), 10);
    for i in 0..samples.len() {
        let p = samples.index(i);
        assert_eq!(p.index(2), p.index(0).add(p.index(1).mul(whole(10))));
    }
}

#[test]
fn degenerate_triangles_have_no_samples() {
    let v = vertex3(fx(3, 2), fx(5, 2), whole(1));
    assert_eq!(triangle(v, v, v).len(), 0);
    let w = vertex3(whole(3), whole(5), whole(1));
    assert_eq!(triangle(w, w, w).len(), 0);
    // A row without height.
    assert_eq!(
        triangle(vertex3(whole(0), whole(2), whole(1)), vertex3(whole(5), whole(2), whole(1)), vertex3(whole(9), whole(2), whole(1)))
            .len(),
        0
    );
    // A column without width.
    assert_eq!(
        triangle(vertex3(whole(2), whole(0), whole(1)), vertex3(whole(2), whole(5), whole(1)), vertex3(whole(2), whole(9), whole(1)))
            .len(),
        0
    );
    // Between two rows.
    assert_eq!(
        triangle(vertex3(whole(0), fx(1, 4), whole(1)), vertex3(whole(5), fx(1, 2), whole(1)), vertex3(whole(9), fx(3, 4), whole(1)))
            .len(),
        0
    );
}

#[test]
fn square_is_centered_and_textured() {
    let mut data = [whole(0); 11];
    data[0] = whole(5);
    data[1] = whole(7);
    data[2] = fx(1, 2);
    data[10] = whole(4);
    let samples = square(Point::<11>::new(data));
    let mut expected = Vec::new();
    // First the upper left half, then the lower right half.
    for y in 5..9 {
        for x in 3..(3 + (9 - y)) {
            expected.push((x, y));
        }
    }
    for y in 6..9 {
        for x in (3 + (9 - y))..7 {
            expected.push((x, y));
        }
    }
    assert_eq!(positions(&samples.0), expected);
    for i in 0..samples.len() {
        let p = samples.index(i);
        // Texture coordinates run from 0 to 1 over the side of 4 pixels.
        assert_eq!(p.index(8), p.index(0).sub(whole(3)).div(whole(4)));
        assert_eq!(p.index(9), p.index(1).sub(whole(5)).div(whole(4)));
        assert_eq!(p.index(2), fx(1, 2));
        assert_eq!(p.index(10), whole(4));
    }
}
