//! Vertex vectors and primitive buffers, with the arithmetic that
//! interpolation needs and the operations of the transform stage.

use crate::axis::{A, B, G, R, W, X, Y, Z};
use crate::color::Color;
use crate::fixed::{lemma_mul_zero, lemma_zero_div, Fixed, SCALE};
use crate::matrix::Matrix;
use crate::pixel::LinearRgba;
use crate::position::Position;
use vstd::prelude::*;

verus! {

/// Component-wise saturating sum of two vectors of the same length.
pub open spec fn vec_add(a: Seq<Fixed>, b: Seq<Fixed>) -> Seq<Fixed> {
    Seq::new(a.len(), |i: int| a[i].add_spec(b[i]))
}

/// Component-wise saturating difference of two vectors of the same length.
pub open spec fn vec_sub(a: Seq<Fixed>, b: Seq<Fixed>) -> Seq<Fixed> {
    Seq::new(a.len(), |i: int| a[i].sub_spec(b[i]))
}

/// Every component of `a` divided by `d`.
pub open spec fn vec_div(a: Seq<Fixed>, d: Fixed) -> Seq<Fixed> {
    Seq::new(a.len(), |i: int| a[i].div_spec(d))
}

/// Every component of `a` multiplied by `e`.
pub open spec fn vec_scale(a: Seq<Fixed>, e: Fixed) -> Seq<Fixed> {
    Seq::new(a.len(), |i: int| a[i].mul_spec(e))
}

/// The vector of `n` zeros.
pub open spec fn vec_zero(n: nat) -> Seq<Fixed> {
    Seq::new(n, |i: int| Fixed::from_int(0))
}

/// The scalar product of row `i` of `m` with the position of `v`, summed
/// from the first column to the last.
pub open spec fn row_dot(m: Matrix, i: int, v: Seq<Fixed>) -> Fixed {
    m.at(i, 0).mul_spec(v[X as int]).add_spec(m.at(i, 1).mul_spec(v[Y as int])).add_spec(
        m.at(i, 2).mul_spec(v[Z as int]),
    ).add_spec(m.at(i, 3).mul_spec(v[W as int]))
}

/// `v` with its position replaced by the product of `m` and that position.
pub open spec fn multiply_spec(m: Matrix, v: Seq<Fixed>) -> Seq<Fixed> {
    v.update(X as int, row_dot(m, 0, v)).update(Y as int, row_dot(m, 1, v)).update(
        Z as int,
        row_dot(m, 2, v),
    ).update(W as int, row_dot(m, 3, v))
}

/// `v` after each field that `fields` lists, taken in order, was divided by
/// `w`.
pub open spec fn divide_fields(v: Seq<Fixed>, w: Fixed, fields: Seq<usize>) -> Seq<Fixed>
    decreases fields.len(),
{
    if fields.len() == 0 {
        v
    } else {
        let before = divide_fields(v, w, fields.drop_last());
        let f = fields.last() as int;
        before.update(f, before[f].div_spec(w))
    }
}

/// Perspective division: the listed fields of `v` divided by its `W`, and
/// `W` itself replaced by its reciprocal.
pub open spec fn divide_by_w_spec(v: Seq<Fixed>, fields: Seq<usize>) -> Seq<Fixed> {
    divide_fields(v, v[W as int], fields).update(
        W as int,
        Fixed::from_int(1).div_spec(v[W as int]),
    )
}

/// One coordinate mapped from the range `[-1, 1]` to `[0, extent]`.
pub open spec fn to_viewport(c: Fixed, extent: u32) -> Fixed {
    c.add_spec(Fixed::from_int(1)).mul_spec(Fixed::from_int(extent as int)).div_spec(
        Fixed::from_int(2),
    )
}

/// `v` with `X` and `Y` mapped from normalized device coordinates to a
/// viewport of `width` by `height` pixels.
pub open spec fn viewport_spec(v: Seq<Fixed>, width: u32, height: u32) -> Seq<Fixed> {
    v.update(X as int, to_viewport(v[X as int], width)).update(
        Y as int,
        to_viewport(v[Y as int], height),
    )
}

/// The viewport transform maps `-1` to the first pixel boundary and `1`
/// to the last one.
pub proof fn lemma_viewport_ends(extent: u32)
    requires
        extent < 0x4000_0000,
    ensures
        to_viewport(Fixed::from_int(-1), extent) == Fixed::from_int(0),
        to_viewport(Fixed::from_int(1), extent) == Fixed::from_int(extent as int),
{
    let one = Fixed::from_int(1);
    let two = Fixed::from_int(2);
    let e = Fixed::from_int(extent as int);
    lemma_mul_zero(e);
    lemma_zero_div(two);
    assert(one.add_spec(one) == two);
    assert((two.raw * e.raw) / (SCALE as int) == 2 * e.raw) by (nonlinear_arith)
        requires
            two.raw == 2 * SCALE,
            SCALE > 0,
    ;
    assert(((2 * e.raw) * SCALE) / (two.raw as int) == e.raw) by (nonlinear_arith)
        requires
            two.raw == 2 * SCALE,
            SCALE > 0,
    ;
}

/// Whether the triangle `v0 v1 v2` has a positive signed area in the `X`-`Y`
/// plane, which marks it as facing away from the viewer.
pub open spec fn back_facing(v0: Seq<Fixed>, v1: Seq<Fixed>, v2: Seq<Fixed>) -> bool {
    v1[X as int].sub_spec(v0[X as int]).mul_spec(v2[Y as int].sub_spec(v0[Y as int])).sub_spec(
        v2[X as int].sub_spec(v0[X as int]).mul_spec(v1[Y as int].sub_spec(v0[Y as int])),
    ).raw > 0
}

/// A triangle and the same triangle with two vertices exchanged never both
/// face away from the viewer.
pub proof fn lemma_winding(v0: Seq<Fixed>, v1: Seq<Fixed>, v2: Seq<Fixed>)
    ensures
        back_facing(v0, v1, v2) ==> !back_facing(v0, v2, v1),
{
}

/// The fields of a triangle vertex made of a position, a colour and texture
/// coordinates, in the order of the field indices.
pub open spec fn vertex_fields(position: Position, color: Color, texcoord: Seq<Fixed>) -> Seq<
    Fixed,
> {
    seq![
        position.x,
        position.y,
        position.z,
        position.w,
        color.r,
        color.g,
        color.b,
        color.a,
        texcoord[0],
        texcoord[1],
    ]
}

/// The views of the vertices of `points`, in order.
pub open spec fn views<const DIM: usize>(points: Seq<Point<DIM>>) -> Seq<Seq<Fixed>> {
    Seq::new(points.len(), |i: int| points[i]@)
}

/// The vertices that `from` builds for the indices `start..end`.
pub open spec fn gathered(
    positions: Seq<Position>,
    colors: Seq<Color>,
    texcoords: Seq<[Fixed; 2]>,
    start: int,
    end: int,
) -> Seq<Seq<Fixed>> {
    Seq::new(
        if start < end {
            (end - start) as nat
        } else {
            0
        },
        |k: int|
            vertex_fields(
                positions[start + k],
                if start + k < colors.len() {
                    colors[start + k]
                } else {
                    Color::absent()
                },
                if start + k < texcoords.len() {
                    texcoords[start + k]@
                } else {
                    seq![Fixed::from_int(0), Fixed::from_int(0)]
                },
            ),
    )
}

/// One vertex: a position in homogeneous coordinates followed by the
/// attributes that are interpolated with it.
#[derive(Clone, Copy, Debug)]
pub struct Point<const DIM: usize> {
    pub data: [Fixed; DIM],
}

impl<const DIM: usize> View for Point<DIM> {
    type V = Seq<Fixed>;

    open spec fn view(&self) -> Seq<Fixed> {
        self.data@
    }
}

impl<const DIM: usize> Point<DIM> {
    /// The vertex with the given fields.
    pub fn new(data: [Fixed; DIM]) -> (r: Self)
        ensures
            r@ == data@,
    {
        Self { data }
    }

    /// The vertex whose fields are all zero.
    pub fn zero() -> (r: Self)
        ensures
            r@ == vec_zero(DIM as nat),
    {
        let r = Self { data: [Fixed::zero(); DIM] };
        assert(r@ =~= vec_zero(DIM as nat));
        r
    }

    /// The field at `index`.
    pub fn index(&self, index: usize) -> (r: Fixed)
        requires
            index < DIM,
        ensures
            r == self@[index as int],
    {
        self.data[index]
    }

    /// Overwrites the field at `index`.
    pub fn set(&mut self, index: usize, value: Fixed)
        requires
            index < DIM,
        ensures
            final(self)@ == old(self)@.update(index as int, value),
    {
        self.data[index] = value;
    }

    /// Component-wise saturating sum.
    pub fn add(self, rhs: Point<DIM>) -> (r: Point<DIM>)
        ensures
            r@ == vec_add(self@, rhs@),
    {
        let mut out = self;
        let mut i: usize = 0;
        while i < DIM
            invariant
                i <= DIM,
                forall|j: int| 0 <= j < i ==> out@[j] == self@[j].add_spec(rhs@[j]),
                forall|j: int| i <= j < DIM ==> out@[j] == self@[j],
            decreases DIM - i,
        {
            out.data[i] = self.data[i].add(rhs.data[i]);
            i += 1;
        }
        assert(out@ =~= vec_add(self@, rhs@));
        out
    }

    /// Component-wise saturating difference.
    pub fn sub(self, rhs: Point<DIM>) -> (r: Point<DIM>)
        ensures
            r@ == vec_sub(self@, rhs@),
    {
        let mut out = self;
        let mut i: usize = 0;
        while i < DIM
            invariant
                i <= DIM,
                forall|j: int| 0 <= j < i ==> out@[j] == self@[j].sub_spec(rhs@[j]),
                forall|j: int| i <= j < DIM ==> out@[j] == self@[j],
            decreases DIM - i,
        {
            out.data[i] = self.data[i].sub(rhs.data[i]);
            i += 1;
        }
        assert(out@ =~= vec_sub(self@, rhs@));
        out
    }

    /// Every field divided by `rhs`.
    pub fn div(self, rhs: Fixed) -> (r: Point<DIM>)
        ensures
            r@ == vec_div(self@, rhs),
    {
        let mut out = self;
        let mut i: usize = 0;
        while i < DIM
            invariant
                i <= DIM,
                forall|j: int| 0 <= j < i ==> out@[j] == self@[j].div_spec(rhs),
                forall|j: int| i <= j < DIM ==> out@[j] == self@[j],
            decreases DIM - i,
        {
            out.data[i] = self.data[i].div(rhs);
            i += 1;
        }
        assert(out@ =~= vec_div(self@, rhs));
        out
    }

    /// Every field multiplied by `factor`.
    pub fn scale(self, factor: Fixed) -> (r: Point<DIM>)
        ensures
            r@ == vec_scale(self@, factor),
    {
        let mut out = self;
        let mut i: usize = 0;
        while i < DIM
            invariant
                i <= DIM,
                forall|j: int| 0 <= j < i ==> out@[j] == self@[j].mul_spec(factor),
                forall|j: int| i <= j < DIM ==> out@[j] == self@[j],
            decreases DIM - i,
        {
            out.data[i] = self.data[i].mul(factor);
            i += 1;
        }
        assert(out@ =~= vec_scale(self@, factor));
        out
    }

    /// Adds `rhs` to `self` in place.
    pub fn add_assign(&mut self, rhs: Point<DIM>)
        ensures
            final(self)@ == vec_add(old(self)@, rhs@),
    {
        let sum = self.add(rhs);
        self.data = sum.data;
    }

    /// Divides `self` by `rhs` in place.
    pub fn div_assign(&mut self, rhs: Fixed)
        ensures
            final(self)@ == vec_div(old(self)@, rhs),
    {
        let quotient = self.div(rhs);
        self.data = quotient.data;
    }

    /// The colour that the vertex carries.
    pub fn pixel(self) -> (p: LinearRgba)
        requires
            DIM > A,
        ensures
            p == (LinearRgba {
                r: self@[R as int],
                g: self@[G as int],
                b: self@[B as int],
                a: self@[A as int],
            }),
    {
        LinearRgba { r: self.data[R], g: self.data[G], b: self.data[B], a: self.data[A] }
    }

    /// Replaces the position by its product with `uniform_matrix`.
    pub fn multiply_by_matrix(&mut self, uniform_matrix: &Matrix)
        requires
            DIM > W,
        ensures
            final(self)@ == multiply_spec(*uniform_matrix, old(self)@),
    {
        let x = self.data[X];
        let y = self.data[Y];
        let z = self.data[Z];
        let w = self.data[W];
        let mut i: usize = 0;
        while i < 4
            invariant
                i <= 4,
                DIM > W,
                x == old(self)@[X as int],
                y == old(self)@[Y as int],
                z == old(self)@[Z as int],
                w == old(self)@[W as int],
                forall|j: int| 0 <= j < i ==> self@[j] == row_dot(*uniform_matrix, j, old(self)@),
                forall|j: int| i <= j < DIM ==> self@[j] == old(self)@[j],
            decreases 4 - i,
        {
            let m = uniform_matrix;
            self.data[i] = m.get(i, 0).mul(x).add(m.get(i, 1).mul(y)).add(m.get(i, 2).mul(z)).add(
                m.get(i, 3).mul(w),
            );
            i += 1;
        }
        assert(self@ =~= multiply_spec(*uniform_matrix, old(self)@));
    }

    /// Perspective division: divides the listed fields by `W`, then
    /// replaces `W` by its reciprocal.
    pub fn divide_by_w(&mut self, fields: &Vec<usize>)
        requires
            DIM > W,
            forall|k: int| 0 <= k < fields.len() ==> fields[k] < DIM,
        ensures
            final(self)@ == divide_by_w_spec(old(self)@, fields@),
    {
        let w = self.data[W];
        let mut k: usize = 0;
        while k < fields.len()
            invariant
                k <= fields.len(),
                DIM > W,
                w == old(self)@[W as int],
                forall|k: int| 0 <= k < fields.len() ==> fields[k] < DIM,
                self@ == divide_fields(old(self)@, w, fields@.take(k as int)),
            decreases fields.len() - k,
        {
            let f = fields[k];
            proof {
                assert(fields@.take(k + 1).drop_last() =~= fields@.take(k as int));
            }
            self.data[f] = self.data[f].div(w);
            k += 1;
        }
        assert(fields@.take(k as int) =~= fields@);
        self.data[W] = Fixed::one().div(w);
    }

    /// Maps `X` and `Y` from normalized device coordinates to a viewport of
    /// `width` by `height` pixels.
    pub fn transform_to_viewport(&mut self, width: u32, height: u32)
        requires
            DIM > Y,
        ensures
            final(self)@ == viewport_spec(old(self)@, width, height),
    {
        let x = self.data[X];
        let y = self.data[Y];
        let two = Fixed::from_u32(2);
        self.data[X] = x.add(Fixed::one()).mul(Fixed::from_u32(width)).div(two);
        self.data[Y] = y.add(Fixed::one()).mul(Fixed::from_u32(height)).div(two);
    }

    /// Undoes a perspective division on the listed fields: divides them by
    /// `W`, which holds a reciprocal, and replaces `W` by its reciprocal.
    pub fn undivide_by_w(&mut self, fields: &Vec<usize>)
        requires
            DIM > W,
            forall|k: int| 0 <= k < fields.len() ==> fields[k] < DIM,
        ensures
            final(self)@ == divide_by_w_spec(old(self)@, fields@),
    {
        self.divide_by_w(fields);
    }
}

impl Point<10> {
    /// The triangle vertex with the given position, colour and texture
    /// coordinates.
    pub fn from_vertex(position: Position, color: Color, texcoord: [Fixed; 2]) -> (r: Self)
        ensures
            r@ == vertex_fields(position, color, texcoord@),
    {
        let r = Self {
            data: [
                position.x,
                position.y,
                position.z,
                position.w,
                color.r,
                color.g,
                color.b,
                color.a,
                texcoord[0],
                texcoord[1],
            ],
        };
        assert(r@ =~= vertex_fields(position, color, texcoord@));
        r
    }
}

impl Point<11> {
    /// The point-sprite vertex with the given position, colour, texture
    /// coordinates and side length.
    pub fn from_sprite(position: Position, color: Color, texcoord: [Fixed; 2], size: Fixed) -> (r:
        Self)
        ensures
            r@ == vertex_fields(position, color, texcoord@).push(size),
    {
        let r = Self {
            data: [
                position.x,
                position.y,
                position.z,
                position.w,
                color.r,
                color.g,
                color.b,
                color.a,
                texcoord[0],
                texcoord[1],
                size,
            ],
        };
        assert(r@ =~= vertex_fields(position, color, texcoord@).push(size));
        r
    }
}

/// An ordered list of vertices: the three corners of a triangle, or the
/// samples that rasterization produced.
#[derive(Clone, Debug)]
pub struct Points<const DIM: usize>(pub Vec<Point<DIM>>);

impl<const DIM: usize> View for Points<DIM> {
    type V = Seq<Seq<Fixed>>;

    open spec fn view(&self) -> Seq<Seq<Fixed>> {
        views(self.0@)
    }
}

impl Points<10> {
    /// Builds the vertices with the indices `start..end` from the attribute
    /// buffers. A vertex beyond the end of the colour buffer is black with
    /// no opacity, and one beyond the end of the texture-coordinate buffer
    /// has the coordinates `(0, 0)`.
    pub fn from(
        position_buf: &Vec<Position>,
        color_buf: &Vec<Color>,
        texcoord_buf: &Vec<[Fixed; 2]>,
        start: usize,
        end: usize,
    ) -> (r: Points<10>)
        requires
            start < end ==> end <= position_buf.len(),
        ensures
            r@ == gathered(position_buf@, color_buf@, texcoord_buf@, start as int, end as int),
    {
        let mut result: Vec<Point<10>> = Vec::new();
        let mut j: usize = start;
        while j < end
            invariant
                start < end ==> end <= position_buf.len(),
                start <= j,
                start < end ==> j <= end,
                start >= end ==> j == start,
                result.len() == j - start,
                forall|k: int|
                    0 <= k < j - start ==> (#[trigger] result@[k])@ == gathered(
                        position_buf@,
                        color_buf@,
                        texcoord_buf@,
                        start as int,
                        end as int,
                    )[k],
            decreases end - j,
        {
            let color = if j < color_buf.len() {
                color_buf[j]
            } else {
                Color::none()
            };
            let texcoord = if j < texcoord_buf.len() {
                texcoord_buf[j]
            } else {
                [Fixed::zero(), Fixed::zero()]
            };
            let point = Point::<10>::from_vertex(position_buf[j], color, texcoord);
            proof {
                if j >= texcoord_buf.len() {
                    assert(texcoord@ =~= seq![Fixed::from_int(0), Fixed::from_int(0)]);
                }
            }
            result.push(point);
            j += 1;
        }
        let r = Points::<10>(result);
        assert(r@.len() == gathered(
            position_buf@,
            color_buf@,
            texcoord_buf@,
            start as int,
            end as int,
        ).len());
        assert forall|k: int| 0 <= k < r@.len() implies r@[k] == gathered(
            position_buf@,
            color_buf@,
            texcoord_buf@,
            start as int,
            end as int,
        )[k] by {
            assert(r@[k] == result@[k]@);
        }
        assert(r@ =~= gathered(
            position_buf@,
            color_buf@,
            texcoord_buf@,
            start as int,
            end as int,
        ));
        r
    }
}

impl<const DIM: usize> Points<DIM> {
    /// The empty list.
    pub fn default() -> (r: Self)
        ensures
            r@ == Seq::<Seq<Fixed>>::empty(),
    {
        let r = Self(Vec::new());
        assert(r@ =~= Seq::<Seq<Fixed>>::empty());
        r
    }

    /// Moves every vertex of `other` to the end of `self`.
    pub fn append(&mut self, other: &mut Vec<Point<DIM>>)
        ensures
            final(self)@ == old(self)@ + views(old(other)@),
            final(other)@ == Seq::<Point<DIM>>::empty(),
    {
        self.0.append(other);
        assert(self@ =~= old(self)@ + views(old(other)@));
    }

    /// The number of vertices.
    pub fn len(&self) -> (n: usize)
        ensures
            n == self@.len(),
    {
        self.0.len()
    }

    /// The vertex at `index`.
    pub fn index(&self, index: usize) -> (r: Point<DIM>)
        requires
            index < self@.len(),
        ensures
            r@ == self@[index as int],
    {
        self.0[index]
    }

    /// Whether the triangle that `self` holds faces away from the viewer:
    /// whether its signed area in the `X`-`Y` plane is positive.
    pub fn is_back_face(&self) -> (r: bool)
        requires
            self@.len() == 3,
            DIM > Y,
        ensures
            r == back_facing(self@[0], self@[1], self@[2]),
    {
        let v0 = self.0[0];
        let v1 = self.0[1];
        let v2 = self.0[2];
        let area = v1.index(X).sub(v0.index(X)).mul(v2.index(Y).sub(v0.index(Y))).sub(
            v2.index(X).sub(v0.index(X)).mul(v1.index(Y).sub(v0.index(Y))),
        );
        area.raw > 0
    }

    /// Replaces the position of every vertex by its product with
    /// `uniform_matrix`.
    pub fn multiply_by_matrix(&mut self, uniform_matrix: &Matrix)
        requires
            DIM > W,
        ensures
            final(self)@ == old(self)@.map_values(
                |v: Seq<Fixed>| multiply_spec(*uniform_matrix, v),
            ),
    {
        let n = self.0.len();
        let mut i: usize = 0;
        while i < n
            invariant
                DIM > W,
                i <= n,
                n == self.0.len(),
                n == old(self)@.len(),
                forall|j: int|
                    0 <= j < i ==> (#[trigger] self.0@[j])@ == multiply_spec(
                        *uniform_matrix,
                        old(self)@[j],
                    ),
                forall|j: int| i <= j < n ==> (#[trigger] self.0@[j])@ == old(self)@[j],
            decreases n - i,
        {
            let mut point = self.0[i];
            point.multiply_by_matrix(uniform_matrix);
            self.0[i] = point;
            i += 1;
        }
        assert(self@ =~= old(self)@.map_values(
            |v: Seq<Fixed>| multiply_spec(*uniform_matrix, v),
        ));
    }

    /// Perspective division of every vertex.
    pub fn divide_by_w(&mut self, fields: &Vec<usize>)
        requires
            DIM > W,
            forall|k: int| 0 <= k < fields.len() ==> fields[k] < DIM,
        ensures
            final(self)@ == old(self)@.map_values(|v: Seq<Fixed>| divide_by_w_spec(v, fields@)),
    {
        let n = self.0.len();
        let mut i: usize = 0;
        while i < n
            invariant
                DIM > W,
                forall|k: int| 0 <= k < fields.len() ==> fields[k] < DIM,
                i <= n,
                n == self.0.len(),
                n == old(self)@.len(),
                forall|j: int|
                    0 <= j < i ==> (#[trigger] self.0@[j])@ == divide_by_w_spec(
                        old(self)@[j],
                        fields@,
                    ),
                forall|j: int| i <= j < n ==> (#[trigger] self.0@[j])@ == old(self)@[j],
            decreases n - i,
        {
            let mut point = self.0[i];
            point.divide_by_w(fields);
            self.0[i] = point;
            i += 1;
        }
        assert(self@ =~= old(self)@.map_values(|v: Seq<Fixed>| divide_by_w_spec(v, fields@)));
    }

    /// Maps every vertex to a viewport of `width` by `height` pixels.
    pub fn transform_to_viewport(&mut self, width: u32, height: u32)
        requires
            DIM > Y,
        ensures
            final(self)@ == old(self)@.map_values(|v: Seq<Fixed>| viewport_spec(v, width, height)),
    {
        let n = self.0.len();
        let mut i: usize = 0;
        while i < n
            invariant
                DIM > Y,
                i <= n,
                n == self.0.len(),
                n == old(self)@.len(),
                forall|j: int|
                    0 <= j < i ==> (#[trigger] self.0@[j])@ == viewport_spec(
                        old(self)@[j],
                        width,
                        height,
                    ),
                forall|j: int| i <= j < n ==> (#[trigger] self.0@[j])@ == old(self)@[j],
            decreases n - i,
        {
            let mut point = self.0[i];
            point.transform_to_viewport(width, height);
            self.0[i] = point;
            i += 1;
        }
        assert(self@ =~= old(self)@.map_values(
            |v: Seq<Fixed>| viewport_spec(v, width, height),
        ));
    }

    /// Undoes a perspective division on the listed fields of every vertex.
    pub fn undivide_by_w(&mut self, fields: &Vec<usize>)
        requires
            DIM > W,
            forall|k: int| 0 <= k < fields.len() ==> fields[k] < DIM,
        ensures
            final(self)@ == old(self)@.map_values(|v: Seq<Fixed>| divide_by_w_spec(v, fields@)),
    {
        self.divide_by_w(fields);
    }
}

} // verus!
