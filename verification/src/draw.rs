//! The fragment stage and the draw calls: from vertices to colours in the
//! framebuffer.

use crate::axis::{A, B, G, R, S, T, W, X, Y, Z};
use crate::depth_image::{DepthImage, Frame};
use crate::fixed::{
    lemma_div_one, lemma_div_self, lemma_mul_one, lemma_mul_zero, lemma_zero_div, Fixed, SCALE,
};
use crate::matrix::Matrix;
use crate::pixel::LinearRgba;
use crate::point::{
    back_facing, divide_by_w_spec, divide_fields, multiply_spec, viewport_spec, Point, Points,
};
use crate::rasterize::{square, square_samples, triangle, triangle_samples};
use crate::texture::{Texture, TextureModel};
use vstd::arithmetic::div_mod::lemma_fundamental_div_mod;
use vstd::prelude::*;

verus! {

/// `src` composited over `dst`.
///
/// The opacity of the result is `a = a_s + a_d * (1 - a_s)`, and each colour
/// channel is `a_s / a * c_s + (1 - a_s) * a_d / a * c_d`. Where `a` is
/// zero the result is black with no opacity.
pub open spec fn over(dst: LinearRgba, src: LinearRgba) -> LinearRgba {
    let one = Fixed::from_int(1);
    let a = src.a.add_spec(dst.a.mul_spec(one.sub_spec(src.a)));
    if a.raw == 0 {
        LinearRgba::transparent()
    } else {
        let src_weight = src.a.div_spec(a);
        let dst_weight = one.sub_spec(src.a).mul_spec(dst.a).div_spec(a);
        LinearRgba {
            r: src_weight.mul_spec(src.r).add_spec(dst_weight.mul_spec(dst.r)),
            g: src_weight.mul_spec(src.g).add_spec(dst_weight.mul_spec(dst.g)),
            b: src_weight.mul_spec(src.b).add_spec(dst_weight.mul_spec(dst.b)),
            a,
        }
    }
}

/// The colour that the vertex `v` carries.
pub open spec fn pixel_of(v: Seq<Fixed>) -> LinearRgba {
    LinearRgba { r: v[R as int], g: v[G as int], b: v[B as int], a: v[A as int] }
}

/// What the texture holds, where there is one.
pub open spec fn texture_view(texture: Option<Texture>) -> Option<TextureModel> {
    match texture {
        Some(t) => Some(t@),
        None => None,
    }
}

/// Whether the depth `z` passes the depth test against the stored depth:
/// whether it is strictly nearer. A cell without a stored depth is further
/// away than any fragment.
pub open spec fn nearer(z: Fixed, stored: Option<Fixed>) -> bool {
    match stored {
        Some(d) => z.raw < d.raw,
        None => true,
    }
}

/// Whether the fragment `v` is written: whether it lies inside the
/// framebuffer and, with the depth test on, passes it.
pub open spec fn fragment_visible(frame: Frame, v: Seq<Fixed>, depth: bool) -> bool {
    let x = v[X as int].to_u32_spec() as int;
    let y = v[Y as int].to_u32_spec() as int;
    &&& v[X as int].raw >= 0
    &&& v[Y as int].raw >= 0
    &&& x < frame.columns()
    &&& y < frame.lines()
    &&& (depth ==> nearer(v[Z as int], frame.depths[frame.cell(x, y)]))
}

/// The colour that the fragment `v` leaves in a cell that holds `dst`: its
/// own colour composited over `dst`, and then, with a texture, either the
/// texel composited over that colour (`decals`) or the texel alone.
pub open spec fn fragment_color(
    dst: LinearRgba,
    v: Seq<Fixed>,
    texture: Option<TextureModel>,
    decals: bool,
) -> LinearRgba {
    let blended = over(dst, pixel_of(v));
    match texture {
        Some(t) => {
            let texel = t.lookup(v[S as int], v[T as int]);
            if decals {
                over(blended, texel)
            } else {
                texel
            }
        },
        None => blended,
    }
}

/// The framebuffer after the fragment `v` was processed.
pub open spec fn shade(
    frame: Frame,
    v: Seq<Fixed>,
    texture: Option<TextureModel>,
    depth: bool,
    decals: bool,
) -> Frame {
    if fragment_visible(frame, v, depth) {
        let x = v[X as int].to_u32_spec() as int;
        let y = v[Y as int].to_u32_spec() as int;
        frame.put(
            x,
            y,
            fragment_color(frame.colors[frame.cell(x, y)], v, texture, decals),
            if depth {
                Some(v[Z as int])
            } else {
                None
            },
        )
    } else {
        frame
    }
}

/// The framebuffer after the fragments `samples` were processed in order.
pub open spec fn shade_all(
    frame: Frame,
    samples: Seq<Seq<Fixed>>,
    texture: Option<TextureModel>,
    depth: bool,
    decals: bool,
) -> Frame
    decreases samples.len(),
{
    if samples.len() == 0 {
        frame
    } else {
        shade(
            shade_all(frame, samples.drop_last(), texture, depth, decals),
            samples.last(),
            texture,
            depth,
            decals,
        )
    }
}

/// The fields that perspective division divides: all interpolated fields
/// for perspective-correct interpolation, the screen position otherwise.
pub open spec fn divided_fields(hyp: bool) -> Seq<usize> {
    if hyp {
        seq![X, Y, Z, R, G, B, A, S, T]
    } else {
        seq![X, Y]
    }
}

/// The fields that are restored after perspective-correct interpolation.
pub open spec fn restored_fields() -> Seq<usize> {
    seq![Z, R, G, B, A, S, T]
}

/// The vertex `v` moved by `m`, divided by its `W` and mapped to a viewport
/// of `columns` by `lines`.
pub open spec fn project(v: Seq<Fixed>, m: Matrix, hyp: bool, columns: u32, lines: u32) -> Seq<
    Fixed,
> {
    viewport_spec(divide_by_w_spec(multiply_spec(m, v), divided_fields(hyp)), columns, lines)
}

/// Every vertex of `tri` moved by `m`.
pub open spec fn moved(tri: Seq<Seq<Fixed>>, m: Matrix) -> Seq<Seq<Fixed>> {
    tri.map_values(|v: Seq<Fixed>| multiply_spec(m, v))
}

/// Every vertex of `tri` moved by `m`, divided by its `W` and mapped to a
/// viewport of `columns` by `lines`.
pub open spec fn projected(tri: Seq<Seq<Fixed>>, m: Matrix, hyp: bool, columns: u32, lines: u32) -> Seq<
    Seq<Fixed>,
> {
    tri.map_values(|v: Seq<Fixed>| project(v, m, hyp, columns, lines))
}

/// Whether the triangle is dropped before rasterization: whether culling
/// is on and the triangle, moved by `m`, faces away from the viewer.
pub open spec fn culled(tri: Seq<Seq<Fixed>>, m: Matrix, cull: bool) -> bool {
    cull && back_facing(moved(tri, m)[0], moved(tri, m)[1], moved(tri, m)[2])
}

/// The fragments of the triangle `tri` in a viewport of `columns` by
/// `lines`.
pub open spec fn triangle_fragments(
    tri: Seq<Seq<Fixed>>,
    m: Matrix,
    hyp: bool,
    columns: u32,
    lines: u32,
) -> Seq<Seq<Fixed>> {
    let corners = projected(tri, m, hyp, columns, lines);
    let samples = triangle_samples(corners[0], corners[1], corners[2]);
    if hyp {
        samples.map_values(|v: Seq<Fixed>| divide_by_w_spec(v, restored_fields()))
    } else {
        samples
    }
}

/// The framebuffer after the triangle `tri` was drawn.
pub open spec fn draw_triangle_spec(
    frame: Frame,
    tri: Seq<Seq<Fixed>>,
    m: Matrix,
    texture: Option<TextureModel>,
    depth: bool,
    hyp: bool,
    cull: bool,
    decals: bool,
) -> Frame {
    if culled(tri, m, cull) {
        frame
    } else {
        shade_all(
            frame,
            triangle_fragments(tri, m, hyp, frame.columns() as u32, frame.lines() as u32),
            texture,
            depth,
            decals,
        )
    }
}

/// The framebuffer after the point sprite at `point` was drawn.
pub open spec fn draw_point_spec(
    frame: Frame,
    point: Seq<Fixed>,
    m: Matrix,
    texture: Option<TextureModel>,
    depth: bool,
    decals: bool,
) -> Frame {
    shade_all(
        frame,
        square_samples(project(point, m, false, frame.columns() as u32, frame.lines() as u32)),
        texture,
        depth,
        decals,
    )
}

/// Composites `pixel` over `cur_pixel`.
pub fn overlay_pixels(cur_pixel: LinearRgba, pixel: LinearRgba) -> (r: LinearRgba)
    ensures
        r == over(cur_pixel, pixel),
{
    let one = Fixed::one();
    let a = pixel.a.add(cur_pixel.a.mul(one.sub(pixel.a)));
    if a.raw == 0 {
        return LinearRgba::clear();
    }
    let src_weight = pixel.a.div(a);
    let dst_weight = one.sub(pixel.a).mul(cur_pixel.a).div(a);
    LinearRgba {
        r: src_weight.mul(pixel.r).add(dst_weight.mul(cur_pixel.r)),
        g: src_weight.mul(pixel.g).add(dst_weight.mul(cur_pixel.g)),
        b: src_weight.mul(pixel.b).add(dst_weight.mul(cur_pixel.b)),
        a,
    }
}

/// Processes the fragments `points` in order: each one inside the
/// framebuffer that passes the depth test (where `depth` is on) is
/// composited over the colour of its cell, textured, and written back,
/// together with its depth where `depth` is on.
pub fn draw_points<const DIM: usize>(
    img: &mut DepthImage,
    points: Points<DIM>,
    texture: &Option<Texture>,
    depth: bool,
    decals: bool,
)
    requires
        DIM > A,
        texture is Some ==> DIM > T,
        old(img).wf(),
        texture is Some ==> texture.unwrap().wf(),
    ensures
        final(img).wf(),
        final(img)@ == shade_all(old(img)@, points@, texture_view(*texture), depth, decals),
{
    let n = points.len();
    let mut i: usize = 0;
    while i < n
        invariant
            DIM > A,
            texture is Some ==> DIM > T,
            img.wf(),
            texture is Some ==> texture.unwrap().wf(),
            n == points@.len(),
            i <= n,
            img@ == shade_all(
                old(img)@,
                points@.take(i as int),
                texture_view(*texture),
                depth,
                decals,
            ),
        decreases n - i,
    {
        let point = points.index(i);
        proof {
            assert(points@.take(i + 1).drop_last() =~= points@.take(i as int));
            assert(points@.take(i + 1).last() == point@);
        }
        i += 1;
        if point.index(X).raw < 0 || point.index(Y).raw < 0 {
            continue ;
        }
        let x = point.index(X).to_u32();
        let y = point.index(Y).to_u32();
        if x < img.width() && y < img.height() {
            let pixel = point.pixel();
            let visible = if depth {
                match img.depth(x, y) {
                    Some(d) => point.index(Z).raw < d.raw,
                    None => true,
                }
            } else {
                true
            };
            if visible {
                let cur_pixel = img.get_pixel(x, y);
                let blended = overlay_pixels(cur_pixel, pixel);
                let color = match texture {
                    Some(t) => {
                        let texel = t.sample(point.index(S), point.index(T));
                        if decals {
                            overlay_pixels(blended, texel)
                        } else {
                            texel
                        }
                    },
                    None => blended,
                };
                img.put_pixel(
                    x,
                    y,
                    color,
                    if depth {
                        Some(point.index(Z))
                    } else {
                        None
                    },
                );
            }
        }
    }
    assert(points@.take(n as int) =~= points@);
}

/// Divides the vertices by their `W` and maps them to the viewport of
/// `columns` by `lines`.
fn to_screen(points: &mut Points<10>, hyp: bool, columns: u32, lines: u32)
    ensures
        final(points)@ == old(points)@.map_values(
            |v: Seq<Fixed>|
                viewport_spec(divide_by_w_spec(v, divided_fields(hyp)), columns, lines),
        ),
{
    let fields: Vec<usize> = if hyp {
        vec![X, Y, Z, R, G, B, A, S, T]
    } else {
        vec![X, Y]
    };
    assert(fields@ =~= divided_fields(hyp));
    points.divide_by_w(&fields);
    points.transform_to_viewport(columns, lines);
    assert(points@ =~= old(points)@.map_values(
        |v: Seq<Fixed>| viewport_spec(divide_by_w_spec(v, divided_fields(hyp)), columns, lines),
    ));
}

/// Restores the fields of every sample that perspective division divided.
fn restore(samples: &mut Points<10>)
    ensures
        final(samples)@ == old(samples)@.map_values(
            |v: Seq<Fixed>| divide_by_w_spec(v, restored_fields()),
        ),
{
    let fields: Vec<usize> = vec![Z, R, G, B, A, S, T];
    assert(fields@ =~= restored_fields());
    samples.undivide_by_w(&fields);
}

/// Draws one triangle.
///
/// The three vertices are moved by `uniform_matrix`. With `cull` on, a
/// triangle that then faces away from the viewer is dropped and the
/// framebuffer stays as it was. Otherwise the vertices are divided by their
/// `W` (with `hyp` on, all their interpolated fields are), mapped to the
/// viewport and rasterized; with `hyp` on, the fields of each sample are
/// restored by the interpolated `W`. The samples then pass the fragment
/// stage.
pub fn draw_triangle(
    img: &mut DepthImage,
    points: &mut Points<10>,
    uniform_matrix: &Matrix,
    texture: &Option<Texture>,
    depth: bool,
    hyp: bool,
    cull: bool,
    decals: bool,
)
    requires
        old(img).wf(),
        old(points)@.len() == 3,
        texture is Some ==> texture.unwrap().wf(),
    ensures
        final(img).wf(),
        final(img)@ == draw_triangle_spec(
            old(img)@,
            old(points)@,
            *uniform_matrix,
            texture_view(*texture),
            depth,
            hyp,
            cull,
            decals,
        ),
        culled(old(points)@, *uniform_matrix, cull) ==> final(img)@ == old(img)@ && final(points)@
            == moved(old(points)@, *uniform_matrix),
        !culled(old(points)@, *uniform_matrix, cull) ==> final(points)@ == projected(
            old(points)@,
            *uniform_matrix,
            hyp,
            old(img)@.columns() as u32,
            old(img)@.lines() as u32,
        ),
{
    let columns = img.width();
    let lines = img.height();
    points.multiply_by_matrix(uniform_matrix);
    if cull && points.is_back_face() {
        return ;
    }
    to_screen(points, hyp, columns, lines);
    assert(points@ =~= projected(old(points)@, *uniform_matrix, hyp, columns, lines));
    let mut samples = triangle(points.index(0), points.index(1), points.index(2));
    if hyp {
        restore(&mut samples);
    }
    assert(samples@ == triangle_fragments(old(points)@, *uniform_matrix, hyp, columns, lines));
    draw_points(img, samples, texture, depth, decals);
}

/// Draws one point sprite.
///
/// The vertex is moved by `uniform_matrix`, its position is divided by its
/// `W` and mapped to the viewport. The square around it whose side is the
/// point size is rasterized, and the samples pass the fragment stage.
pub fn draw_point(
    img: &mut DepthImage,
    point: &mut Point<11>,
    uniform_matrix: &Matrix,
    texture: &Option<Texture>,
    depth: bool,
    decals: bool,
)
    requires
        old(img).wf(),
        texture is Some ==> texture.unwrap().wf(),
    ensures
        final(img).wf(),
        final(img)@ == draw_point_spec(
            old(img)@,
            old(point)@,
            *uniform_matrix,
            texture_view(*texture),
            depth,
            decals,
        ),
        final(point)@ == project(
            old(point)@,
            *uniform_matrix,
            false,
            old(img)@.columns() as u32,
            old(img)@.lines() as u32,
        ),
{
    point.multiply_by_matrix(uniform_matrix);
    let fields: Vec<usize> = vec![X, Y];
    assert(fields@ =~= divided_fields(false));
    point.divide_by_w(&fields);
    point.transform_to_viewport(img.width(), img.height());
    let samples: Points<11> = square(*point);
    draw_points(img, samples, texture, depth, decals);
}

/// An opaque colour covers whatever lies under it.
pub proof fn lemma_over_opaque(dst: LinearRgba, src: LinearRgba)
    requires
        src.a == Fixed::from_int(1),
    ensures
        over(dst, src) == src,
{
    let one = Fixed::from_int(1);
    let zero = Fixed::from_int(0);
    assert(one.sub_spec(src.a) == zero);
    lemma_mul_zero(dst.a);
    lemma_div_self(one);
    lemma_zero_div(one);
    lemma_mul_one(src.r);
    lemma_mul_one(src.g);
    lemma_mul_one(src.b);
    lemma_mul_zero(dst.r);
    lemma_mul_zero(dst.g);
    lemma_mul_zero(dst.b);
}

/// A colour with no opacity leaves what lies under it as it is, unless
/// that has no opacity either: then the result is black with no opacity.
pub proof fn lemma_over_clear(dst: LinearRgba, src: LinearRgba)
    requires
        src.a == Fixed::from_int(0),
    ensures
        dst.a.raw != 0 ==> over(dst, src) == dst,
        dst.a.raw == 0 ==> over(dst, src) == LinearRgba::transparent(),
{
    let one = Fixed::from_int(1);
    let zero = Fixed::from_int(0);
    assert(one.sub_spec(src.a) == one);
    lemma_mul_one(dst.a);
    if dst.a.raw != 0 {
        lemma_zero_div(dst.a);
        lemma_div_self(dst.a);
        lemma_mul_zero(src.r);
        lemma_mul_zero(src.g);
        lemma_mul_zero(src.b);
        lemma_mul_one(dst.r);
        lemma_mul_one(dst.g);
        lemma_mul_one(dst.b);
    }
}

/// Compositing is associative for layers that are opaque or have no
/// opacity at all: three layers give the same colour whether the upper two
/// or the lower two are combined first.
pub proof fn lemma_over_associative(bottom: LinearRgba, middle: LinearRgba, top: LinearRgba)
    requires
        middle.a == Fixed::from_int(0) || middle.a == Fixed::from_int(1),
        top.a == Fixed::from_int(0) || top.a == Fixed::from_int(1),
    ensures
        over(over(bottom, middle), top) == over(bottom, over(middle, top)),
{
    if top.a == Fixed::from_int(1) {
        lemma_over_opaque(over(bottom, middle), top);
        lemma_over_opaque(middle, top);
        lemma_over_opaque(bottom, top);
    } else if middle.a == Fixed::from_int(1) {
        lemma_over_opaque(bottom, middle);
        lemma_over_clear(middle, top);
    } else {
        lemma_over_clear(bottom, middle);
        lemma_over_clear(middle, top);
        lemma_over_clear(over(bottom, middle), top);
        lemma_over_clear(bottom, LinearRgba::transparent());
    }
}

/// Dividing the listed fields by `w` changes nothing where `w` is one.
pub proof fn lemma_divide_fields_by_one(v: Seq<Fixed>, fields: Seq<usize>)
    requires
        forall|k: int| 0 <= k < fields.len() ==> fields[k] < v.len(),
    ensures
        divide_fields(v, Fixed::from_int(1), fields) == v,
    decreases fields.len(),
{
    if fields.len() > 0 {
        lemma_divide_fields_by_one(v, fields.drop_last());
        lemma_div_one(v[fields.last() as int]);
        assert(v.update(fields.last() as int, v[fields.last() as int]) =~= v);
    }
}

/// For a vertex whose `W` is one, perspective division changes nothing, so
/// dividing the fields and restoring them returns every field exactly.
pub proof fn lemma_unit_w_round_trip(v: Seq<Fixed>, fields: Seq<usize>, restored: Seq<usize>)
    requires
        v.len() > W,
        v[W as int] == Fixed::from_int(1),
        forall|k: int| 0 <= k < fields.len() ==> fields[k] < v.len(),
        forall|k: int| 0 <= k < restored.len() ==> restored[k] < v.len(),
    ensures
        divide_by_w_spec(v, fields) == v,
        divide_by_w_spec(divide_by_w_spec(v, fields), restored) == v,
{
    lemma_divide_fields_by_one(v, fields);
    lemma_divide_fields_by_one(v, restored);
    lemma_div_self(Fixed::from_int(1));
    assert(v.update(W as int, Fixed::from_int(1)) =~= v);
}

/// Dividing a value by `w` and dividing the quotient by the reciprocal of
/// `w` returns the value up to rounding: the result is less than `w + 1`
/// steps of `2^-32` below the value, and no more than the value divided by
/// `1 - w * 2^-32` above it.
pub proof fn lemma_round_trip_close(c: Fixed, w: Fixed)
    requires
        c.raw >= 0,
        w.raw > 0,
        (c.raw * SCALE) / (w.raw as int) <= i64::MAX,
        (SCALE * SCALE) / (w.raw as int) <= i64::MAX,
    ensures
        ({
            let restored = c.div_spec(w).div_spec(Fixed::from_int(1).div_spec(w));
            &&& (c.raw - restored.raw - 1) * SCALE < w.raw
            &&& restored.raw * (SCALE * SCALE - w.raw) <= c.raw * (SCALE * SCALE)
        }),
{
    let s = SCALE as int;
    let cr = c.raw as int;
    let wr = w.raw as int;
    let q = (cr * s) / wr;
    let u = (s * s) / wr;
    lemma_fundamental_div_mod(cr * s, wr);
    lemma_fundamental_div_mod(s * s, wr);
    assert(q >= 0) by (nonlinear_arith)
        requires
            cr >= 0,
            s > 0,
            wr > 0,
            q == (cr * s) / wr,
    ;
    assert(1 * s == s);
    assert(c.div_spec(w).raw == q);
    assert(Fixed::from_int(1).div_spec(w).raw == u);
    assert(u > 0) by (nonlinear_arith)
        requires
            s * s == wr * u + (s * s) % wr,
            0 <= (s * s) % wr < wr,
            wr < s * s,
            wr > 0,
    ;
    let t = (q * s) / u;
    lemma_fundamental_div_mod(q * s, u);
    assert(t >= 0) by (nonlinear_arith)
        requires
            q >= 0,
            s > 0,
            u > 0,
            t == (q * s) / u,
    ;
    let restored = c.div_spec(w).div_spec(Fixed::from_int(1).div_spec(w));
    assert(restored.raw == if t > i64::MAX {
        i64::MAX as int
    } else {
        t
    });
    // Below: t * u > q * s - u, u * wr <= s * s and q * wr > cr * s - wr.
    assert((cr - t - 1) * s < wr) by (nonlinear_arith)
        requires
            q * s == u * t + (q * s) % u,
            0 <= (q * s) % u < u,
            cr * s == wr * q + (cr * s) % wr,
            0 <= (cr * s) % wr < wr,
            s * s == wr * u + (s * s) % wr,
            0 <= (s * s) % wr < wr,
            u > 0,
            wr > 0,
            s > 0,
            t >= 0,
            q >= 0,
            cr >= 0,
    ;
    // Above: t * u <= q * s, u * wr > s * s - wr and q * wr <= cr * s.
    assert(t * (s * s - wr) <= cr * (s * s)) by (nonlinear_arith)
        requires
            q * s == u * t + (q * s) % u,
            0 <= (q * s) % u < u,
            cr * s == wr * q + (cr * s) % wr,
            0 <= (cr * s) % wr < wr,
            s * s == wr * u + (s * s) % wr,
            0 <= (s * s) % wr < wr,
            u > 0,
            wr > 0,
            s > 0,
            t >= 0,
            q >= 0,
            cr >= 0,
            wr < s * s,
    ;
    if t > i64::MAX {
        assert((cr - i64::MAX - 1) * s <= 0) by (nonlinear_arith)
            requires
                cr <= i64::MAX,
                s > 0,
        ;
        assert(i64::MAX * (s * s - wr) <= t * (s * s - wr)) by (nonlinear_arith)
            requires
                i64::MAX < t,
                wr < s * s,
        ;
    }
}

/// With the depth test on, no stored depth ever grows, and no cell loses
/// its depth, whatever fragments are drawn.
pub proof fn lemma_depth_never_grows(
    frame: Frame,
    samples: Seq<Seq<Fixed>>,
    texture: Option<TextureModel>,
    decals: bool,
    cell: int,
)
    requires
        frame.wf(),
        0 <= cell < frame.depths.len(),
    ensures
        shade_all(frame, samples, texture, true, decals).wf(),
        shade_all(frame, samples, texture, true, decals).depths.len() == frame.depths.len(),
        frame.depths[cell] is Some ==> {
            let after = shade_all(frame, samples, texture, true, decals).depths[cell];
            after is Some && after.unwrap().raw <= frame.depths[cell].unwrap().raw
        },
    decreases samples.len(),
{
    if samples.len() > 0 {
        lemma_depth_never_grows(frame, samples.drop_last(), texture, decals, cell);
        let before = shade_all(frame, samples.drop_last(), texture, true, decals);
        let v = samples.last();
        if fragment_visible(before, v, true) {
            let x = v[X as int].to_u32_spec() as int;
            let y = v[Y as int].to_u32_spec() as int;
            assert(0 <= y * before.columns() && y * before.columns() + x < before.columns()
                * before.lines()) by (nonlinear_arith)
                requires
                    0 <= x < before.columns(),
                    0 <= y < before.lines(),
            ;
        }
    }
}

} // verus!
