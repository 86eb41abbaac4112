//! Scene commands: filling the attribute buffers from the numbers of a
//! command, and drawing the primitives that a draw call names.

use crate::color::Color;
use crate::depth_image::{DepthImage, Frame};
use crate::draw::{
    draw_point, draw_point_spec, draw_triangle, draw_triangle_spec, texture_view,
};
use crate::fixed::Fixed;
use crate::matrix::Matrix;
use crate::point::{gathered, vertex_fields, Point, Points};
use crate::position::Position;
use crate::texture::{Texture, TextureModel};
use vstd::prelude::*;

verus! {

/// The number of values per vertex that an attribute command announces is
/// not one that the attribute can have.
#[derive(Clone, Copy, Debug, PartialEq, Eq, Structural)]
pub struct InvalidSize;

/// The number of values per vertex that the command announces: the integer
/// part of its first number.
pub open spec fn announced_size(args: Seq<Fixed>) -> int {
    args[0].to_u32_spec() as int
}

/// The number of complete vertices among the numbers of an attribute
/// command with `size` values per vertex.
pub open spec fn vertex_count(args: Seq<Fixed>, size: int) -> nat {
    ((args.len() - 1) / size) as nat
}

/// The values of the vertex `k` of an attribute command with `size` values
/// per vertex.
pub open spec fn vertex_values(args: Seq<Fixed>, size: int, k: int) -> Seq<Fixed> {
    args.subrange(1 + k * size, 1 + (k + 1) * size)
}

/// What a `position` command with the numbers `args` puts into the
/// position buffer.
pub open spec fn positions_of(args: Seq<Fixed>) -> Seq<Position> {
    let size = announced_size(args);
    Seq::new(vertex_count(args, size), |k: int| Position::from_seq(vertex_values(args, size, k)))
}

/// What a `color` command with the numbers `args` puts into the colour
/// buffer.
pub open spec fn colors_of(args: Seq<Fixed>) -> Seq<Color> {
    let size = announced_size(args);
    Seq::new(vertex_count(args, size), |k: int| Color::from_seq(vertex_values(args, size, k)))
}

/// What a `texcoord` command with the numbers `args` puts into the
/// texture-coordinate buffer.
pub open spec fn texcoords_of(args: Seq<Fixed>) -> Seq<Seq<Fixed>> {
    Seq::new(vertex_count(args, 2), |k: int| vertex_values(args, 2, k))
}

/// The values of the vertex `k`, copied out of `args`.
fn copy_vertex(args: &Vec<Fixed>, size: usize, k: usize) -> (values: Vec<Fixed>)
    requires
        1 <= size,
        1 + (k + 1) * size <= args.len(),
    ensures
        values@ == vertex_values(args@, size as int, k as int),
        values@.len() == size,
{
    assert(k * size >= 0 && (k + 1) * size == k * size + size) by (nonlinear_arith)
        requires
            k >= 0,
            size >= 1,
    ;
    let start: usize = 1 + k * size;
    let mut values: Vec<Fixed> = Vec::new();
    let mut i: usize = 0;
    while i < size
        invariant
            i <= size,
            start + size <= args.len(),
            values@ == args@.subrange(start as int, start + i),
        decreases size - i,
    {
        values.push(args[start + i]);
        assert(values@ =~= args@.subrange(start as int, start + i + 1));
        i += 1;
    }
    values
}

/// The number of complete vertices among the numbers of a command.
fn count_vertices(args: &Vec<Fixed>, size: usize) -> (count: usize)
    requires
        1 <= size,
        1 <= args.len(),
    ensures
        count == vertex_count(args@, size as int),
        1 + count * size <= args.len(),
{
    let count = (args.len() - 1) / size;
    proof {
        vstd::arithmetic::div_mod::lemma_fundamental_div_mod(args.len() - 1, size as int);
        assert(count * size == size * count) by (nonlinear_arith);
    }
    count
}

/// Reads the positions of a `position` command: its first number is the
/// number of coordinates per vertex, from one to four, and the coordinates
/// follow vertex by vertex. Numbers at the end that do not make up a whole
/// vertex are ignored.
pub fn read_positions(args: &Vec<Fixed>) -> (r: Result<Vec<Position>, InvalidSize>)
    requires
        args.len() >= 1,
    ensures
        r is Ok <==> 1 <= announced_size(args@) <= 4,
        r is Ok ==> r.unwrap()@ == positions_of(args@),
{
    let size = args[0].to_u32() as usize;
    if size < 1 || size > 4 {
        return Err(InvalidSize);
    }
    let count = count_vertices(args, size);
    let mut result: Vec<Position> = Vec::new();
    let mut k: usize = 0;
    while k < count
        invariant
            1 <= size <= 4,
            size == announced_size(args@),
            count == vertex_count(args@, size as int),
            1 + count * size <= args.len(),
            k <= count,
            result@.len() == k,
            forall|j: int| 0 <= j < k ==> result@[j] == positions_of(args@)[j],
        decreases count - k,
    {
        assert((k + 1) * size <= count * size) by (nonlinear_arith)
            requires
                k + 1 <= count,
                size >= 0,
        ;
        let values = copy_vertex(args, size, k);
        result.push(Position::new(values));
        k += 1;
    }
    assert(result@ =~= positions_of(args@));
    Ok(result)
}

/// Reads the colours of a `color` command: its first number is the number
/// of channels per vertex, three or four, and the channels follow vertex by
/// vertex. Numbers at the end that do not make up a whole vertex are
/// ignored.
pub fn read_colors(args: &Vec<Fixed>) -> (r: Result<Vec<Color>, InvalidSize>)
    requires
        args.len() >= 1,
    ensures
        r is Ok <==> 3 <= announced_size(args@) <= 4,
        r is Ok ==> r.unwrap()@ == colors_of(args@),
{
    let size = args[0].to_u32() as usize;
    if size < 3 || size > 4 {
        return Err(InvalidSize);
    }
    let count = count_vertices(args, size);
    let mut result: Vec<Color> = Vec::new();
    let mut k: usize = 0;
    while k < count
        invariant
            3 <= size <= 4,
            size == announced_size(args@),
            count == vertex_count(args@, size as int),
            1 + count * size <= args.len(),
            k <= count,
            result@.len() == k,
            forall|j: int| 0 <= j < k ==> result@[j] == colors_of(args@)[j],
        decreases count - k,
    {
        assert((k + 1) * size <= count * size) by (nonlinear_arith)
            requires
                k + 1 <= count,
                size >= 0,
        ;
        let values = copy_vertex(args, size, k);
        result.push(Color::new(values));
        k += 1;
    }
    assert(result@ =~= colors_of(args@));
    Ok(result)
}

/// Reads the texture coordinates of a `texcoord` command: its first number
/// is the number of coordinates per vertex, which must be two, and the
/// coordinates follow vertex by vertex. A number at the end that does not
/// make up a whole vertex is ignored.
pub fn read_texcoords(args: &Vec<Fixed>) -> (r: Result<Vec<[Fixed; 2]>, InvalidSize>)
    requires
        args.len() >= 1,
    ensures
        r is Ok <==> announced_size(args@) == 2,
        r is Ok ==> r.unwrap()@.len() == texcoords_of(args@).len() && forall|k: int|
            0 <= k < r.unwrap()@.len() ==> (#[trigger] r.unwrap()@[k])@ == texcoords_of(args@)[k],
{
    let size = args[0].to_u32() as usize;
    if size != 2 {
        return Err(InvalidSize);
    }
    let count = count_vertices(args, size);
    let mut result: Vec<[Fixed; 2]> = Vec::new();
    let mut k: usize = 0;
    while k < count
        invariant
            size == 2,
            count == vertex_count(args@, 2),
            1 + count * size <= args.len(),
            k <= count,
            result@.len() == k,
            forall|j: int| 0 <= j < k ==> (#[trigger] result@[j])@ == texcoords_of(args@)[j],
        decreases count - k,
    {
        let pair = [args[1 + 2 * k], args[2 + 2 * k]];
        assert(pair@ =~= vertex_values(args@, 2, k as int));
        result.push(pair);
        k += 1;
    }
    Ok(result)
}

/// Reads the point sizes of a `pointsize` command: its first number is the
/// number of values per vertex, which must be one, and the sizes follow.
pub fn read_pointsizes(args: &Vec<Fixed>) -> (r: Result<Vec<Fixed>, InvalidSize>)
    requires
        args.len() >= 1,
    ensures
        r is Ok <==> announced_size(args@) == 1,
        r is Ok ==> r.unwrap()@ == args@.skip(1),
{
    if args[0].to_u32() != 1 {
        return Err(InvalidSize);
    }
    let mut result: Vec<Fixed> = Vec::new();
    let mut i: usize = 1;
    while i < args.len()
        invariant
            1 <= i <= args.len(),
            result@ == args@.subrange(1, i as int),
        decreases args.len() - i,
    {
        result.push(args[i]);
        assert(result@ =~= args@.subrange(1, i + 1));
        i += 1;
    }
    assert(args@.subrange(1, args.len() as int) =~= args@.skip(1));
    Ok(result)
}

/// The framebuffer after the first `n` triangles of a draw call over
/// consecutive vertices were drawn: the triangle `t` has the vertices
/// `first + 3 * t` to `first + 3 * t + 2`.
pub open spec fn arrays_triangles_spec(
    frame: Frame,
    positions: Seq<Position>,
    colors: Seq<Color>,
    texcoords: Seq<[Fixed; 2]>,
    first: int,
    n: nat,
    m: Matrix,
    texture: Option<TextureModel>,
    depth: bool,
    hyp: bool,
    cull: bool,
    decals: bool,
) -> Frame
    decreases n,
{
    if n == 0 {
        frame
    } else {
        draw_triangle_spec(
            arrays_triangles_spec(
                frame,
                positions,
                colors,
                texcoords,
                first,
                (n - 1) as nat,
                m,
                texture,
                depth,
                hyp,
                cull,
                decals,
            ),
            gathered(positions, colors, texcoords, first + 3 * (n - 1), first + 3 * n),
            m,
            texture,
            depth,
            hyp,
            cull,
            decals,
        )
    }
}

/// Draws the triangle of the vertices `start`, `start + 1` and
/// `start + 2`.
fn draw_array_triangle(
    img: &mut DepthImage,
    position_buf: &Vec<Position>,
    color_buf: &Vec<Color>,
    texcoord_buf: &Vec<[Fixed; 2]>,
    start: usize,
    uniform_matrix: &Matrix,
    texture: &Option<Texture>,
    depth: bool,
    hyp: bool,
    cull: bool,
    decals: bool,
)
    requires
        old(img).wf(),
        texture is Some ==> texture.unwrap().wf(),
        start + 3 <= position_buf.len(),
    ensures
        final(img).wf(),
        final(img)@ == draw_triangle_spec(
            old(img)@,
            gathered(position_buf@, color_buf@, texcoord_buf@, start as int, start + 3),
            *uniform_matrix,
            texture_view(*texture),
            depth,
            hyp,
            cull,
            decals,
        ),
{
    let mut points = Points::<10>::from(position_buf, color_buf, texcoord_buf, start, start + 3);
    draw_triangle(img, &mut points, uniform_matrix, texture, depth, hyp, cull, decals);
}

/// Draws `count / 3` triangles from consecutive vertices, the first of
/// which is the vertex `first`.
#[verifier::rlimit(30)]
pub fn draw_arrays_triangles(
    img: &mut DepthImage,
    position_buf: &Vec<Position>,
    color_buf: &Vec<Color>,
    texcoord_buf: &Vec<[Fixed; 2]>,
    first: usize,
    count: usize,
    uniform_matrix: &Matrix,
    texture: &Option<Texture>,
    depth: bool,
    hyp: bool,
    cull: bool,
    decals: bool,
)
    requires
        old(img).wf(),
        texture is Some ==> texture.unwrap().wf(),
        first + 3 * (count / 3) <= position_buf.len(),
    ensures
        final(img).wf(),
        final(img)@ == arrays_triangles_spec(
            old(img)@,
            position_buf@,
            color_buf@,
            texcoord_buf@,
            first as int,
            (count / 3) as nat,
            *uniform_matrix,
            texture_view(*texture),
            depth,
            hyp,
            cull,
            decals,
        ),
{
    let triangles = count / 3;
    let mut t: usize = 0;
    while t < triangles
        invariant
            img.wf(),
            texture is Some ==> texture.unwrap().wf(),
            first + 3 * triangles <= position_buf.len(),
            t <= triangles,
            img@ == arrays_triangles_spec(
                old(img)@,
                position_buf@,
                color_buf@,
                texcoord_buf@,
                first as int,
                t as nat,
                *uniform_matrix,
                texture_view(*texture),
                depth,
                hyp,
                cull,
                decals,
            ),
        decreases triangles - t,
    {
        let ghost before = img@;
        draw_array_triangle(
            img,
            position_buf,
            color_buf,
            texcoord_buf,
            first + 3 * t,
            uniform_matrix,
            texture,
            depth,
            hyp,
            cull,
            decals,
        );
        t += 1;
        assert(first + 3 * ((t as nat) - 1) == first + 3 * (t - 1));
        assert(arrays_triangles_spec(
            old(img)@,
            position_buf@,
            color_buf@,
            texcoord_buf@,
            first as int,
            t as nat,
            *uniform_matrix,
            texture_view(*texture),
            depth,
            hyp,
            cull,
            decals,
        ) == draw_triangle_spec(
            before,
            gathered(
                position_buf@,
                color_buf@,
                texcoord_buf@,
                first + 3 * (t - 1),
                first + 3 * (t - 1) + 3,
            ),
            *uniform_matrix,
            texture_view(*texture),
            depth,
            hyp,
            cull,
            decals,
        ));
    }
}

/// The entries of `buf` at those of the places `indices` that lie inside
/// `buf`, in the order of `indices`.
pub open spec fn picked<E>(buf: Seq<E>, indices: Seq<usize>) -> Seq<E>
    decreases indices.len(),
{
    if indices.len() == 0 {
        Seq::empty()
    } else if indices.last() < buf.len() {
        picked(buf, indices.drop_last()).push(buf[indices.last() as int])
    } else {
        picked(buf, indices.drop_last())
    }
}

/// The triangle whose three vertices the index buffer names from the place
/// `start` on. Its positions are those that the indices name. Its colours
/// and texture coordinates are those of the named vertices that have any,
/// handed to the three vertices from the first on; a vertex that is left
/// without gets the default.
pub open spec fn element_triangle(
    positions: Seq<Position>,
    colors: Seq<Color>,
    texcoords: Seq<[Fixed; 2]>,
    elements: Seq<usize>,
    start: int,
) -> Seq<Seq<Fixed>> {
    let indices = elements.subrange(start, start + 3);
    gathered(picked(positions, indices), picked(colors, indices), picked(texcoords, indices), 0, 3)
}

/// The framebuffer after the first `n` triangles of a draw call over the
/// index buffer were drawn: the triangle `t` has the vertices that the
/// index buffer names at the places `offset + 3 * t` to
/// `offset + 3 * t + 2`.
pub open spec fn elements_triangles_spec(
    frame: Frame,
    positions: Seq<Position>,
    colors: Seq<Color>,
    texcoords: Seq<[Fixed; 2]>,
    elements: Seq<usize>,
    offset: int,
    n: nat,
    m: Matrix,
    texture: Option<TextureModel>,
    depth: bool,
    hyp: bool,
    cull: bool,
    decals: bool,
) -> Frame
    decreases n,
{
    if n == 0 {
        frame
    } else {
        draw_triangle_spec(
            elements_triangles_spec(
                frame,
                positions,
                colors,
                texcoords,
                elements,
                offset,
                (n - 1) as nat,
                m,
                texture,
                depth,
                hyp,
                cull,
                decals,
            ),
            element_triangle(positions, colors, texcoords, elements, offset + 3 * (n - 1)),
            m,
            texture,
            depth,
            hyp,
            cull,
            decals,
        )
    }
}

/// Draws the triangle whose three vertices the index buffer names from the
/// place `start` on.
fn draw_element_triangle(
    img: &mut DepthImage,
    position_buf: &Vec<Position>,
    color_buf: &Vec<Color>,
    texcoord_buf: &Vec<[Fixed; 2]>,
    element_buf: &Vec<usize>,
    start: usize,
    uniform_matrix: &Matrix,
    texture: &Option<Texture>,
    depth: bool,
    hyp: bool,
    cull: bool,
    decals: bool,
)
    requires
        old(img).wf(),
        texture is Some ==> texture.unwrap().wf(),
        start + 3 <= element_buf.len(),
        forall|i: int| start <= i < start + 3 ==> (#[trigger] element_buf[i]) < position_buf.len(),
    ensures
        final(img).wf(),
        final(img)@ == draw_triangle_spec(
            old(img)@,
            element_triangle(
                position_buf@,
                color_buf@,
                texcoord_buf@,
                element_buf@,
                start as int,
            ),
            *uniform_matrix,
            texture_view(*texture),
            depth,
            hyp,
            cull,
            decals,
        ),
{
    let ghost indices = element_buf@.subrange(start as int, start + 3);
    let mut positions: Vec<Position> = Vec::new();
    let mut colors: Vec<Color> = Vec::new();
    let mut texcoords: Vec<[Fixed; 2]> = Vec::new();
    let mut k: usize = 0;
    while k < 3
        invariant
            k <= 3,
            start + 3 <= element_buf.len(),
            indices == element_buf@.subrange(start as int, start + 3),
            forall|i: int|
                start <= i < start + 3 ==> (#[trigger] element_buf[i]) < position_buf.len(),
            positions@ == picked(position_buf@, indices.take(k as int)),
            colors@ == picked(color_buf@, indices.take(k as int)),
            texcoords@ == picked(texcoord_buf@, indices.take(k as int)),
            positions@.len() == k,
        decreases 3 - k,
    {
        let index = element_buf[start + k];
        proof {
            assert(indices[k as int] == index);
            assert(indices.take(k + 1).drop_last() =~= indices.take(k as int));
            assert(indices.take(k + 1).last() == index);
        }
        positions.push(position_buf[index]);
        if index < color_buf.len() {
            colors.push(color_buf[index]);
        }
        if index < texcoord_buf.len() {
            texcoords.push(texcoord_buf[index]);
        }
        k += 1;
    }
    assert(indices.take(3) =~= indices);
    let mut points = Points::<10>::from(&positions, &colors, &texcoords, 0, 3);
    draw_triangle(img, &mut points, uniform_matrix, texture, depth, hyp, cull, decals);
}

/// Draws `count / 3` triangles whose vertices the index buffer names from
/// the place `offset` on.
#[verifier::rlimit(30)]
pub fn draw_elements_triangles(
    img: &mut DepthImage,
    position_buf: &Vec<Position>,
    color_buf: &Vec<Color>,
    texcoord_buf: &Vec<[Fixed; 2]>,
    element_buf: &Vec<usize>,
    count: usize,
    offset: usize,
    uniform_matrix: &Matrix,
    texture: &Option<Texture>,
    depth: bool,
    hyp: bool,
    cull: bool,
    decals: bool,
)
    requires
        old(img).wf(),
        texture is Some ==> texture.unwrap().wf(),
        offset + 3 * (count / 3) <= element_buf.len(),
        forall|i: int|
            offset <= i < offset + 3 * (count / 3) ==> (#[trigger] element_buf[i])
                < position_buf.len(),
    ensures
        final(img).wf(),
        final(img)@ == elements_triangles_spec(
            old(img)@,
            position_buf@,
            color_buf@,
            texcoord_buf@,
            element_buf@,
            offset as int,
            (count / 3) as nat,
            *uniform_matrix,
            texture_view(*texture),
            depth,
            hyp,
            cull,
            decals,
        ),
{
    let triangles = count / 3;
    let mut t: usize = 0;
    while t < triangles
        invariant
            img.wf(),
            texture is Some ==> texture.unwrap().wf(),
            offset + 3 * triangles <= element_buf.len(),
            forall|i: int|
                offset <= i < offset + 3 * triangles ==> (#[trigger] element_buf[i])
                    < position_buf.len(),
            t <= triangles,
            img@ == elements_triangles_spec(
                old(img)@,
                position_buf@,
                color_buf@,
                texcoord_buf@,
                element_buf@,
                offset as int,
                t as nat,
                *uniform_matrix,
                texture_view(*texture),
                depth,
                hyp,
                cull,
                decals,
            ),
        decreases triangles - t,
    {
        let ghost before = img@;
        draw_element_triangle(
            img,
            position_buf,
            color_buf,
            texcoord_buf,
            element_buf,
            offset + 3 * t,
            uniform_matrix,
            texture,
            depth,
            hyp,
            cull,
            decals,
        );
        t += 1;
        assert(offset + 3 * ((t as nat) - 1) == offset + 3 * (t - 1));
        assert(elements_triangles_spec(
            old(img)@,
            position_buf@,
            color_buf@,
            texcoord_buf@,
            element_buf@,
            offset as int,
            t as nat,
            *uniform_matrix,
            texture_view(*texture),
            depth,
            hyp,
            cull,
            decals,
        ) == draw_triangle_spec(
            before,
            element_triangle(
                position_buf@,
                color_buf@,
                texcoord_buf@,
                element_buf@,
                offset + 3 * (t - 1),
            ),
            *uniform_matrix,
            texture_view(*texture),
            depth,
            hyp,
            cull,
            decals,
        ));
    }
}

/// The point-sprite vertex with the index `j`: its position and point size
/// from the buffers, its colour likewise or, beyond the end of the colour
/// buffer, black with no opacity, and the texture coordinates `(0, 0)`.
pub open spec fn sprite_vertex(
    positions: Seq<Position>,
    colors: Seq<Color>,
    pointsizes: Seq<Fixed>,
    j: int,
) -> Seq<Fixed> {
    vertex_fields(
        positions[j],
        if j < colors.len() {
            colors[j]
        } else {
            Color::absent()
        },
        seq![Fixed::from_int(0), Fixed::from_int(0)],
    ).push(pointsizes[j])
}

/// The framebuffer after the point sprites of the vertices `first` to
/// `first + n - 1` were drawn in order.
pub open spec fn arrays_points_spec(
    frame: Frame,
    positions: Seq<Position>,
    colors: Seq<Color>,
    pointsizes: Seq<Fixed>,
    first: int,
    n: nat,
    m: Matrix,
    texture: Option<TextureModel>,
    depth: bool,
    decals: bool,
) -> Frame
    decreases n,
{
    if n == 0 {
        frame
    } else {
        draw_point_spec(
            arrays_points_spec(
                frame,
                positions,
                colors,
                pointsizes,
                first,
                (n - 1) as nat,
                m,
                texture,
                depth,
                decals,
            ),
            sprite_vertex(positions, colors, pointsizes, first + n - 1),
            m,
            texture,
            depth,
            decals,
        )
    }
}

/// Draws the point sprite of the vertex `j`.
fn draw_sprite(
    img: &mut DepthImage,
    position_buf: &Vec<Position>,
    color_buf: &Vec<Color>,
    pointsize_buf: &Vec<Fixed>,
    j: usize,
    uniform_matrix: &Matrix,
    texture: &Option<Texture>,
    depth: bool,
    decals: bool,
)
    requires
        old(img).wf(),
        texture is Some ==> texture.unwrap().wf(),
        j < position_buf.len(),
        j < pointsize_buf.len(),
    ensures
        final(img).wf(),
        final(img)@ == draw_point_spec(
            old(img)@,
            sprite_vertex(position_buf@, color_buf@, pointsize_buf@, j as int),
            *uniform_matrix,
            texture_view(*texture),
            depth,
            decals,
        ),
{
    let color = if j < color_buf.len() {
        color_buf[j]
    } else {
        Color::none()
    };
    let texcoord = [Fixed::zero(), Fixed::zero()];
    assert(texcoord@ =~= seq![Fixed::from_int(0), Fixed::from_int(0)]);
    let mut point = Point::<11>::from_sprite(position_buf[j], color, texcoord, pointsize_buf[j]);
    draw_point(img, &mut point, uniform_matrix, texture, depth, decals);
}

/// Draws the point sprites of `count` consecutive vertices, the first of
/// which is the vertex `first`.
#[verifier::rlimit(30)]
pub fn draw_arrays_points(
    img: &mut DepthImage,
    position_buf: &Vec<Position>,
    color_buf: &Vec<Color>,
    pointsize_buf: &Vec<Fixed>,
    first: usize,
    count: usize,
    uniform_matrix: &Matrix,
    texture: &Option<Texture>,
    depth: bool,
    decals: bool,
)
    requires
        old(img).wf(),
        texture is Some ==> texture.unwrap().wf(),
        first + count <= position_buf.len(),
        first + count <= pointsize_buf.len(),
    ensures
        final(img).wf(),
        final(img)@ == arrays_points_spec(
            old(img)@,
            position_buf@,
            color_buf@,
            pointsize_buf@,
            first as int,
            count as nat,
            *uniform_matrix,
            texture_view(*texture),
            depth,
            decals,
        ),
{
    let mut n: usize = 0;
    while n < count
        invariant
            img.wf(),
            texture is Some ==> texture.unwrap().wf(),
            first + count <= position_buf.len(),
            first + count <= pointsize_buf.len(),
            n <= count,
            img@ == arrays_points_spec(
                old(img)@,
                position_buf@,
                color_buf@,
                pointsize_buf@,
                first as int,
                n as nat,
                *uniform_matrix,
                texture_view(*texture),
                depth,
                decals,
            ),
        decreases count - n,
    {
        let ghost before = img@;
        draw_sprite(
            img,
            position_buf,
            color_buf,
            pointsize_buf,
            first + n,
            uniform_matrix,
            texture,
            depth,
            decals,
        );
        n += 1;
        assert(first + (n as nat) - 1 == first + n - 1);
        assert(arrays_points_spec(
            old(img)@,
            position_buf@,
            color_buf@,
            pointsize_buf@,
            first as int,
            n as nat,
            *uniform_matrix,
            texture_view(*texture),
            depth,
            decals,
        ) == draw_point_spec(
            before,
            sprite_vertex(position_buf@, color_buf@, pointsize_buf@, first + n - 1),
            *uniform_matrix,
            texture_view(*texture),
            depth,
            decals,
        ));
    }
}

} // verus!
