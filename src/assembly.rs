use vstd::prelude::*;

use crate::barycentric::Weights;
use crate::raster::{
    fragments_view, line_fragments, ndc_pixel, rasterize_line, rasterize_triangle,
    triangle_fragments, Fragment, FragmentSpec,
};
use crate::viewport::{transform_coords_normalized_to_framebuffer, NdcPoint};

verus! {

/// How each triple of consecutive vertices is drawn.
#[derive(Clone, Copy, Debug, PartialEq, Eq, Structural)]
pub enum RangleMode {
    Triangles,
    Lines,
    Points,
}

/// A primitive over vertex positions, named by their indices.
#[derive(Clone, Copy, Debug, PartialEq, Eq, Structural)]
pub enum Primitive {
    Triangle(usize, usize, usize),
    Line(usize, usize),
    Point(usize),
}

/// The primitives drawn from the vertices `t`, `t + 1`, `t + 2`: one triangle,
/// the three lines of its outline, or its three points.
pub open spec fn triple_primitives(mode: RangleMode, t: usize) -> Seq<Primitive> {
    let (i, j, k) = (t, (t + 1) as usize, (t + 2) as usize);
    match mode {
        RangleMode::Triangles => seq![Primitive::Triangle(i, j, k)],
        RangleMode::Lines => seq![Primitive::Line(i, j), Primitive::Line(j, k), Primitive::Line(k, i)],
        RangleMode::Points => seq![Primitive::Point(i), Primitive::Point(j), Primitive::Point(k)],
    }
}

/// The primitives of the first `triples` vertex triples, in order.
pub open spec fn assembled(mode: RangleMode, triples: nat) -> Seq<Primitive>
    decreases triples,
{
    if triples == 0 {
        Seq::empty()
    } else {
        assembled(mode, (triples - 1) as nat) + triple_primitives(
            mode,
            (3 * (triples - 1)) as usize,
        )
    }
}

/// Groups `vertex_count` vertices into triples `(0, 1, 2)`, `(3, 4, 5)`, ... and
/// turns each into the primitives of `mode`.
pub fn assemble_primitives(mode: RangleMode, vertex_count: usize) -> (r: Vec<Primitive>)
    requires
        vertex_count % 3 == 0,
    ensures
        r@ == assembled(mode, (vertex_count / 3) as nat),
        forall|k: int| 0 <= k < r@.len() ==> primitive_in_range(#[trigger] r@[k], vertex_count as int),
{
    let mut out: Vec<Primitive> = Vec::new();
    let mut t: usize = 0;
    while t < vertex_count
        invariant
            vertex_count % 3 == 0,
            t % 3 == 0,
            t <= vertex_count,
            out@ == assembled(mode, (t / 3) as nat),
            forall|k: int| 0 <= k < out@.len() ==> primitive_in_range(#[trigger] out@[k], vertex_count as int),
        decreases vertex_count - t,
    {
        let ghost prev = out@;
        let (i, j, k) = (t, t + 1, t + 2);
        match mode {
            RangleMode::Triangles => {
                out.push(Primitive::Triangle(i, j, k));
            },
            RangleMode::Lines => {
                out.push(Primitive::Line(i, j));
                out.push(Primitive::Line(j, k));
                out.push(Primitive::Line(k, i));
            },
            RangleMode::Points => {
                out.push(Primitive::Point(i));
                out.push(Primitive::Point(j));
                out.push(Primitive::Point(k));
            },
        }
        assert(out@ =~= prev + triple_primitives(mode, t));
        assert((t + 3) / 3 == t / 3 + 1);
        assert(3 * ((t + 3) / 3 - 1) == t);
        t += 3;
    }
    out
}

/// Every vertex index of the primitive is below `n`.
pub open spec fn primitive_in_range(p: Primitive, n: int) -> bool {
    match p {
        Primitive::Triangle(i, j, k) => i < n && j < n && k < n,
        Primitive::Line(i, j) => i < n && j < n,
        Primitive::Point(i) => i < n,
    }
}

/// The fragments of one primitive over the given NDC positions, with weights
/// over the primitive's vertices in the order it names them.
pub open spec fn primitive_fragments(p: Primitive, pos: Seq<NdcPoint>, width: int, height: int) -> Seq<
    FragmentSpec,
> {
    match p {
        Primitive::Triangle(i, j, k) => triangle_fragments(
            ndc_pixel(pos[i as int], width, height),
            ndc_pixel(pos[j as int], width, height),
            ndc_pixel(pos[k as int], width, height),
        ),
        Primitive::Line(i, j) => line_fragments(pos[i as int], pos[j as int], width, height),
        Primitive::Point(i) => {
            let d = ndc_pixel(pos[i as int], width, height);
            seq![(d.0, d.1, (1, 0, 0, 1))]
        },
    }
}

/// The single fragment of a point primitive, on the pixel where it lands.
pub fn rasterize_point(p: NdcPoint, width: u16, height: u16) -> (r: Fragment)
    requires
        width >= 1,
        height >= 1,
    ensures
        r.spec_tuple() == (
            ndc_pixel(p, width as int, height as int).0,
            ndc_pixel(p, width as int, height as int).1,
            (1int, 0int, 0int, 1int),
        ),
        r.x < width,
        r.y < height,
{
    let (x, y) = transform_coords_normalized_to_framebuffer(p, width, height);
    Fragment { x, y, weights: Weights { a: 1, b: 0, c: 0, den: 1 } }
}

/// Rasterizes one primitive over the NDC positions of its vertices on a
/// `width` x `height` framebuffer. Every fragment lies on the framebuffer and
/// has weights in `[0, 1]` that sum to one.
pub fn rasterize_primitive(p: Primitive, positions: &Vec<NdcPoint>, width: u16, height: u16) -> (r: Vec<
    Fragment,
>)
    requires
        width >= 1,
        height >= 1,
        primitive_in_range(p, positions@.len() as int),
    ensures
        fragments_view(r@) == primitive_fragments(p, positions@, width as int, height as int),
        forall|i: int|
            0 <= i < r@.len() ==> {
                &&& (#[trigger] r@[i]).weights.is_unit()
                &&& r@[i].weights.is_inside()
                &&& r@[i].x < width
                &&& r@[i].y < height
            },
{
    match p {
        Primitive::Triangle(i, j, k) => {
            let v1 = transform_coords_normalized_to_framebuffer(positions[i], width, height);
            let v2 = transform_coords_normalized_to_framebuffer(positions[j], width, height);
            let v3 = transform_coords_normalized_to_framebuffer(positions[k], width, height);
            rasterize_triangle(v1, v2, v3)
        },
        Primitive::Line(i, j) => rasterize_line(positions[i], positions[j], width, height),
        Primitive::Point(i) => {
            let f = rasterize_point(positions[i], width, height);
            let mut out: Vec<Fragment> = Vec::new();
            out.push(f);
            assert(fragments_view(out@) =~= seq![f.spec_tuple()]);
            out
        },
    }
}

} // verus!
