use vstd::prelude::*;

use crate::barycentric::{barycentric_spec, transform_coords_framebuffer_to_barycentric, Weights};
use crate::viewport::{
    lemma_ndc_to_pixel_antitone, ndc_to_pixel, round_div, transform_coords_normalized_to_framebuffer,
    NdcPoint,
};

verus! {

/// A candidate pixel produced by rasterization, with its interpolation
/// weights over the vertices of its primitive.
#[derive(Clone, Copy, Debug, PartialEq, Eq, Structural)]
pub struct Fragment {
    pub x: u16,
    pub y: u16,
    pub weights: Weights,
}

/// A fragment as plain integers: pixel and weights `(a, b, c, den)`.
pub type FragmentSpec = (int, int, (int, int, int, int));

impl Fragment {
    pub open spec fn spec_tuple(self) -> FragmentSpec {
        (self.x as int, self.y as int, self.weights.spec_tuple())
    }
}

/// The fragments of a sequence, as plain integers.
pub open spec fn fragments_view(s: Seq<Fragment>) -> Seq<FragmentSpec> {
    s.map_values(|f: Fragment| f.spec_tuple())
}

pub open spec fn min3(a: int, b: int, c: int) -> int {
    if a <= b && a <= c {
        a
    } else if b <= c {
        b
    } else {
        c
    }
}

pub open spec fn max3(a: int, b: int, c: int) -> int {
    if a >= b && a >= c {
        a
    } else if b >= c {
        b
    } else {
        c
    }
}

pub open spec fn weights_inside(w: (int, int, int, int)) -> bool {
    &&& 0 <= w.0 <= w.3
    &&& 0 <= w.1 <= w.3
    &&& 0 <= w.2 <= w.3
}

/// The fragment that pixel `(px, py)` yields for the triangle, if it lies inside.
pub open spec fn triangle_pixel(
    px: int,
    py: int,
    v1: (int, int),
    v2: (int, int),
    v3: (int, int),
) -> Option<FragmentSpec> {
    match barycentric_spec(px, py, v1.0, v1.1, v2.0, v2.1, v3.0, v3.1) {
        Some(w) => if weights_inside(w) {
            Some((px, py, w))
        } else {
            None
        },
        None => None,
    }
}

/// The fragments of the first `n` pixels of row `y`, starting at column `x0`.
pub open spec fn triangle_row(
    x0: int,
    y: int,
    n: int,
    v1: (int, int),
    v2: (int, int),
    v3: (int, int),
) -> Seq<FragmentSpec> {
    Seq::new(n as nat, |i: int| (x0 + i, y)).filter_map(
        |p: (int, int)| triangle_pixel(p.0, p.1, v1, v2, v3),
    )
}

/// The fragments of the first `rows` rows of the box whose top-left corner is
/// `(x0, y0)` and whose rows are `width` pixels wide.
pub open spec fn triangle_rows(
    x0: int,
    y0: int,
    width: int,
    rows: nat,
    v1: (int, int),
    v2: (int, int),
    v3: (int, int),
) -> Seq<FragmentSpec>
    decreases rows,
{
    if rows == 0 {
        Seq::empty()
    } else {
        triangle_rows(x0, y0, width, (rows - 1) as nat, v1, v2, v3) + triangle_row(
            x0,
            y0 + rows - 1,
            width,
            v1,
            v2,
            v3,
        )
    }
}

/// The fragments of a triangle given by its vertex pixels: every pixel of its
/// bounding box, in row-major order, whose barycentric coordinates all lie in
/// `[0, 1]`.
pub open spec fn triangle_fragments(v1: (int, int), v2: (int, int), v3: (int, int)) -> Seq<
    FragmentSpec,
> {
    let x0 = min3(v1.0, v2.0, v3.0);
    let y0 = min3(v1.1, v2.1, v3.1);
    let width = max3(v1.0, v2.0, v3.0) - x0 + 1;
    let rows = max3(v1.1, v2.1, v3.1) - y0 + 1;
    triangle_rows(x0, y0, width, rows as nat, v1, v2, v3)
}

proof fn lemma_row_step(
    x0: int,
    y: int,
    n: int,
    v1: (int, int),
    v2: (int, int),
    v3: (int, int),
)
    requires
        n >= 0,
    ensures
        triangle_row(x0, y, n + 1, v1, v2, v3) == triangle_row(x0, y, n, v1, v2, v3) + match triangle_pixel(
            x0 + n,
            y,
            v1,
            v2,
            v3,
        ) {
            Some(f) => seq![f],
            None => Seq::<FragmentSpec>::empty(),
        },
{
    let cells = Seq::new((n + 1) as nat, |i: int| (x0 + i, y));
    assert(cells.drop_last() =~= Seq::new(n as nat, |i: int| (x0 + i, y)));
    assert(cells.last() == (x0 + n, y));
}

/// A triangle whose three vertices fall on one pixel yields exactly one
/// fragment, on that pixel, with a third of the weight on each vertex.
pub proof fn lemma_degenerate_triangle(p: (int, int))
    ensures
        triangle_fragments(p, p, p) == seq![(p.0, p.1, (1int, 1int, 1int, 3int))],
{
    let f = |c: (int, int)| triangle_pixel(c.0, c.1, p, p, p);
    let cells = Seq::new(1, |i: int| (p.0 + i, p.1));
    assert(cells.drop_last() =~= Seq::<(int, int)>::empty());
    assert(cells.last() == (p.0, p.1));
    assert(Seq::<(int, int)>::empty().filter_map(f) =~= Seq::<FragmentSpec>::empty());
    assert(triangle_row(p.0, p.1, 1, p, p, p) =~= seq![(p.0, p.1, (1int, 1int, 1int, 3int))]);
    assert(triangle_rows(p.0, p.1, 1, 0, p, p, p) =~= Seq::<FragmentSpec>::empty());
    assert(triangle_rows(p.0, p.1, 1, 1, p, p, p) =~= Seq::<FragmentSpec>::empty() + triangle_row(
        p.0,
        p.1,
        1,
        p,
        p,
        p,
    ));
}

fn u16_min(a: u16, b: u16) -> (r: u16)
    ensures
        r == if a <= b { a } else { b },
{
    if a <= b {
        a
    } else {
        b
    }
}

fn u16_max(a: u16, b: u16) -> (r: u16)
    ensures
        r == if a >= b { a } else { b },
{
    if a >= b {
        a
    } else {
        b
    }
}

/// Rasterizes a triangle given by its three vertex pixels: the fragments are
/// exactly `triangle_fragments`, in row-major order over the bounding box, each
/// inside the box, with weights that sum to one.
pub fn rasterize_triangle(v1: (u16, u16), v2: (u16, u16), v3: (u16, u16)) -> (r: Vec<Fragment>)
    ensures
        fragments_view(r@) == triangle_fragments(
            (v1.0 as int, v1.1 as int),
            (v2.0 as int, v2.1 as int),
            (v3.0 as int, v3.1 as int),
        ),
        forall|i: int|
            0 <= i < r@.len() ==> {
                &&& (#[trigger] r@[i]).weights.is_unit()
                &&& r@[i].weights.is_inside()
                &&& min3(v1.0 as int, v2.0 as int, v3.0 as int) <= r@[i].x <= max3(
                    v1.0 as int,
                    v2.0 as int,
                    v3.0 as int,
                )
                &&& min3(v1.1 as int, v2.1 as int, v3.1 as int) <= r@[i].y <= max3(
                    v1.1 as int,
                    v2.1 as int,
                    v3.1 as int,
                )
            },
{
    let ghost sv1 = (v1.0 as int, v1.1 as int);
    let ghost sv2 = (v2.0 as int, v2.1 as int);
    let ghost sv3 = (v3.0 as int, v3.1 as int);
    let x_min = u16_min(u16_min(v1.0, v2.0), v3.0);
    let x_max = u16_max(u16_max(v1.0, v2.0), v3.0);
    let y_min = u16_min(u16_min(v1.1, v2.1), v3.1);
    let y_max = u16_max(u16_max(v1.1, v2.1), v3.1);
    let ghost width = x_max - x_min + 1;
    assert(x_min == min3(sv1.0, sv2.0, sv3.0));
    assert(x_max == max3(sv1.0, sv2.0, sv3.0));
    assert(y_min == min3(sv1.1, sv2.1, sv3.1));
    assert(y_max == max3(sv1.1, sv2.1, sv3.1));
    let mut out: Vec<Fragment> = Vec::new();
    let mut fy: u32 = y_min as u32;
    while fy <= y_max as u32
        invariant
            y_min <= fy <= y_max as int + 1,
            x_min <= x_max,
            sv1 == (v1.0 as int, v1.1 as int),
            sv2 == (v2.0 as int, v2.1 as int),
            sv3 == (v3.0 as int, v3.1 as int),
            width == x_max - x_min + 1,
            fragments_view(out@) == triangle_rows(
                x_min as int,
                y_min as int,
                width,
                (fy - y_min) as nat,
                sv1,
                sv2,
                sv3,
            ),
            forall|i: int|
                0 <= i < out@.len() ==> {
                    &&& (#[trigger] out@[i]).weights.is_unit()
                    &&& out@[i].weights.is_inside()
                    &&& x_min <= out@[i].x <= x_max
                    &&& y_min <= out@[i].y < fy
                },
        decreases y_max as int + 1 - fy,
    {
        let ghost before = fragments_view(out@);
        let mut fx: u32 = x_min as u32;
        while fx <= x_max as u32
            invariant
                y_min <= fy <= y_max,
                x_min <= fx <= x_max as int + 1,
                sv1 == (v1.0 as int, v1.1 as int),
                sv2 == (v2.0 as int, v2.1 as int),
                sv3 == (v3.0 as int, v3.1 as int),
                fragments_view(out@) == before + triangle_row(
                    x_min as int,
                    fy as int,
                    fx - x_min,
                    sv1,
                    sv2,
                    sv3,
                ),
                forall|i: int|
                    0 <= i < out@.len() ==> {
                        &&& (#[trigger] out@[i]).weights.is_unit()
                        &&& out@[i].weights.is_inside()
                        &&& x_min <= out@[i].x <= x_max
                        &&& y_min <= out@[i].y <= fy
                    },
            decreases x_max as int + 1 - fx,
        {
            proof {
                lemma_row_step(x_min as int, fy as int, fx - x_min, sv1, sv2, sv3);
            }
            let bary = transform_coords_framebuffer_to_barycentric(
                fx as u16,
                fy as u16,
                v1.0,
                v1.1,
                v2.0,
                v2.1,
                v3.0,
                v3.1,
            );
            let ghost cell = triangle_pixel(fx as int, fy as int, sv1, sv2, sv3);
            assert((fx as u16) as int == fx as int);
            assert((fy as u16) as int == fy as int);
            if let Some(w) = bary {
                if 0 <= w.a && w.a <= w.den && 0 <= w.b && w.b <= w.den && 0 <= w.c && w.c
                    <= w.den {
                    let f = Fragment { x: fx as u16, y: fy as u16, weights: w };
                    assert(cell == Some(f.spec_tuple()));
                    let ghost prev = out@;
                    out.push(f);
                    assert(fragments_view(out@) =~= fragments_view(prev).push(f.spec_tuple()));
                    assert(fragments_view(out@) =~= fragments_view(prev) + seq![f.spec_tuple()]);
                } else {
                    assert(cell is None);
                    assert(fragments_view(out@) =~= fragments_view(out@) + Seq::<FragmentSpec>::empty());
                }
            } else {
                assert(cell is None);
                assert(fragments_view(out@) =~= fragments_view(out@) + Seq::<FragmentSpec>::empty());
            }
            fx += 1;
        }
        assert(triangle_rows(x_min as int, y_min as int, width, (fy + 1 - y_min) as nat, sv1, sv2, sv3)
            == triangle_rows(x_min as int, y_min as int, width, (fy - y_min) as nat, sv1, sv2, sv3)
            + triangle_row(x_min as int, fy as int, width, sv1, sv2, sv3));
        fy += 1;
    }
    out
}

pub open spec fn abs(v: int) -> int {
    if v < 0 {
        -v
    } else {
        v
    }
}

/// Whether a line runs along x: its NDC extent in x is at least that in y.
pub open spec fn line_x_major(p1: NdcPoint, p2: NdcPoint) -> bool {
    abs(p1.x - p2.x) >= abs(p1.y - p2.y)
}

/// Whether the walk starts from the second endpoint: it does when that one
/// has the larger coordinate on the major axis, which is the smaller pixel.
pub open spec fn line_swapped(p1: NdcPoint, p2: NdcPoint) -> bool {
    if line_x_major(p1, p2) {
        p2.x > p1.x
    } else {
        p2.y > p1.y
    }
}

/// Minor-axis pixel at step `i` of `m` from `f1` to `f2`: the exact position
/// `f1 + i * (f2 - f1) / m`, rounded to the nearest pixel.
pub open spec fn line_minor(f1: int, f2: int, m: int, i: int) -> int {
    if m == 0 {
        f1
    } else {
        round_div(f1 * (m - i) + f2 * i, m)
    }
}

/// Weights at step `i` of `m`: `1 - k` on the start of the walk and `k = i / m`
/// on its end, given over the endpoints in the order they were passed in.
pub open spec fn line_weights(swapped: bool, m: int, i: int) -> (int, int, int, int) {
    let ws = if m == 0 { 1 } else { m - i };
    let we = if m == 0 { 0 } else { i };
    let den = if m == 0 { 1 } else { m };
    if swapped {
        (we, ws, 0, den)
    } else {
        (ws, we, 0, den)
    }
}

/// The fragments of the line from `p1` to `p2` on a `width` x `height`
/// framebuffer: one per pixel of the major axis, from the start pixel to the
/// end pixel inclusive, with the minor coordinate and the weights advancing
/// linearly.
pub open spec fn line_fragments(p1: NdcPoint, p2: NdcPoint, width: int, height: int) -> Seq<
    FragmentSpec,
> {
    let swapped = line_swapped(p1, p2);
    let s = if swapped { p2 } else { p1 };
    let e = if swapped { p1 } else { p2 };
    let sx = ndc_to_pixel(s.x as int, width);
    let sy = ndc_to_pixel(s.y as int, height);
    let ex = ndc_to_pixel(e.x as int, width);
    let ey = ndc_to_pixel(e.y as int, height);
    if line_x_major(p1, p2) {
        let m = ex - sx;
        Seq::new((m + 1) as nat, |i: int| (sx + i, line_minor(sy, ey, m, i), line_weights(swapped, m, i)))
    } else {
        let m = ey - sy;
        Seq::new((m + 1) as nat, |i: int| (line_minor(sx, ex, m, i), sy + i, line_weights(swapped, m, i)))
    }
}

/// The pixel on which a point in normalized device coordinates lands.
pub open spec fn ndc_pixel(p: NdcPoint, width: int, height: int) -> (int, int) {
    (ndc_to_pixel(p.x as int, width), ndc_to_pixel(p.y as int, height))
}

/// Number of pixel steps of a line along its major axis.
pub open spec fn line_span(p1: NdcPoint, p2: NdcPoint, width: int, height: int) -> int {
    let d1 = ndc_pixel(p1, width, height);
    let d2 = ndc_pixel(p2, width, height);
    if line_x_major(p1, p2) {
        abs(d1.0 - d2.0)
    } else {
        abs(d1.1 - d2.1)
    }
}

/// Some fragment of the sequence lies on pixel `p`.
pub open spec fn covers(frags: Seq<FragmentSpec>, p: (int, int)) -> bool {
    exists|i: int| 0 <= i < frags.len() && (#[trigger] frags[i]).0 == p.0 && frags[i].1 == p.1
}

proof fn lemma_round_exact(f: int, m: int)
    requires
        m > 0,
    ensures
        round_div(f * m, m) == f,
{
    assert(2 * (f * m) + m == f * (2 * m) + m) by (nonlinear_arith);
    vstd::arithmetic::div_mod::lemma_fundamental_div_mod_converse(2 * (f * m) + m, 2 * m, f, m);
}

/// A line covers the pixels of both its endpoints, provided that it spans at
/// least one pixel step along its major axis or that both endpoints land on
/// one pixel. (Endpoints that share their major-axis pixel but not their
/// minor-axis pixel yield only the start pixel.)
pub proof fn lemma_line_endpoint_coverage(p1: NdcPoint, p2: NdcPoint, width: int, height: int)
    requires
        width >= 1,
        height >= 1,
        line_span(p1, p2, width, height) > 0 || ndc_pixel(p1, width, height) == ndc_pixel(p2, width, height),
    ensures
        covers(line_fragments(p1, p2, width, height), ndc_pixel(p1, width, height)),
        covers(line_fragments(p1, p2, width, height), ndc_pixel(p2, width, height)),
{
    let frags = line_fragments(p1, p2, width, height);
    let swapped = line_swapped(p1, p2);
    let s = if swapped { p2 } else { p1 };
    let e = if swapped { p1 } else { p2 };
    let ps = ndc_pixel(s, width, height);
    let pe = ndc_pixel(e, width, height);
    if line_x_major(p1, p2) {
        lemma_ndc_to_pixel_antitone(s.x as int, e.x as int, width);
        let m = pe.0 - ps.0;
        if m > 0 {
            lemma_round_exact(ps.1, m);
            lemma_round_exact(pe.1, m);
            assert(ps.1 * (m - 0) + pe.1 * 0 == ps.1 * m);
            assert(ps.1 * (m - m) + pe.1 * m == pe.1 * m);
            assert(frags[0].0 == ps.0 && frags[0].1 == ps.1);
            assert(frags[m].0 == pe.0 && frags[m].1 == pe.1);
        } else {
            assert(frags[0].0 == ps.0 && frags[0].1 == ps.1);
        }
    } else {
        lemma_ndc_to_pixel_antitone(s.y as int, e.y as int, height);
        let m = pe.1 - ps.1;
        if m > 0 {
            lemma_round_exact(ps.0, m);
            lemma_round_exact(pe.0, m);
            assert(ps.0 * (m - 0) + pe.0 * 0 == ps.0 * m);
            assert(ps.0 * (m - m) + pe.0 * m == pe.0 * m);
            assert(frags[0].0 == ps.0 && frags[0].1 == ps.1);
            assert(frags[m].0 == pe.0 && frags[m].1 == pe.1);
        } else {
            assert(frags[0].0 == ps.0 && frags[0].1 == ps.1);
        }
    }
}

/// Minor-axis pixel at step `i` of `m`; it lies between the two end pixels.
fn line_minor_step(f1: u16, f2: u16, m: u16, i: u16) -> (r: u16)
    requires
        i <= m,
    ensures
        r == line_minor(f1 as int, f2 as int, m as int, i as int),
        r <= f1 || r <= f2,
{
    if m == 0 {
        return f1;
    }
    let hi: u64 = if f1 >= f2 { f1 as u64 } else { f2 as u64 };
    proof {
        assert(f1 * (m - i) <= 65535 * 65535 && f2 * i <= 65535 * 65535) by (nonlinear_arith)
            requires
                f1 <= 65535,
                f2 <= 65535,
                0 <= m - i <= 65535,
                0 <= i <= 65535,
        ;
    }
    let n: u64 = f1 as u64 * (m - i) as u64 + f2 as u64 * i as u64;
    proof {
        assert(n <= hi * m) by (nonlinear_arith)
            requires
                n == f1 * (m - i) + f2 * i,
                f1 <= hi,
                f2 <= hi,
                i <= m,
        ;
        assert(2 * n + m < (2 * m) * (hi + 1)) by (nonlinear_arith)
            requires
                n <= hi * m,
                m > 0,
        ;
        vstd::arithmetic::div_mod::lemma_multiply_divide_lt(2 * n + m, 2 * m, hi + 1);
    }
    ((2 * n + m as u64) / (2 * m as u64)) as u16
}

/// Rasterizes the line from `p1` to `p2` on a `width` x `height` framebuffer:
/// the fragments are exactly `line_fragments`, each on the framebuffer, with
/// weights that sum to one.
pub fn rasterize_line(p1: NdcPoint, p2: NdcPoint, width: u16, height: u16) -> (r: Vec<Fragment>)
    requires
        width >= 1,
        height >= 1,
    ensures
        fragments_view(r@) == line_fragments(p1, p2, width as int, height as int),
        forall|i: int|
            0 <= i < r@.len() ==> {
                &&& (#[trigger] r@[i]).weights.is_unit()
                &&& r@[i].weights.is_inside()
                &&& r@[i].x < width
                &&& r@[i].y < height
            },
{
    let xd: i128 = if p1.x >= p2.x { p1.x as i128 - p2.x as i128 } else { p2.x as i128 - p1.x as i128 };
    let yd: i128 = if p1.y >= p2.y { p1.y as i128 - p2.y as i128 } else { p2.y as i128 - p1.y as i128 };
    let x_major = xd >= yd;
    let swapped = if x_major { p2.x > p1.x } else { p2.y > p1.y };
    let (s, e) = if swapped { (p2, p1) } else { (p1, p2) };
    let (sx, sy) = transform_coords_normalized_to_framebuffer(s, width, height);
    let (ex, ey) = transform_coords_normalized_to_framebuffer(e, width, height);
    proof {
        if x_major {
            lemma_ndc_to_pixel_antitone(s.x as int, e.x as int, width as int);
        } else {
            lemma_ndc_to_pixel_antitone(s.y as int, e.y as int, height as int);
        }
    }
    let ghost spec = line_fragments(p1, p2, width as int, height as int);
    let m: u16 = if x_major { ex - sx } else { ey - sy };
    let mut out: Vec<Fragment> = Vec::new();
    let mut i: u32 = 0;
    while i <= m as u32
        invariant
            i <= m as int + 1,
            x_major == line_x_major(p1, p2),
            swapped == line_swapped(p1, p2),
            sx == ndc_to_pixel(s.x as int, width as int),
            sy == ndc_to_pixel(s.y as int, height as int),
            ex == ndc_to_pixel(e.x as int, width as int),
            ey == ndc_to_pixel(e.y as int, height as int),
            s == if swapped { p2 } else { p1 },
            e == if swapped { p1 } else { p2 },
            sx < width,
            ex < width,
            sy < height,
            ey < height,
            x_major ==> m == ex - sx,
            !x_major ==> m == ey - sy,
            spec == line_fragments(p1, p2, width as int, height as int),
            spec.len() == m + 1,
            fragments_view(out@) == spec.take(i as int),
            forall|j: int|
                0 <= j < out@.len() ==> {
                    &&& (#[trigger] out@[j]).weights.is_unit()
                    &&& out@[j].weights.is_inside()
                    &&& out@[j].x < width
                    &&& out@[j].y < height
                },
        decreases m as int + 1 - i,
    {
        let step = i as u16;
        let (ws, we, den): (i64, i64, i64) = if m == 0 {
            (1, 0, 1)
        } else {
            ((m - step) as i64, step as i64, m as i64)
        };
        let weights = if swapped {
            Weights { a: we, b: ws, c: 0, den }
        } else {
            Weights { a: ws, b: we, c: 0, den }
        };
        let f = if x_major {
            Fragment { x: sx + step, y: line_minor_step(sy, ey, m, step), weights }
        } else {
            Fragment { x: line_minor_step(sx, ex, m, step), y: sy + step, weights }
        };
        let ghost prev = out@;
        out.push(f);
        proof {
            assert(f.spec_tuple() == spec[i as int]);
            assert(fragments_view(out@) =~= fragments_view(prev).push(f.spec_tuple()));
            assert(spec.take(i + 1) =~= spec.take(i as int).push(spec[i as int]));
        }
        i += 1;
    }
    assert(spec.take(m + 1) =~= spec);
    out
}

} // verus!
