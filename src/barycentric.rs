use vstd::prelude::*;

verus! {

/// Interpolation weights `a / den`, `b / den`, `c / den` of a fragment over the
/// first, second and third vertex of its primitive.
#[derive(Clone, Copy, Debug, PartialEq, Eq, Structural)]
pub struct Weights {
    pub a: i64,
    pub b: i64,
    pub c: i64,
    pub den: i64,
}

impl Weights {
    pub open spec fn spec_tuple(self) -> (int, int, int, int) {
        (self.a as int, self.b as int, self.c as int, self.den as int)
    }

    /// The weights are proper fractions that sum to one.
    pub open spec fn is_unit(self) -> bool {
        &&& self.den > 0
        &&& self.a + self.b + self.c == self.den
    }

    /// Each weight lies in `[0, 1]`: the point is inside the triangle.
    pub open spec fn is_inside(self) -> bool {
        &&& 0 <= self.a <= self.den
        &&& 0 <= self.b <= self.den
        &&& 0 <= self.c <= self.den
    }
}

/// Twice the signed area of the triangle, the common denominator of the
/// barycentric coordinates.
pub open spec fn bary_den(x1: int, y1: int, x2: int, y2: int, x3: int, y3: int) -> int {
    (y2 - y3) * (x1 - x3) + (x3 - x2) * (y1 - y3)
}

pub open spec fn bary_num_a(px: int, py: int, x2: int, y2: int, x3: int, y3: int) -> int {
    (y2 - y3) * (px - x3) + (x3 - x2) * (py - y3)
}

pub open spec fn bary_num_b(px: int, py: int, x1: int, y1: int, x3: int, y3: int) -> int {
    (y3 - y1) * (px - x3) + (x1 - x3) * (py - y3)
}

/// Barycentric coordinates `(a, b, c, den)` of pixel `(px, py)` with respect to
/// the vertices `(x1, y1)`, `(x2, y2)`, `(x3, y3)`, as exact fractions over a
/// positive denominator.
///
/// A pixel on which all three vertices fall gets a third to each; one on which
/// two fall gets a half to each of those two. Otherwise the standard formula
/// applies, where a vanishing numerator gives a zero coordinate even over a
/// zero denominator. `None` stands for a coordinate with a non-zero numerator
/// over a zero denominator, which is never inside the triangle.
pub open spec fn barycentric_spec(
    px: int,
    py: int,
    x1: int,
    y1: int,
    x2: int,
    y2: int,
    x3: int,
    y3: int,
) -> Option<(int, int, int, int)> {
    let at1 = px == x1 && py == y1;
    let at2 = px == x2 && py == y2;
    let at3 = px == x3 && py == y3;
    if at1 && at2 && at3 {
        Some((1, 1, 1, 3))
    } else if at1 && at2 {
        Some((1, 1, 0, 2))
    } else if at1 && at3 {
        Some((1, 0, 1, 2))
    } else if at2 && at3 {
        Some((0, 1, 1, 2))
    } else {
        let d = bary_den(x1, y1, x2, y2, x3, y3);
        let na = bary_num_a(px, py, x2, y2, x3, y3);
        let nb = bary_num_b(px, py, x1, y1, x3, y3);
        if d == 0 {
            if na == 0 && nb == 0 {
                Some((0, 0, 1, 1))
            } else {
                None
            }
        } else if d > 0 {
            Some((na, nb, d - na - nb, d))
        } else {
            Some((-na, -nb, -d + na + nb, -d))
        }
    }
}

/// Barycentric coordinates of a pixel with respect to three vertex pixels.
/// Whenever there is a result, its three coordinates sum to exactly one.
pub fn transform_coords_framebuffer_to_barycentric(
    px: u16,
    py: u16,
    x1: u16,
    y1: u16,
    x2: u16,
    y2: u16,
    x3: u16,
    y3: u16,
) -> (r: Option<Weights>)
    ensures
        r matches Some(w) ==> Some(w.spec_tuple()) == barycentric_spec(
            px as int,
            py as int,
            x1 as int,
            y1 as int,
            x2 as int,
            y2 as int,
            x3 as int,
            y3 as int,
        ),
        r is None ==> barycentric_spec(
            px as int,
            py as int,
            x1 as int,
            y1 as int,
            x2 as int,
            y2 as int,
            x3 as int,
            y3 as int,
        ) is None,
        r matches Some(w) ==> w.is_unit(),
{
    let at1 = px == x1 && py == y1;
    let at2 = px == x2 && py == y2;
    let at3 = px == x3 && py == y3;
    if at1 && at2 && at3 {
        return Some(Weights { a: 1, b: 1, c: 1, den: 3 });
    } else if at1 && at2 {
        return Some(Weights { a: 1, b: 1, c: 0, den: 2 });
    } else if at1 && at3 {
        return Some(Weights { a: 1, b: 0, c: 1, den: 2 });
    } else if at2 && at3 {
        return Some(Weights { a: 0, b: 1, c: 1, den: 2 });
    }
    let (px, py) = (px as i64, py as i64);
    let (x1, y1) = (x1 as i64, y1 as i64);
    let (x2, y2) = (x2 as i64, y2 as i64);
    let (x3, y3) = (x3 as i64, y3 as i64);
    proof {
        lemma_product_bound(y2 - y3, x1 - x3);
        lemma_product_bound(x3 - x2, y1 - y3);
        lemma_product_bound(y2 - y3, px - x3);
        lemma_product_bound(x3 - x2, py - y3);
        lemma_product_bound(y3 - y1, px - x3);
        lemma_product_bound(x1 - x3, py - y3);
    }
    let d: i64 = (y2 - y3) * (x1 - x3) + (x3 - x2) * (y1 - y3);
    let na: i64 = (y2 - y3) * (px - x3) + (x3 - x2) * (py - y3);
    let nb: i64 = (y3 - y1) * (px - x3) + (x1 - x3) * (py - y3);
    if d == 0 {
        if na == 0 && nb == 0 {
            Some(Weights { a: 0, b: 0, c: 1, den: 1 })
        } else {
            None
        }
    } else if d > 0 {
        Some(Weights { a: na, b: nb, c: d - na - nb, den: d })
    } else {
        Some(Weights { a: -na, b: -nb, c: -d + na + nb, den: -d })
    }
}

proof fn lemma_product_bound(u: int, v: int)
    requires
        -0x1_0000 < u < 0x1_0000,
        -0x1_0000 < v < 0x1_0000,
    ensures
        -0x1_0000_0000 < u * v < 0x1_0000_0000,
{
    assert(-0x1_0000_0000 < u * v < 0x1_0000_0000) by (nonlinear_arith)
        requires
            -0x1_0000 < u < 0x1_0000,
            -0x1_0000 < v < 0x1_0000,
    ;
}

} // verus!
