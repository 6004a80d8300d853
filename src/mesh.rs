use vstd::prelude::*;

use crate::error::RangleError;

verus! {

/// Vertex `i` of a flat array that holds three scalars per vertex.
pub open spec fn vertex_at<T>(flat: Seq<T>, i: int) -> (T, T, T) {
    (flat[3 * i], flat[3 * i + 1], flat[3 * i + 2])
}

/// Every index names a vertex of a flat array of `len` scalars.
pub open spec fn indices_in_range(indices: Seq<usize>, len: int) -> bool {
    forall|k: int| 0 <= k < indices.len() ==> 3 * (#[trigger] indices[k]) + 2 < len
}

/// Expands an indexed mesh into its vertex buffer: one vertex per index, in
/// index order. `None` when an index names no vertex.
pub fn expand_vertex_buffer<T: Copy>(flat: &Vec<T>, indices: &Vec<usize>) -> (r: Option<Vec<(T, T, T)>>)
    ensures
        r is Some <==> indices_in_range(indices@, flat@.len() as int),
        r matches Some(v) ==> {
            &&& v@.len() == indices@.len()
            &&& forall|k: int| 0 <= k < v@.len() ==> #[trigger] v@[k] == vertex_at(flat@, indices@[k] as int)
        },
{
    let mut out: Vec<(T, T, T)> = Vec::new();
    let mut k: usize = 0;
    while k < indices.len()
        invariant
            k <= indices@.len(),
            out@.len() == k,
            indices_in_range(indices@.take(k as int), flat@.len() as int),
            forall|j: int| 0 <= j < k ==> #[trigger] out@[j] == vertex_at(flat@, indices@[j] as int),
        decreases indices@.len() - k,
    {
        let i = indices[k];
        if i >= flat.len() / 3 {
            assert(!indices_in_range(indices@, flat@.len() as int)) by {
                assert(3 * indices@[k as int] + 2 >= flat@.len());
            }
            return None;
        }
        let base: usize = 3 * i;
        out.push((flat[base], flat[base + 1], flat[base + 2]));
        assert(indices@.take(k + 1) =~= indices@.take(k as int).push(i));
        k += 1;
    }
    assert(indices@.take(k as int) =~= indices@);
    Some(out)
}

/// First position in `[i, end)` that holds byte `b`, or `end` if none does.
pub open spec fn scan(s: Seq<u8>, i: int, end: int, b: u8) -> int
    decreases end - i,
{
    if i >= end {
        end
    } else if s[i] == b {
        i
    } else {
        scan(s, i + 1, end, b)
    }
}

/// The space-separated, non-empty tokens of `s[i..end)`, as `(start, end)` spans.
pub open spec fn tokens(s: Seq<u8>, i: int, end: int) -> Seq<(int, int)>
    decreases end - i
    via tokens_decreases
{
    if i >= end {
        Seq::empty()
    } else if s[i] == 0x20u8 {
        tokens(s, i + 1, end)
    } else {
        let j = scan(s, i, end, 0x20u8);
        seq![(i, j)] + tokens(s, j, end)
    }
}

pub open spec fn is_digit(b: u8) -> bool {
    0x30u8 <= b <= 0x39u8
}

/// Decimal value of the digits `s[a..b)`.
pub open spec fn digits_value(s: Seq<u8>, a: int, b: int) -> int
    decreases b - a,
{
    if b <= a {
        0
    } else {
        digits_value(s, a, b - 1) * 10 + (s[b - 1] - 0x30u8)
    }
}

/// The 1-based vertex number that a face element `s[a..b)` names: the
/// decimal digits before its first `/`. `None` unless there is at least one
/// digit, only digits, and a value from 1 to `usize::MAX`.
pub open spec fn face_element(s: Seq<u8>, a: int, b: int) -> Option<int> {
    let e = scan(s, a, b, 0x2fu8);
    if a < e && (forall|k: int| a <= k < e ==> is_digit(#[trigger] s[k])) && 1 <= digits_value(s, a, e)
        <= usize::MAX {
        Some(digits_value(s, a, e))
    } else {
        None
    }
}

/// The first `m` triangles of the fan over the 1-based vertex numbers `v`,
/// as 0-based indices: `(v0, v1, v2)`, `(v0, v2, v3)`, ...
pub open spec fn fan(v: Seq<int>, m: nat) -> Seq<int>
    decreases m,
{
    if m == 0 {
        Seq::empty()
    } else {
        fan(v, (m - 1) as nat) + seq![v[0] - 1, v[m as int] - 1, v[m as int + 1] - 1]
    }
}

/// The indices that a face line with element spans `toks` contributes: none
/// with fewer than three elements, else its fan, or an error when an element
/// is malformed.
pub open spec fn face_indices(s: Seq<u8>, toks: Seq<(int, int)>) -> Result<Seq<int>, RangleError> {
    if toks.len() < 3 {
        Ok(Seq::empty())
    } else if forall|k: int| 0 <= k < toks.len() ==> (#[trigger] face_element(s, toks[k].0, toks[k].1)) is Some {
        Ok(fan(Seq::new(toks.len(), |k: int| face_element(s, toks[k].0, toks[k].1)->Some_0), (toks.len() - 2) as nat))
    } else {
        Err(RangleError::ParseInt)
    }
}

/// What the line `s[a..e)` contributes: coordinate spans and vertex indices.
/// A line `v x y z ...` gives the spans of its first three fields (an error
/// with fewer); a line `f a b c ...` gives the fan of its elements; any other
/// line gives nothing.
pub open spec fn line_contents(s: Seq<u8>, a: int, e: int) -> Result<(Seq<(int, int)>, Seq<int>), RangleError> {
    let starts = |c: u8| e - a >= 2 && s[a] == c && s[a + 1] == 0x20u8;
    if starts(0x76u8) {
        let toks = tokens(s, a + 2, e);
        if toks.len() < 3 {
            Err(RangleError::ParseFloat)
        } else {
            Ok((toks.take(3), Seq::empty()))
        }
    } else if starts(0x66u8) {
        match face_indices(s, tokens(s, a + 2, e)) {
            Ok(ix) => Ok((Seq::empty(), ix)),
            Err(k) => Err(k),
        }
    } else {
        Ok((Seq::empty(), Seq::empty()))
    }
}

/// End of the content of the line that starts at `a` and ends before the
/// newline at `e`: a carriage return before the newline is not content.
pub open spec fn content_end(s: Seq<u8>, a: int, e: int) -> int {
    if e > a && s[e - 1] == 0x0du8 {
        e - 1
    } else {
        e
    }
}

/// The coordinate spans and vertex indices of the lines from position `i` on,
/// or the error of the first malformed line.
pub open spec fn obj_from(s: Seq<u8>, i: int) -> Result<(Seq<(int, int)>, Seq<int>), RangleError>
    decreases s.len() + 1 - i
    via obj_from_decreases
{
    if i >= s.len() || i < 0 {
        Ok((Seq::empty(), Seq::empty()))
    } else {
        let e = scan(s, i, s.len() as int, 0x0au8);
        match line_contents(s, i, content_end(s, i, e)) {
            Err(k) => Err(k),
            Ok((c, ix)) => match obj_from(s, e + 1) {
                Err(k) => Err(k),
                Ok((c2, ix2)) => Ok((c + c2, ix + ix2)),
            },
        }
    }
}

/// The contents of a mesh file.
pub open spec fn obj_contents(s: Seq<u8>) -> Result<(Seq<(int, int)>, Seq<int>), RangleError> {
    obj_from(s, 0)
}

proof fn lemma_scan_bounds(s: Seq<u8>, i: int, end: int, b: u8)
    requires
        i <= end,
    ensures
        i <= scan(s, i, end, b) <= end,
    decreases end - i,
{
    if i < end && s[i] != b {
        lemma_scan_bounds(s, i + 1, end, b);
    }
}

#[via_fn]
proof fn tokens_decreases(s: Seq<u8>, i: int, end: int) {
    if i < end && s[i] != 0x20u8 {
        lemma_scan_bounds(s, i + 1, end, 0x20u8);
    }
}

#[via_fn]
proof fn obj_from_decreases(s: Seq<u8>, i: int) {
    if 0 <= i < s.len() {
        lemma_scan_bounds(s, i, s.len() as int, 0x0au8);
    }
}

/// First position in `[i, end)` that holds byte `b`, or `end`.
fn find_byte(s: &[u8], i: usize, end: usize, b: u8) -> (r: usize)
    requires
        i <= end <= s@.len(),
    ensures
        r == scan(s@, i as int, end as int, b),
        i <= r <= end,
{
    let mut j = i;
    while j < end && s[j] != b
        invariant
            i <= j <= end,
            end <= s@.len(),
            scan(s@, i as int, end as int, b) == scan(s@, j as int, end as int, b),
        decreases end - j,
    {
        j += 1;
    }
    j
}

pub open spec fn spans_view(v: Seq<(usize, usize)>) -> Seq<(int, int)> {
    v.map_values(|p: (usize, usize)| (p.0 as int, p.1 as int))
}

proof fn lemma_tokens_bounds(s: Seq<u8>, i: int, end: int)
    requires
        i <= end,
    ensures
        forall|k: int|
            0 <= k < tokens(s, i, end).len() ==> i <= (#[trigger] tokens(s, i, end)[k]).0 < tokens(s, i, end)[k].1
                <= end,
    decreases end - i,
{
    if i < end {
        if s[i] == 0x20u8 {
            lemma_tokens_bounds(s, i + 1, end);
            assert(tokens(s, i, end) == tokens(s, i + 1, end));
        } else {
            let j = scan(s, i, end, 0x20u8);
            lemma_scan_bounds(s, i + 1, end, 0x20u8);
            lemma_tokens_bounds(s, j, end);
            let t = tokens(s, i, end);
            let rest = tokens(s, j, end);
            assert(t == seq![(i, j)] + rest);
            assert forall|k: int| 0 <= k < t.len() implies i <= (#[trigger] t[k]).0 < t[k].1 <= end by {
                if k > 0 {
                    assert(t[k] == rest[k - 1]);
                }
            }
        }
    }
}

/// The space-separated tokens of `s[i..end)`.
fn tokenize(s: &[u8], i: usize, end: usize) -> (r: Vec<(usize, usize)>)
    requires
        i <= end <= s@.len(),
    ensures
        spans_view(r@) == tokens(s@, i as int, end as int),
        forall|k: int| 0 <= k < r@.len() ==> i <= (#[trigger] r@[k]).0 < r@[k].1 <= end,
{
    let mut out: Vec<(usize, usize)> = Vec::new();
    let mut j = i;
    proof {
        lemma_tokens_bounds(s@, i as int, end as int);
    }
    while j < end
        invariant
            i <= j <= end,
            end <= s@.len(),
            tokens(s@, i as int, end as int) == spans_view(out@) + tokens(s@, j as int, end as int),
            forall|k: int| 0 <= k < out@.len() ==> i <= (#[trigger] out@[k]).0 < out@[k].1 <= j,
        decreases end - j,
    {
        if s[j] == 0x20u8 {
            j += 1;
        } else {
            let t = find_byte(s, j, end, 0x20u8);
            let ghost prev = out@;
            out.push((j, t));
            assert(spans_view(out@) =~= spans_view(prev) + seq![(j as int, t as int)]);
            assert(spans_view(out@) + tokens(s@, t as int, end as int) =~= spans_view(prev) + (seq![
                (j as int, t as int),
            ] + tokens(s@, t as int, end as int)));
            j = t;
        }
    }
    assert(spans_view(out@) + tokens(s@, j as int, end as int) =~= spans_view(out@));
    out
}

proof fn lemma_digits_monotone(s: Seq<u8>, a: int, b: int, c: int)
    requires
        a <= b <= c,
        forall|k: int| a <= k < c ==> is_digit(#[trigger] s[k]),
    ensures
        digits_value(s, a, b) <= digits_value(s, a, c),
        0 <= digits_value(s, a, b),
    decreases c - a,
{
    if b < c {
        lemma_digits_monotone(s, a, b, c - 1);
        assert(is_digit(s[c - 1]));
    } else if a < b {
        lemma_digits_monotone(s, a, b - 1, b - 1);
        assert(is_digit(s[b - 1]));
    }
}

/// The 1-based vertex number of the face element `s[a..b)`.
fn parse_face_element(s: &[u8], a: usize, b: usize) -> (r: Option<usize>)
    requires
        a <= b <= s@.len(),
    ensures
        r matches Some(v) ==> face_element(s@, a as int, b as int) == Some(v as int),
        r is None ==> face_element(s@, a as int, b as int) is None,
{
    let e = find_byte(s, a, b, 0x2fu8);
    if a == e {
        return None;
    }
    let mut v: usize = 0;
    let mut k = a;
    while k < e
        invariant
            a <= k <= e <= b <= s@.len(),
            e == scan(s@, a as int, b as int, 0x2fu8),
            forall|j: int| a <= j < k ==> is_digit(#[trigger] s@[j]),
            v == digits_value(s@, a as int, k as int),
        decreases e - k,
    {
        let d = s[k];
        if d < 0x30u8 || d > 0x39u8 {
            assert(!is_digit(s@[k as int]));
            return None;
        }
        let next = match v.checked_mul(10) {
            Some(m) => m.checked_add((d - 0x30u8) as usize),
            None => None,
        };
        match next {
            Some(n) => {
                v = n;
            },
            None => {
                proof {
                    assert(digits_value(s@, a as int, k + 1) > usize::MAX) by (nonlinear_arith)
                        requires
                            digits_value(s@, a as int, k + 1) == v * 10 + (d - 0x30u8),
                            v * 10 > usize::MAX || v * 10 + (d - 0x30u8) > usize::MAX,
                            0 <= d - 0x30u8,
                    ;
                    if forall|j: int| a <= j < e ==> is_digit(#[trigger] s@[j]) {
                        lemma_digits_monotone(s@, a as int, k + 1, e as int);
                    }
                }
                return None;
            },
        }
        k += 1;
    }
    if v == 0 {
        None
    } else {
        Some(v)
    }
}

pub open spec fn indices_view(v: Seq<usize>) -> Seq<int> {
    v.map_values(|x: usize| x as int)
}

/// The vertex indices that a face line with element spans `toks` contributes.
fn parse_face(s: &[u8], toks: &Vec<(usize, usize)>) -> (r: Result<Vec<usize>, RangleError>)
    requires
        forall|k: int| 0 <= k < toks@.len() ==> (#[trigger] toks@[k]).0 <= toks@[k].1 <= s@.len(),
    ensures
        match (r, face_indices(s@, spans_view(toks@))) {
            (Ok(v), Ok(ix)) => indices_view(v@) == ix,
            (Err(e), Err(k)) => e == k,
            _ => false,
        },
{
    let ghost sp = spans_view(toks@);
    let n = toks.len();
    if n < 3 {
        let out: Vec<usize> = Vec::new();
        assert(indices_view(out@) =~= Seq::<int>::empty());
        return Ok(out);
    }
    let mut values: Vec<usize> = Vec::new();
    let mut k: usize = 0;
    while k < n
        invariant
            n == toks@.len(),
            n >= 3,
            sp == spans_view(toks@),
            k <= n,
            values@.len() == k,
            forall|j: int| 0 <= j < toks@.len() ==> (#[trigger] toks@[j]).0 <= toks@[j].1 <= s@.len(),
            forall|j: int|
                0 <= j < k ==> face_element(s@, sp[j].0, sp[j].1) == Some(#[trigger] values@[j] as int),
        decreases n - k,
    {
        let (a, b) = toks[k];
        match parse_face_element(s, a, b) {
            Some(v) => {
                values.push(v);
            },
            None => {
                assert(face_element(s@, sp[k as int].0, sp[k as int].1) is None);
                return Err(RangleError::ParseInt);
            },
        }
        k += 1;
    }
    let ghost vals = Seq::new(sp.len(), |j: int| face_element(s@, sp[j].0, sp[j].1)->Some_0);
    assert(forall|j: int| 0 <= j < sp.len() ==> (#[trigger] face_element(s@, sp[j].0, sp[j].1)) is Some) by {
        assert forall|j: int| 0 <= j < sp.len() implies (#[trigger] face_element(s@, sp[j].0, sp[j].1)) is Some by {
            assert(face_element(s@, sp[j].0, sp[j].1) == Some(values@[j] as int));
        }
    }
    let mut out: Vec<usize> = Vec::new();
    let mut m: usize = 1;
    while m + 1 < n
        invariant
            n == toks@.len(),
            n >= 3,
            sp.len() == n,
            1 <= m <= n - 1,
            values@.len() == n,
            vals.len() == n,
            forall|j: int| 0 <= j < n ==> vals[j] == #[trigger] values@[j] as int,
            forall|j: int| 0 <= j < n ==> #[trigger] values@[j] >= 1,
            indices_view(out@) == fan(vals, (m - 1) as nat),
        decreases n - m,
    {
        let ghost prev = out@;
        assert(vals[0] == values@[0] as int && values@[0] >= 1);
        assert(vals[m as int] == values@[m as int] as int && values@[m as int] >= 1);
        assert(vals[m + 1] == values@[m + 1] as int && values@[m + 1] >= 1);
        out.push(values[0] - 1);
        out.push(values[m] - 1);
        out.push(values[m + 1] - 1);
        assert(indices_view(out@) =~= indices_view(prev) + seq![
            vals[0] - 1,
            vals[m as int] - 1,
            vals[m + 1] - 1,
        ]);
        m += 1;
    }
    Ok(out)
}

/// The parts of a mesh file that the loader consumes: the byte spans of the
/// vertex coordinates, three per vertex, and the 0-based vertex indices of
/// its triangles, three per triangle.
pub struct ObjData {
    pub coordinate_spans: Vec<(usize, usize)>,
    pub vertex_indices: Vec<usize>,
}

/// What the line `s[a..e)` contributes, as `(coordinate spans, indices)`.
fn parse_line(s: &[u8], a: usize, e: usize) -> (r: Result<(Vec<(usize, usize)>, Vec<usize>), RangleError>)
    requires
        a <= e <= s@.len(),
    ensures
        match (r, line_contents(s@, a as int, e as int)) {
            (Ok((c, ix)), Ok((sc, six))) => spans_view(c@) == sc && indices_view(ix@) == six,
            (Err(x), Err(y)) => x == y,
            _ => false,
        },
{
    let is_vertex = e - a >= 2 && s[a] == 0x76u8 && s[a + 1] == 0x20u8;
    let is_face = e - a >= 2 && s[a] == 0x66u8 && s[a + 1] == 0x20u8;
    let empty_spans: Vec<(usize, usize)> = Vec::new();
    let empty_indices: Vec<usize> = Vec::new();
    assert(spans_view(empty_spans@) =~= Seq::<(int, int)>::empty());
    assert(indices_view(empty_indices@) =~= Seq::<int>::empty());
    if is_vertex {
        let toks = tokenize(s, a + 2, e);
        if toks.len() < 3 {
            return Err(RangleError::ParseFloat);
        }
        let mut coords: Vec<(usize, usize)> = Vec::new();
        coords.push(toks[0]);
        coords.push(toks[1]);
        coords.push(toks[2]);
        assert(spans_view(coords@) =~= spans_view(toks@).take(3));
        Ok((coords, empty_indices))
    } else if is_face {
        let toks = tokenize(s, a + 2, e);
        match parse_face(s, &toks) {
            Ok(ix) => Ok((empty_spans, ix)),
            Err(k) => Err(k),
        }
    } else {
        Ok((empty_spans, empty_indices))
    }
}

/// Parses the text of a mesh file: `v x y z` lines give vertex coordinates,
/// `f a b c ...` lines give faces, fan-triangulated, whose elements are
/// 1-based vertex numbers (only the part before a `/` counts); other lines
/// are ignored. The coordinates are handed back as byte spans.
pub fn parse_obj(s: &[u8]) -> (r: Result<ObjData, RangleError>)
    ensures
        match (r, obj_contents(s@)) {
            (Ok(d), Ok((c, ix))) => spans_view(d.coordinate_spans@) == c && indices_view(d.vertex_indices@) == ix,
            (Err(x), Err(y)) => x == y,
            _ => false,
        },
{
    let n = s.len();
    let mut coords: Vec<(usize, usize)> = Vec::new();
    let mut indices: Vec<usize> = Vec::new();
    let mut i: usize = 0;
    assert(spans_view(coords@) =~= Seq::<(int, int)>::empty());
    assert(indices_view(indices@) =~= Seq::<int>::empty());
    while i < n
        invariant
            n == s@.len(),
            i <= n,
            obj_contents(s@) == match obj_from(s@, i as int) {
                Ok((c, ix)) => Ok((spans_view(coords@) + c, indices_view(indices@) + ix)),
                Err(k) => Err(k),
            },
        decreases n - i,
    {
        let e = find_byte(s, i, n, 0x0au8);
        let line_end = if e > i && s[e - 1] == 0x0du8 {
            e - 1
        } else {
            e
        };
        assert(line_end == content_end(s@, i as int, e as int));
        match parse_line(s, i, line_end) {
            Err(k) => {
                return Err(k);
            },
            Ok((c, ix)) => {
                let ghost (pc, pix) = (spans_view(coords@), indices_view(indices@));
                let mut k: usize = 0;
                while k < c.len()
                    invariant
                        k <= c@.len(),
                        spans_view(coords@) == pc + spans_view(c@).take(k as int),
                    decreases c@.len() - k,
                {
                    let ghost before = coords@;
                    coords.push(c[k]);
                    assert(spans_view(coords@) =~= spans_view(before).push(
                        (c@[k as int].0 as int, c@[k as int].1 as int),
                    ));
                    assert(spans_view(c@).take(k + 1) =~= spans_view(c@).take(k as int).push(
                        (c@[k as int].0 as int, c@[k as int].1 as int),
                    ));
                    k += 1;
                }
                let mut k: usize = 0;
                while k < ix.len()
                    invariant
                        k <= ix@.len(),
                        indices_view(indices@) == pix + indices_view(ix@).take(k as int),
                    decreases ix@.len() - k,
                {
                    let ghost before = indices@;
                    indices.push(ix[k]);
                    assert(indices_view(indices@) =~= indices_view(before).push(ix@[k as int] as int));
                    assert(indices_view(ix@).take(k + 1) =~= indices_view(ix@).take(k as int).push(
                        ix@[k as int] as int,
                    ));
                    k += 1;
                }
                assert(spans_view(c@).take(c@.len() as int) =~= spans_view(c@));
                assert(indices_view(ix@).take(ix@.len() as int) =~= indices_view(ix@));
                proof {
                    match obj_from(s@, e + 1) {
                        Ok((c2, ix2)) => {
                            assert(pc + spans_view(c@) + c2 =~= pc + (spans_view(c@) + c2));
                            assert(pix + indices_view(ix@) + ix2 =~= pix + (indices_view(ix@) + ix2));
                        },
                        Err(_) => {},
                    }
                }
            },
        }
        if e < n {
            i = e + 1;
        } else {
            i = n;
        }
    }
    proof {
        assert(spans_view(coords@) + Seq::<(int, int)>::empty() =~= spans_view(coords@));
        assert(indices_view(indices@) + Seq::<int>::empty() =~= indices_view(indices@));
    }
    Ok(ObjData { coordinate_spans: coords, vertex_indices: indices })
}

} // verus!
