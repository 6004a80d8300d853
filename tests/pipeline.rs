use rangle::{
    assemble_primitives, axis_to_framebuffer, rasterize_line, rasterize_point, rasterize_primitive,
    rasterize_triangle, transform_coords_framebuffer_to_barycentric,
    transform_coords_normalized_to_framebuffer, Color, Fragment, NdcPoint, Primitive, RangleMode,
    RenderTarget, Weights, DEPTH_CLEAR, FIXED_ONE,
};

const BACKGROUND: Color = (0, 0, 0, 255);
const RED: Color = (255, 0, 0, 255);
const GREEN: Color = (0, 255, 0, 255);
const BLUE: Color = (0, 0, 255, 255);
const WHITE: Color = (255, 255, 255, 255);

fn ndc(x: f32, y: f32) -> NdcPoint {
    NdcPoint {
        x: (x * FIXED_ONE as f32).round() as i64,
        y: (y * FIXED_ONE as f32).round() as i64,
    }
}

fn depth(z: f32) -> i64 {
    (z * FIXED_ONE as f32).round() as i64
}

fn cleared(width: u16, height: u16) -> RenderTarget {
    let mut t = RenderTarget::new(width, height).unwrap();
    t.clear(BACKGROUND);
    t
}

/// Draws every primitive of `mode` over `positions` at one depth and color.
fn draw(t: &mut RenderTarget, mode: RangleMode, positions: &Vec<NdcPoint>, z: f32, color: Color) {
    let (w, h) = t.get_size();
    for p in assemble_primitives(mode, positions.len()) {
        for f in rasterize_primitive(p, positions, w, h) {
            t.write_fragment(f.x, f.y, depth(z), color);
        }
    }
}

fn pixel(t: &RenderTarget, x: usize, y: usize) -> Color {
    let (w, _) = t.get_size();
    t.get_frame_buffer().get_buffer()[y * w as usize + x]
}

fn pixels(t: &RenderTarget) -> Vec<Color> {
    t.get_frame_buffer().get_buffer().clone()
}

#[test]
fn clear_resets_depth_and_color() {
    let mut t = RenderTarget::new(3, 2).unwrap();
    t.write_fragment(1, 1, 0, RED);
    t.clear(GREEN);
    for y in 0..2 {
        for x in 0..3 {
            assert_eq!(t.get_depth(x, y), DEPTH_CLEAR);
            assert_eq!(pixel(&t, x as usize, y as usize), GREEN);
        }
    }
    assert_eq!(DEPTH_CLEAR, -2 * FIXED_ONE);
}

#[test]
fn closer_fragment_wins() {
    let mut t = cleared(3, 3);
    assert!(t.write_fragment(1, 1, depth(0.2), GREEN));
    assert!(t.write_fragment(1, 1, depth(0.5), BLUE));
    assert_eq!(pixel(&t, 1, 1), BLUE);
    assert!(!t.write_fragment(1, 1, depth(0.3), RED));
    assert_eq!(pixel(&t, 1, 1), BLUE);
    assert_eq!(t.get_depth(1, 1), depth(0.5));
}

#[test]
fn equal_depth_keeps_first_fragment() {
    let mut t = cleared(3, 3);
    assert!(t.write_fragment(0, 2, depth(0.25), GREEN));
    assert!(!t.passes_depth_test(0, 2, depth(0.25)));
    assert!(!t.write_fragment(0, 2, depth(0.25), RED));
    assert_eq!(pixel(&t, 0, 2), GREEN);
}

#[test]
fn depth_outside_unit_range_is_discarded() {
    let mut t = cleared(2, 2);
    assert!(!t.write_fragment(0, 0, FIXED_ONE + 1, RED));
    assert!(!t.write_fragment(0, 0, -FIXED_ONE - 1, RED));
    assert!(t.write_fragment(0, 0, FIXED_ONE, RED));
    assert!(t.write_fragment(1, 0, -FIXED_ONE, RED));
}

#[test]
fn barycentric_weights_sum_to_one() {
    let w = transform_coords_framebuffer_to_barycentric(1, 1, 0, 0, 4, 0, 0, 4).unwrap();
    assert_eq!(w.a + w.b + w.c, w.den);
    assert!(w.den > 0);
    // a = ((0-4)(1-0) + (0-4)(1-4)) / ((0-4)(0-0) + (0-4)(0-4)) = 8/16.
    assert_eq!(w.a * 16, 8 * w.den);
    assert_eq!(w.b * 16, 4 * w.den);
    assert_eq!(w.c * 16, 4 * w.den);
}

#[test]
fn barycentric_tie_breaks() {
    let all = transform_coords_framebuffer_to_barycentric(2, 2, 2, 2, 2, 2, 2, 2).unwrap();
    assert_eq!(all, Weights { a: 1, b: 1, c: 1, den: 3 });
    let two = transform_coords_framebuffer_to_barycentric(2, 2, 5, 5, 2, 2, 2, 2).unwrap();
    assert_eq!(two, Weights { a: 0, b: 1, c: 1, den: 2 });
    // Collinear vertices, pixel off their line: an infinite coordinate.
    assert_eq!(transform_coords_framebuffer_to_barycentric(0, 1, 0, 0, 1, 0, 2, 0), None);
    // Collinear vertices, pixel on the third vertex's spot through the formula.
    let on = transform_coords_framebuffer_to_barycentric(1, 0, 0, 0, 2, 0, 3, 0).unwrap();
    assert_eq!(on, Weights { a: 0, b: 0, c: 1, den: 1 });
}

#[test]
fn degenerate_triangle_yields_one_fragment() {
    let frags = rasterize_triangle((4, 7), (4, 7), (4, 7));
    assert_eq!(
        frags,
        vec![Fragment { x: 4, y: 7, weights: Weights { a: 1, b: 1, c: 1, den: 3 } }]
    );
}

#[test]
fn triangle_fragments_are_row_major_and_unit() {
    let frags = rasterize_triangle((0, 0), (4, 0), (0, 4));
    assert_eq!(frags.len(), 15);
    for pair in frags.windows(2) {
        assert!((pair[0].y, pair[0].x) < (pair[1].y, pair[1].x));
    }
    for f in &frags {
        assert_eq!(f.weights.a + f.weights.b + f.weights.c, f.weights.den);
        assert!(f.x + f.y <= 4);
    }
}

#[test]
fn line_covers_both_endpoints() {
    let frags = rasterize_line(ndc(-1.0, -1.0), ndc(1.0, 0.5), 9, 9);
    let first = (frags[0].x, frags[0].y);
    let last = (frags[frags.len() - 1].x, frags[frags.len() - 1].y);
    assert_eq!(first, transform_coords_normalized_to_framebuffer(ndc(1.0, 0.5), 9, 9));
    assert_eq!(last, transform_coords_normalized_to_framebuffer(ndc(-1.0, -1.0), 9, 9));
    assert_eq!(frags.len(), 9);
    // The walk starts from the second endpoint, so the weight moves from b to a.
    assert_eq!(frags[0].weights, Weights { a: 0, b: 8, c: 0, den: 8 });
    assert_eq!(frags[8].weights, Weights { a: 8, b: 0, c: 0, den: 8 });
    // Minor axis: rows 2 (y = 0.5) to 8 (y = -1) over 8 steps, rounded.
    let ys: Vec<u16> = frags.iter().map(|f| f.y).collect();
    assert_eq!(ys, vec![2, 3, 4, 4, 5, 6, 7, 7, 8]);
}

#[test]
fn vertical_line_walks_rows() {
    let frags = rasterize_line(ndc(0.0, -1.0), ndc(0.0, 1.0), 5, 5);
    let cells: Vec<(u16, u16)> = frags.iter().map(|f| (f.x, f.y)).collect();
    assert_eq!(cells, vec![(2, 0), (2, 1), (2, 2), (2, 3), (2, 4)]);
    assert_eq!(frags[1].weights, Weights { a: 1, b: 3, c: 0, den: 4 });
}

#[test]
fn orientation_convention() {
    assert_eq!(transform_coords_normalized_to_framebuffer(ndc(0.0, 0.0), 5, 4), (2, 2));
    assert_eq!(transform_coords_normalized_to_framebuffer(ndc(0.0, 0.0), 3, 3), (1, 1));
    assert_eq!(transform_coords_normalized_to_framebuffer(ndc(1.0, 0.0), 7, 7).0, 0);
    assert_eq!(transform_coords_normalized_to_framebuffer(ndc(-1.0, 1.0), 7, 7), (6, 0));
    // Out of range coordinates are clamped.
    assert_eq!(axis_to_framebuffer(5 * FIXED_ONE, 10), 0);
    assert_eq!(axis_to_framebuffer(-5 * FIXED_ONE, 10), 9);
    assert_eq!(axis_to_framebuffer(i64::MIN, 10), 9);
    assert_eq!(axis_to_framebuffer(i64::MAX, 10), 0);
}

#[test]
fn point_fragment_has_full_weight() {
    let f = rasterize_point(ndc(-1.0, -1.0), 4, 3);
    assert_eq!(f, Fragment { x: 3, y: 2, weights: Weights { a: 1, b: 0, c: 0, den: 1 } });
}

#[test]
fn assembly_per_mode() {
    assert_eq!(assemble_primitives(RangleMode::Triangles, 6), vec![
        Primitive::Triangle(0, 1, 2),
        Primitive::Triangle(3, 4, 5)
    ]);
    assert_eq!(assemble_primitives(RangleMode::Lines, 3), vec![
        Primitive::Line(0, 1),
        Primitive::Line(1, 2),
        Primitive::Line(2, 0)
    ]);
    assert_eq!(assemble_primitives(RangleMode::Points, 3), vec![
        Primitive::Point(0),
        Primitive::Point(1),
        Primitive::Point(2)
    ]);
    assert!(assemble_primitives(RangleMode::Triangles, 0).is_empty());
}

#[test]
fn single_red_triangle() {
    let mut t = cleared(3, 3);
    let positions = vec![ndc(-1.0, -1.0), ndc(1.0, -1.0), ndc(0.0, 1.0)];
    draw(&mut t, RangleMode::Triangles, &positions, 0.0, RED);
    // The vertices land on pixels (2, 2), (0, 2) and (1, 0); exactly the
    // pixels whose barycentric coordinates lie in [0, 1] turn red.
    let b = BACKGROUND;
    assert_eq!(pixels(&t), vec![b, RED, b, b, RED, b, RED, RED, RED]);
}

#[test]
fn z_order_closer_triangle_wins() {
    let positions = vec![ndc(-1.0, -1.0), ndc(1.0, -1.0), ndc(0.0, 1.0)];
    for a_first in [true, false] {
        let mut t = cleared(3, 3);
        if a_first {
            draw(&mut t, RangleMode::Triangles, &positions, 0.2, GREEN);
            draw(&mut t, RangleMode::Triangles, &positions, 0.5, BLUE);
        } else {
            draw(&mut t, RangleMode::Triangles, &positions, 0.5, BLUE);
            draw(&mut t, RangleMode::Triangles, &positions, 0.2, GREEN);
        }
        assert_eq!(pixel(&t, 1, 1), BLUE);
    }
}

#[test]
fn out_of_range_triangle_leaves_background() {
    let mut t = cleared(3, 3);
    let positions = vec![ndc(-1.0, -1.0), ndc(1.0, -1.0), ndc(0.0, 1.0)];
    draw(&mut t, RangleMode::Triangles, &positions, 1.5, RED);
    draw(&mut t, RangleMode::Triangles, &positions, -3.0, RED);
    assert!(pixels(&t).iter().all(|&c| c == BACKGROUND));
}

#[test]
fn lines_mode_fills_middle_row() {
    let mut t = cleared(3, 3);
    let vertices = vec![ndc(-1.0, 0.0), ndc(1.0, 0.0)];
    let positions: Vec<NdcPoint> = [0usize, 1, 0].iter().map(|&i| vertices[i]).collect();
    draw(&mut t, RangleMode::Lines, &positions, 0.0, WHITE);
    let b = BACKGROUND;
    assert_eq!(pixels(&t), vec![b, b, b, WHITE, WHITE, WHITE, b, b, b]);
}

#[test]
fn points_mode_marks_vertices() {
    let mut t = cleared(3, 3);
    let vertices = vec![ndc(-1.0, 0.0), ndc(1.0, 0.0)];
    let positions: Vec<NdcPoint> = [0usize, 1, 0].iter().map(|&i| vertices[i]).collect();
    draw(&mut t, RangleMode::Points, &positions, 0.0, WHITE);
    let b = BACKGROUND;
    assert_eq!(pixels(&t), vec![b, b, b, WHITE, b, WHITE, b, b, b]);
}

#[test]
fn primitive_weights_follow_vertex_order() {
    let positions = vec![ndc(1.0, 0.0), ndc(-1.0, 0.0)];
    let frags = rasterize_primitive(Primitive::Line(0, 1), &positions, 3, 3);
    assert_eq!(frags[0].weights, Weights { a: 2, b: 0, c: 0, den: 2 });
    assert_eq!((frags[0].x, frags[0].y), (0, 1));
    let frags = rasterize_primitive(Primitive::Line(1, 0), &positions, 3, 3);
    assert_eq!(frags[0].weights, Weights { a: 0, b: 2, c: 0, den: 2 });
}
