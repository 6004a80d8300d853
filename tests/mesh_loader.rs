use rangle::{expand_vertex_buffer, parse_obj, RangleError};

fn field<'a>(text: &'a str, span: (usize, usize)) -> &'a str {
    &text[span.0..span.1]
}

#[test]
fn obj_loader_reads_vertices_and_faces() {
    let text = "v 0 0 0\nv 1 0 0\nv 0 1 0\nf 1 2 3\n";
    let obj = parse_obj(text.as_bytes()).unwrap();
    assert_eq!(obj.coordinate_spans.len(), 9);
    let coords: Vec<f32> = obj
        .coordinate_spans
        .iter()
        .map(|&s| field(text, s).parse::<f32>().unwrap())
        .collect();
    assert_eq!(coords, vec![0.0, 0.0, 0.0, 1.0, 0.0, 0.0, 0.0, 1.0, 0.0]);
    assert_eq!(obj.vertex_indices, vec![0, 1, 2]);
}

#[test]
fn obj_faces_are_fan_triangulated() {
    let text = "f 1/4/7 2//8 3 4\r\nf  5   6 7 8 9\n";
    let obj = parse_obj(text.as_bytes()).unwrap();
    assert!(obj.coordinate_spans.is_empty());
    assert_eq!(obj.vertex_indices, vec![0, 1, 2, 0, 2, 3, 4, 5, 6, 4, 6, 7, 4, 7, 8]);
}

#[test]
fn obj_vertex_fields_skip_extra_spaces() {
    let text = "# comment\nv  1.5   -2 3e1 1\r\nvn 0 0 1\nvt 0 0\no name\n";
    let obj = parse_obj(text.as_bytes()).unwrap();
    let fields: Vec<&str> = obj.coordinate_spans.iter().map(|&s| field(text, s)).collect();
    assert_eq!(fields, vec!["1.5", "-2", "3e1"]);
    assert!(obj.vertex_indices.is_empty());
}

#[test]
fn obj_short_face_adds_nothing() {
    let obj = parse_obj(b"f 1 2\nf\n").unwrap();
    assert!(obj.vertex_indices.is_empty());
}

#[test]
fn obj_vertex_with_too_few_fields_is_parse_float() {
    assert_eq!(parse_obj(b"v 1 2\n").err(), Some(RangleError::ParseFloat));
}

#[test]
fn obj_malformed_face_index_is_parse_int() {
    assert_eq!(parse_obj(b"f 1 x 3\n").err(), Some(RangleError::ParseInt));
    assert_eq!(parse_obj(b"f 1 0 3\n").err(), Some(RangleError::ParseInt));
    assert_eq!(parse_obj(b"f 1 /2 3\n").err(), Some(RangleError::ParseInt));
    assert_eq!(parse_obj(b"f 1 2 99999999999999999999999\n").err(), Some(RangleError::ParseInt));
}

#[test]
fn obj_first_error_wins() {
    assert_eq!(parse_obj(b"f 1 x 3\nv 1\n").err(), Some(RangleError::ParseInt));
    assert_eq!(parse_obj(b"v 1\nf 1 x 3\n").err(), Some(RangleError::ParseFloat));
}

#[test]
fn vertex_buffer_follows_indices() {
    let flat = vec![0.0f32, 0.0, 0.0, 1.0, 0.0, 0.0, 0.0, 1.0, 0.0];
    let buffer = expand_vertex_buffer(&flat, &vec![2, 0, 2]).unwrap();
    assert_eq!(buffer, vec![(0.0, 1.0, 0.0), (0.0, 0.0, 0.0), (0.0, 1.0, 0.0)]);
    assert_eq!(expand_vertex_buffer(&flat, &vec![0, 3]), None);
}
