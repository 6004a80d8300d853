use rangle::{AttributeBuffers, FrameBuffer, RangleError, UniformMap};

#[test]
fn it_works() {
    assert!(true);
}

#[test]
fn frame_buffer_starts_transparent_black() {
    let fb = FrameBuffer::new(4, 2).unwrap();
    assert_eq!(fb.get_size(), (4, 2));
    assert_eq!(fb.get_buffer().len(), 8);
    assert!(fb.get_buffer().iter().all(|&c| c == (0, 0, 0, 0)));
}

#[test]
fn frame_buffer_draw_point_is_row_major() {
    let mut fb = FrameBuffer::new(3, 2).unwrap();
    fb.draw_point(2, 1, (1, 2, 3, 4));
    assert_eq!(fb.get_buffer()[5], (1, 2, 3, 4));
    assert_eq!(fb.get_buffer().iter().filter(|&&c| c != (0, 0, 0, 0)).count(), 1);
}

#[test]
fn frame_buffer_fill() {
    let mut fb = FrameBuffer::new(2, 2).unwrap();
    fb.draw_point(0, 0, (9, 9, 9, 9));
    fb.fill_buffer((10, 20, 30, 255));
    assert!(fb.get_buffer().iter().all(|&c| c == (10, 20, 30, 255)));
}

#[test]
fn attribute_buffers_reject_duplicate_names() {
    let mut buffers: AttributeBuffers<u32> = AttributeBuffers::new();
    assert_eq!(buffers.add_attribute("position".to_string(), vec![1, 2, 3]), Ok(()));
    assert_eq!(buffers.add_attribute("color".to_string(), vec![4, 5, 6]), Ok(()));
    assert_eq!(
        buffers.add_attribute("position".to_string(), vec![7, 8, 9]),
        Err(RangleError::DuplicateShaderAttributes)
    );
    assert_eq!(
        buffers.vertex_attributes(1),
        vec![("position".to_string(), 2), ("color".to_string(), 5)]
    );
}

#[test]
fn uniforms_overwrite() {
    let mut uniforms: UniformMap<i32> = UniformMap::new();
    assert_eq!(uniforms.get(&"mvp".to_string()), None);
    uniforms.set_uniform("mvp".to_string(), 1);
    uniforms.set_uniform("scale".to_string(), 2);
    uniforms.set_uniform("mvp".to_string(), 3);
    assert_eq!(uniforms.get(&"mvp".to_string()), Some(3));
    assert_eq!(uniforms.get(&"scale".to_string()), Some(2));
}
