//! A software rasterizer core: framebuffer and depth buffer, the mapping from
//! normalized device coordinates to pixels, primitive assembly, and the
//! generation of point, line and triangle fragments with exact interpolation
//! weights; besides, the structure of mesh files and the named attribute
//! buffers and uniforms of shader programs.
//!
//! Coordinates and depths are fixed point (`FIXED_ONE` per unit); shading and
//! attribute interpolation over floating-point values are left to the caller.
pub mod error;
pub mod frame_buffer;
pub mod viewport;
pub mod barycentric;
pub mod raster;
pub mod render_target;
pub mod assembly;
pub mod mesh;
pub mod attributes;

pub use assembly::{
    assemble_primitives, rasterize_point, rasterize_primitive, Primitive, RangleMode,
};
pub use attributes::{AttributeBuffers, UniformMap};
pub use barycentric::{transform_coords_framebuffer_to_barycentric, Weights};
pub use error::RangleError;
pub use frame_buffer::{Color, FrameBuffer};
pub use mesh::{expand_vertex_buffer, parse_obj, ObjData};
pub use raster::{rasterize_line, rasterize_triangle, Fragment};
pub use render_target::{RenderTarget, DEPTH_CLEAR};
pub use viewport::{
    axis_to_framebuffer, transform_coords_normalized_to_framebuffer, NdcPoint, FIXED_ONE,
};
