//! The device-independent core of a small 2D vector-graphics renderer:
//! drawing styles, the packed path-command format, integer geometry for
//! scissor rectangles, primitive grouping and batching, and the sizing rules
//! of GPU buffers.
pub mod buffer;
pub mod canvas;
pub mod commands;
pub mod context;
pub mod geom;
pub mod gradient;
pub mod mesh;
pub mod mesh_cache;
pub mod primitive_group;
pub mod style;
pub mod tessellation;
pub mod text;
pub mod texture;
