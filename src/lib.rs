//! The integer core of a software rasterizer: colors, fixed-size vectors,
//! a framebuffer with line and span drawing, and the structure of the mesh
//! pipeline (per-vertex maps and the dropping of faces that lose vertices).

pub mod mesh;
pub mod renderer;
pub mod vector;
