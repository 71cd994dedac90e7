//! A software rasteriser's verified core: RGBA8 textures, a colour and depth
//! frame buffer, the index logic of 3x3 and 4x4 matrices, and the binary
//! static-mesh format.

pub mod texture;
pub mod framebuffer;
pub mod matrix3;
pub mod matrix4;
pub mod staticmesh;
