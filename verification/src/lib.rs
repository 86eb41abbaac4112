//! A software rasterizer with verified contracts.
//!
//! The crate turns triangles and point sprites, given as vertices in
//! homogeneous coordinates with interpolated attributes, into colours in a
//! framebuffer: it transforms and projects the vertices, walks the covered
//! samples scanline by scanline, and composites each sample over what the
//! framebuffer holds, with an optional depth test, texture and supersampling.
//!
//! All numbers are fixed-point ([`fixed::Fixed`]): every operation is a total
//! function with an exact mathematical meaning, which the contracts of this
//! crate are stated in.
//!
//! The modules, leaves first:
//!
//! - [`fixed`]: the scalar type and its arithmetic;
//! - [`axis`]: the places of the named fields in a vertex;
//! - [`position`], [`color`], [`pixel`]: plain records of a scene's values;
//! - [`matrix`]: the uniform transform;
//! - [`point`]: vertices, lists of vertices and the transform stage;
//! - [`rasterize`]: triangles and point sprites to samples;
//! - [`texture`]: texture lookup;
//! - [`depth_image`]: the framebuffer and its resolve;
//! - [`draw`]: the fragment stage and the two draw calls;
//! - [`scene`]: attribute buffers and draw calls over whole buffers;
//! - [`args`]: reading the integer arguments of a command;
//! - [`encode`]: the resolved image as an 8-bit image buffer.

pub mod args;
pub mod axis;
pub mod color;
pub mod depth_image;
pub mod draw;
pub mod encode;
pub mod fixed;
pub mod matrix;
pub mod pixel;
pub mod point;
pub mod position;
pub mod rasterize;
pub mod scene;
pub mod texture;
