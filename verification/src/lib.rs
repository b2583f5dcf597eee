//! The exact core of a 2D vector renderer: 24.8 fixed-point arithmetic, matrix type masks,
//! premultiplied RGBA8 pixel surfaces and blending, paths and their flattening walk, the
//! edge order, active list and span logic of the scanline rasterizer, stroke subpaths and
//! outlines, a cache of flattened paths, tile grids, atlas cells, a flat scene graph and a
//! drawing canvas over it. Geometry is generic over the point type: the library stores and
//! orders points, it never computes with their coordinates.
use vstd::prelude::*;

pub mod fixed;
pub mod type_mask;
pub mod simd;
pub mod aa;
pub mod scanline;
pub mod surface;
pub mod path;
pub mod flatten;
pub mod stroke;
pub mod paint;
pub mod pathops;
pub mod tile;
pub mod atlas;
pub mod scenegraph;
pub mod blur;
pub mod cache;
pub mod commands;
pub mod canvas;

verus! {
} // verus!
