//! Core logic of a small 2D engine with an embedded scene editor: the batched
//! quad geometry, the buffer growth policy, render-target redirection, the
//! camera model, picking, the scene file format and the editor's bookkeeping.
//! Floating-point math, the GPU and the window live with the application.

pub mod batch;
pub mod camera;
pub mod capacity;
pub mod components;
pub mod editor;
pub mod engine;
pub mod picking;
pub mod scene_file;
pub mod split;
pub mod target;
