//! The logic of a drawing whiteboard: canvas geometry, pixel buffers, line
//! rasterisation, stroke history with undo and redo, and the handling of
//! input events.

pub mod geometry;
pub mod line;
pub mod color;
pub mod canvas;
pub mod painting;
pub mod pixels;
pub mod whiteboard;
pub mod stroke;
pub mod laws;
pub mod session;
