//! Window layout, pixel transfer and shell bookkeeping of a small tiling
//! Wayland compositor.
pub mod gl_renderer;
pub mod layout;
pub mod render;
pub mod state;
