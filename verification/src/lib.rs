//! Keyboard RGB control for HP Victus laptops: the command line, the ambient
//! palette and its file format, screen-colour parsing and palette snapping.
pub mod text;
pub mod kb_rgb_effects;
pub mod cli;
pub mod ec;
pub mod process;
pub mod color;
