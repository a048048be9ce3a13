//! The lighting effects' own logic.
pub mod ambient;
pub mod screen_color;
pub mod palette_cli;
pub mod ambient_env;
pub mod palette_messages;
