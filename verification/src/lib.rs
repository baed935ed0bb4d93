//! Core logic of the Mezon desktop shell: base64 codecs, screen-source
//! pagination, pixel conversions and the pure decisions behind its commands.

pub mod text;
pub mod active_window;
pub mod clipboard;
pub mod image_ops;
pub mod screen_capture;
pub mod shell;
pub mod lite_commands;
pub mod capture_platform;
pub mod commands;
