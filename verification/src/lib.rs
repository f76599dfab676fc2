//! Terminal webcam renderer: palette quantization, render-frame composition,
//! menu state machine, config parsing and PNG encoding, all verified.

pub mod text;
pub mod color;
pub mod style;
pub mod ascii;
pub mod screenshot;
pub mod render;
pub mod sample;
pub mod camera;
pub mod menu;
pub mod config;
pub mod session;
