//! Colour configuration for the Cava audio visualizer: the `[color]` section
//! of its configuration file, hex colour parsing, and the decisions of the
//! interactive solid and gradient editors.

pub mod text;
pub mod config;
pub mod rewrite;
pub mod color;
pub mod editor;
pub mod solid;
pub mod gradient;
pub mod menu;
pub mod roundtrip;
pub mod reading;
pub mod stability;
pub mod preserve;
pub mod settings;
