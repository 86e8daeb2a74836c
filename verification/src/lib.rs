pub mod app_map;
pub mod applet;
pub mod config;
pub mod keyed;
pub mod styles;
pub mod text;
