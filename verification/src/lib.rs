pub mod align;
pub mod config;
pub mod ops;
pub mod render;
pub mod textfmt;
