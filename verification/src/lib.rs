pub mod text;
pub mod css_layout;
pub mod glob;
pub mod network;
pub mod diagnostics;
pub mod emoji;
pub mod math;
pub mod document;
pub mod server;
pub mod config;
pub mod fonts;
pub mod splice;
pub mod assets;
pub mod highlight;
pub mod mermaid;
pub mod svg;
pub mod cli;
