//! Shrink EPUB files by recompressing the images inside them.

pub mod quality;
pub mod cli;
pub mod codec;
pub mod container;
pub mod epub;
pub mod models;
pub mod paths;
pub mod text;
pub mod updates;

pub use quality::Quality;
