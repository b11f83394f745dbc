//! Procedural RGBA debug texture: a fixed colour palette, rotated a little
//! further on each row, laid out row after row in one byte buffer.
pub mod rotation;
pub mod texture;
