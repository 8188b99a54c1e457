//! Renders raster images and video frames as colorized glyph art for a
//! terminal: luma-based glyph selection with an adjustable granularity,
//! three color-mapping schemes, a frame rasterizer, and the pacing rules
//! that keep video playback locked to the source frame rate.

pub mod ascii;
pub mod color;
pub mod config;
pub mod media;
pub mod pacer;
pub mod pixel;
pub mod raster;
