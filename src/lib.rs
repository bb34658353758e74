//! Terminal graphics: colored pixels, shapes, text and pictures drawn onto a grid of
//! character cells with half-block or full-block glyphs, and the grid written out as a
//! compact stream of ANSI truecolor escape sequences.

pub mod ansiesc;
pub mod canvas;
pub mod circle;
pub mod color;
pub mod config;
pub mod image;
pub mod point;
pub mod polygon;
pub mod raster;
pub mod rect;
pub mod rgba;
pub mod screen;
pub mod video;
