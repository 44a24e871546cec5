//! Procedural test pictures for terminals and images, in fixed-point
//! arithmetic: colour wheels and charts, broadcast colour bars, the
//! Mandelbrot set, Newton's basins for the roots of unity, and a pattern that
//! shows what colours a terminal can display.
//!
//! A picture is a function from a point of the unit square to a colour.
//! Around the pictures stand the geometry that fits a picture into a canvas,
//! the supersampling that averages a picture over a pixel, and the
//! quantizers that turn a colour into what a raster or a terminal can hold.
//! Every continuous quantity is an `i64` counting units of `1 / ONE`.

pub mod fixed;
pub mod data;
pub mod draw_lib;
pub mod draw_func_ansi;
pub mod draw_func_colorbar;
pub mod draw_func_color;
pub mod draw_func_mandelbrot;
pub mod draw_func_newton;
pub mod draw_func;
pub mod draw_term;
pub mod draw_image;
pub mod args;
