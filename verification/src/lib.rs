//! A color-model conversion and canonicalization engine.
//!
//! Textual color forms (hex, `rgb()`, `rgba()`, `hsl()`, `hsla()`,
//! `hsv()`, `hsi()`, `hwb()`, `cmyk()`, named keywords) parse into one
//! canonical color of three channel magnitudes in `[0, 255]` and an alpha
//! in `[0, 1]`, carried as scaled integers. The canonical color converts
//! on demand into each supported space and renders back to text with that
//! space's own rounding. Every conversion and rendering carries a contract
//! giving the exact value or character sequence produced, and the laws
//! module proves the round-trip and fixed-point properties of the
//! `rgb()` form.

pub mod cie;
pub mod color;
pub mod convert;
pub mod hexfmt;
pub mod laws;
pub mod names;
pub mod num;
pub mod parse;
pub mod stringify;
pub mod trig;

pub use color::Color;
pub use parse::ParseError;
