//! A verified codec for the binary Portable Pixmap format (PPM "P6").
//!
//! The format is a short ASCII header (magic signature, dimensions, maximum
//! channel value) followed by raw red-green-blue byte triples in row-major
//! order. The library decodes such byte streams into a [`Ppm`] pixel grid,
//! offers bounds-checked access to the grid, and encodes a grid back into
//! the same byte layout.

pub mod codec;
pub mod color;
pub mod error;
pub mod grid;
pub mod laws;
pub mod numeral;

pub use color::Color;
pub use error::Error;
pub use grid::GridView;
pub use grid::Ppm;
