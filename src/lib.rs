//! The exact, float-free core of a small ray tracer: a pixel buffer and its
//! plain-text PPM encoding, the layout side of matrices (construction,
//! bounds-checked access, transpose, submatrix) and their text form, and the
//! decisions of the demo renders.
mod layout;
pub mod canvas;
pub mod matrix;
pub mod text;
pub mod ppm;
pub mod output;
pub mod parsing;
pub mod clock;
pub mod projectile;
