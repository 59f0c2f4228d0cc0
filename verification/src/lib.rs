pub mod binary64;
pub mod clamped;
pub mod escape;
pub mod mandelbrot;
pub mod shading;

pub use crate::mandelbrot::{ConfigurationError, Mandelbrot, MandelbrotBuilder};
pub use crate::shading::ShadingType;
