//! Image utilities around a verified corner-rounding rasterizer: an RGBA
//! pixel buffer, radius resolution, a supersampled midpoint-circle mask
//! applied per corner, and the small colour and captcha helpers that serve
//! the same surface.

pub mod buffer;
pub mod captcha;
pub mod color;
pub mod dominant;
pub mod error;
pub mod mask;
pub mod random_color;
pub mod rounding;
pub mod utils;

pub use buffer::Pixel;
pub use buffer::PixelBuffer;
