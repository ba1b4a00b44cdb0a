pub mod bitmap;
pub mod bytes;

pub use bitmap::Bitmap;
