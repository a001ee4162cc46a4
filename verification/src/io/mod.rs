pub mod error;
pub mod color;
pub mod stream;
