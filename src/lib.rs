//! In-place substitution of UTF-16LE strings inside executable images.
pub mod codec;
pub mod image;
pub mod substitute;
pub mod table;
pub mod translate;
