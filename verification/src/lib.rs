//! A verified core for the blurhash compact image placeholder format.
//!
//! A blurhash is a short ASCII string: one size-flag digit, one
//! quantized-maximum digit, four digits packing the average (DC) color,
//! and two digits for each remaining (AC) coefficient, all written in a
//! fixed 83-symbol alphabet. This crate holds the integer and string
//! layers of the format — the base-83 codec, the coefficient packing,
//! the shape validation, and the assembly and parsing of hash strings —
//! each with a contract that pins down its result. The floating-point
//! cosine transform and color-space conversion that produce and consume
//! the quantized coefficients live outside the verified library.

pub mod base83;
pub mod coeff;
mod error;
mod facade;

pub use error::Error;
pub use facade::blurHashForPixels;
pub use facade::components;
pub use facade::encode;
pub use facade::encode83;
pub use facade::parse;
pub use facade::HashPayload;
pub use facade::validate_blurhash;
