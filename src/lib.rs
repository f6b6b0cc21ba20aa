//! Lazy access to indexed mass-spectrometry XML files: offset tables, bounded
//! element extraction, and decoding of binary peak arrays.

pub mod codec;
pub mod error;
pub mod extract;
pub mod index;
pub mod mass_spectrum;
pub mod scan;
pub mod text;
