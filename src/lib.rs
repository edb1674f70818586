//! Threshold secret sharing over GF(256) with a CRC-32 integrity check, and the
//! checks and formats of a command line around it.
pub mod config;
pub mod formats;
pub mod gf256;
pub mod inspect;
pub mod lagrange;
pub mod params;
pub mod poly;
pub mod scheme;
pub mod share;
pub mod text;

pub use scheme::{Shamir, ShamirError};
pub use share::Share;
