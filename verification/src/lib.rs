//! AES-128 over hexadecimal text.
pub mod hexfmt;
pub mod gf;
pub mod model;
pub mod constants;
pub mod utils;
pub mod key;
pub mod encrypt;
pub mod decrypt;
pub mod laws;
