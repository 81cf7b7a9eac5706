//! A true random number generator for microcontrollers without a hardware RNG.
//!
//! Entropy comes from the rise-time jitter of a capacitor wired to a GPIO pin.
//! The raw samples are checked online by statistical health tests, hashed into
//! a 256-bit seed, and that seed keys a ChaCha20 stream generator.
//!
//! Everything here works on plain values: the pin, the pad registers and the
//! timer are driven by the embedding program, which hands the library what it
//! read and performs what the library decides.
pub mod calibrate;
pub mod cap;
pub mod error;
pub mod health;
pub mod rng;

pub use error::RngError;
pub use rng::{error, CapRng, Registry};
