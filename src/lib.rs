//! Integrity core of a minimal blockchain: sign-correct modular arithmetic,
//! the nibble-wise proof-of-work target, and blocks whose hash is derived
//! from their fields.
pub mod bigint;
pub mod math;
pub mod digest;
pub mod text;
pub mod difficulty;
pub mod transaction;
pub mod merkle;
pub mod block;
