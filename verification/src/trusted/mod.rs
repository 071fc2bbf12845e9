//! Everything this crate takes on trust: the items of other crates and of
//! `std` that the verified code calls, each with the contract that the
//! proofs rest on. Nothing here is proved; the rest of the crate is.

pub mod clock;
pub mod digest;
pub mod tarball;
pub mod text;
pub mod zstandard;
