//! Runtime core of a guest program that runs on a bare virtual machine: the
//! bump allocator that is its only source of memory, the request it puts
//! before the receipt verifier, and the rules by which it comes to a halt.

pub mod abi;
pub mod bump;
pub mod error;
pub mod lifecycle;
pub mod region;
pub mod verification;
