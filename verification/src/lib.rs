//! Compile-checked trace markers: the argument grammar of the `trace` and
//! `implements` attributes, over a plain-value model of the attribute's token
//! stream, with the id-shape rule at its core.

pub mod id;
pub mod tokens;
pub mod grammar;
pub mod expand;
pub mod laws;
