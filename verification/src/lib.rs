//! Deterministic, context-free L-systems and their turtle interpretation.
//!
//! A grammar rewrites a generation of symbols into the next one
//! ([`grammar`], [`system`]); a turtle runs the actions that the symbols carry
//! and emits lines and circles ([`turtle`]); a second pass over the same
//! actions measures the drawing ([`extent`]).
//!
//! The library holds numbers by their bit patterns ([`scalar`]) and leaves the
//! arithmetic on them to its caller. What it decides itself is stated in the
//! contracts of its functions, and what follows from those is proved in
//! [`laws`] and [`balance`].

pub mod balance;
pub mod extent;
pub mod grammar;
pub mod laws;
pub mod nesting;
pub mod scalar;
pub mod symbol;
pub mod system;
pub mod turtle;
