//! Finds the human-facing string literals in JavaScript, TypeScript, JSX,
//! Vue and HTML sources, derives translation keys for them, and rewrites the
//! sources so that each literal becomes a translation call, with the needed
//! import present once.

use vstd::prelude::*;

pub mod models;
pub mod text;
pub mod keys;
pub mod filter;
pub mod scanner;
pub mod replacer;
pub mod imports;
pub mod config;
pub mod languages;
pub mod workflow;
pub mod wizard;

verus! {

} // verus!
