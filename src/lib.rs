//! Keeps declarative package recipes (Nix expressions) in step with their
//! upstream sources: a format-preserving attribute editor over the parsed
//! recipe, the decisions of the per-source update strategies, and the record
//! of what happened to each recipe in a batch.
use vstd::prelude::*;

pub mod syntax;
pub mod text;
pub mod ast;
pub mod cache;
pub mod clients;
pub mod config;
pub mod laws;
pub mod oracle;
pub mod package;
pub mod strategy;

verus! {

} // verus!
