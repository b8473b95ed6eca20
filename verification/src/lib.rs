use vstd::prelude::*;

pub mod ast;
pub mod doc;
pub mod text;
pub mod order;
pub mod keyed;
pub mod hashing;
pub mod effect_surface;
pub mod embed_resolve;
pub mod embed_pass;
pub mod escape_analyze;
pub mod field_cache;
pub mod git_cache;

verus! {

} // verus!
