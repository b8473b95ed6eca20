//! Receiver-field caching: a pass over method bodies that reads each
//! `@field` once into a local when it is read often enough and cannot
//! change in between.

use vstd::prelude::*;

pub mod apply;
pub mod chain;
pub mod chain_path;
pub mod chain_prefix;
pub mod chain_rewrite;
pub mod chain_scan;
pub mod collect;
pub mod env_config;
pub mod explain;
pub mod frame;
pub mod ipa;
pub mod licm;
pub mod licm_step;
pub mod literal_key;
pub mod method;
pub mod nested;
pub mod names;
pub mod pass;
pub mod plan;
pub mod pure;
pub mod pure_rewrite;
pub mod pure_scan;
pub mod purity;
pub mod reads;
pub mod rewrite;
pub mod savings;
pub mod scan;
pub mod scc;
pub mod scc_cache;
pub mod sets_cache;
pub mod propagate;
pub mod writes_any;
pub mod writeset;

verus! {
} // verus!
