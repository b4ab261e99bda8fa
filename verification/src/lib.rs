//! Verified core of the carapace inspection proxy.
use vstd::prelude::*;

pub mod artifact;
pub mod asset;
pub mod bundle;
pub mod egress;
pub mod json;
pub mod mcp;
pub mod protocol;
pub mod proxy;
pub mod record;
pub mod secure;
pub mod sentinel;
pub mod seq_util;
pub mod session_graph;
pub mod text;
pub mod tools;

verus! {
} // verus!
