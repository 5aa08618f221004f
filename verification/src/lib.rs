//! Verified core of the XRDS runtime: the id and hierarchy bookkeeping that sits between
//! authored scene documents and the live entities of the engine, the structural edits
//! (parenting, deletion, duplication) built on it, asset path and catalog rules, and the
//! track asset locks of the sequencing system.
use vstd::prelude::*;

pub mod ids;
pub mod hierarchy;
pub mod structure;
pub mod types;
pub mod registry;
pub mod panel;
pub mod locks;
pub mod catalog;
pub mod world;
pub mod api;
pub mod context;
pub mod paths;
pub mod gltf_source;
pub mod visibility;
pub mod triggers;
pub mod laws;

verus! {

} // verus!
