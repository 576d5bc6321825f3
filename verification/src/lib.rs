//! Local-first folder synchronization engine.
//!
//! The library models a scanned folder as a tree of [`node::FileNode`]
//! values, decides per file whether it is stale relative to the last
//! recorded synchronization, reconciles a fresh scan with the previous
//! snapshot, plans transfers, and renders/parses the durable snapshot
//! document. All decisions are pure functions over plain values; the
//! surrounding process performs the actual filesystem walking and
//! network transfer and feeds the results back in.

pub mod builder;
pub mod codec;
pub mod config;
pub mod gitutil;
pub mod jsontext;
pub mod merge;
pub mod node;
pub mod paths;
pub mod snapshot;
pub mod sync;
pub mod tree;

use vstd::prelude::*;

verus! {

/// Well-known relative name of the snapshot document kept inside the
/// synchronized folder. The file is metadata, not payload: it is never
/// itself classified as needing synchronization.
pub open spec fn snapshot_file_name() -> Seq<char> {
    "rusty-sync-structure.json"@
}

/// Executable counterpart of [`snapshot_file_name`].
pub fn snapshot_file_name_str() -> (r: &'static str)
    ensures
        r@ == snapshot_file_name(),
{
    "rusty-sync-structure.json"
}

} // verus!
