//! The reconciliation core of a declarative package manager: it compares the
//! user's declared package set, partitioned into named groups and per-backend
//! sections, against what is actually installed, and derives what is missing
//! and what is unmanaged, per backend, with deterministic ordering.
//!
//! The core is pure: it parses the tool's captured output, computes sorted
//! set differences, plans install batches (toolchains strictly before
//! components), and aggregates per-backend results with error isolation.
//! Spawning the tool, file handling and the confirmation prompt live outside
//! it and hand it plain values.

use vstd::prelude::*;

pub mod diff;
pub mod error;
pub mod group;
pub mod package;
pub mod rustup;
pub mod text;
pub mod todo;

verus! {

/// The version banner of the tool.
pub fn get_version_string() -> (r: &'static str)
    ensures
        r@ == "pacdef, version: 1.0.0"@,
{
    "pacdef, version: 1.0.0"
}

} // verus!
