//! A safe, verified model of a hardware-topology API: a tree of hardware
//! objects (machine, packages, cores, processing units, caches, NUMA nodes,
//! I/O devices) together with the bitmap type used to describe CPU and NUMA
//! node sets.
//!
//! The topology is held as an arena of plain object records, so that derived
//! objects cannot outlive the topology that owns them, and every query over
//! the tree is ordinary verified code.

pub mod bitmap;
mod error;
pub mod object;
pub mod topology;
pub mod types;

pub use error::Error;
pub use object::Object;
pub use topology::Topology;
pub use topology::TopologyBuilder;
pub use types::ObjectType;
pub use types::TypeDepth;

use vstd::prelude::*;

verus! {

/// Demote a mutable borrow to a shared one, making the read-only intent
/// explicit at the call site. The borrowed value is not changed.
pub fn ptr_mut_to_const<T>(ptr: &mut T) -> (r: &T)
    ensures
        *final(ptr) == *old(ptr),
        *r == *old(ptr),
{
    ptr
}

} // verus!
