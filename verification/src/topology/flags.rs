//! Flags to be set onto a topology before it is built.

use vstd::prelude::*;

verus! {

/// Flags to be set onto a topology before it is built.
///
/// Flags should be given to [`TopologyBuilder::flags`]. They may also be
/// returned by [`Topology::flags`].
///
/// A `Flags` value is a set of the named flags below, each a distinct bit of
/// a `u64`; [`Flags::bits`] returns the raw OR'ed value, and
/// [`Flags::from_bits_truncate`] builds a set from one. Only the low seven
/// bits are valid flag bits.
///
/// [`TopologyBuilder::flags`]: crate::topology::TopologyBuilder::flags
/// [`Topology::flags`]: crate::topology::Topology::flags
#[derive(Debug, Clone, Copy, Hash, PartialEq, Eq, Structural)]
pub struct Flags {
    bits: u64,
}

impl Flags {
    /// Detect the whole system, ignore reservations, include disallowed objects.
    ///
    /// Gather all online resources, even if some were disabled by the
    /// administrator; offline PUs and NUMA nodes are still ignored.
    pub const INCLUDE_DISALLOWED: u64 = 0x1;

    /// Assume that the selected backend provides the topology for the system
    /// on which we are running, even if it is not the OS-specific backend.
    /// This makes the binding functions actually perform binding.
    pub const IS_THISSYSTEM: u64 = 0x2;

    /// Get the set of allowed resources from the local operating system even
    /// if the topology was loaded from XML or a synthetic description.
    ///
    /// This flag is ignored unless [`Flags::IS_THISSYSTEM`] is also set.
    pub const THISSYSTEM_ALLOWED_RESOURCES: u64 = 0x4;

    /// Import support from the imported topology.
    ///
    /// When importing a topology from a remote machine, binding is disabled
    /// by default; this flag imports the support bits of the remote machine
    /// instead, and marks the imported support in the miscellaneous support
    /// flags.
    pub const IMPORT_SUPPORT: u64 = 0x8;

    /// Do not consider resources outside of the process CPU binding.
    ///
    /// If the binding of the process is limited to a subset of cores, ignore
    /// the other cores during discovery. This flag requires
    /// [`Flags::IS_THISSYSTEM`] as well, since binding support is required.
    pub const RESTRICT_TO_CPUBINDING: u64 = 0x10;

    /// Do not consider resources outside of the process memory binding.
    ///
    /// If the binding of the process is limited to a subset of NUMA nodes,
    /// ignore the other NUMA nodes during discovery. This flag requires
    /// [`Flags::IS_THISSYSTEM`] as well, since binding support is required.
    pub const RESTRICT_TO_MEMBINDING: u64 = 0x20;

    /// Do not ever modify the process or thread binding during discovery.
    pub const DONT_CHANGE_BINDING: u64 = 0x40;

    /// The OR of all valid flag bits.
    pub const ALL_BITS: u64 = 0x7f;

    /// The raw OR'ed flag bits of this value.
    pub closed spec fn spec_bits(self) -> u64 {
        self.bits
    }

    /// Whether every bit set in this value is a valid flag bit.
    pub open spec fn wf(self) -> bool {
        self.spec_bits() & 0x7f == self.spec_bits()
    }

    /// The raw OR'ed flag bits of this value.
    pub fn bits(&self) -> (r: u64)
        ensures
            r == self.spec_bits(),
    {
        self.bits
    }

    /// The empty set of flags.
    pub fn empty() -> (r: Flags)
        ensures
            r.spec_bits() == 0,
    {
        Flags { bits: 0 }
    }

    /// The set of all valid flags.
    pub fn all() -> (r: Flags)
        ensures
            r.spec_bits() == Flags::ALL_BITS,
    {
        Flags { bits: 0x7f }
    }

    /// The flags whose bits are set in `bits`; bits that correspond to no
    /// valid flag are dropped.
    pub fn from_bits_truncate(bits: u64) -> (r: Flags)
        ensures
            r.spec_bits() == bits & 0x7f,
    {
        Flags { bits: bits & 0x7f }
    }

    /// Whether no flag is set.
    pub fn is_empty(&self) -> (r: bool)
        ensures
            r == (self.spec_bits() == 0),
    {
        self.bits == 0
    }

    /// Whether every flag set in `other` is also set in `self`.
    pub fn contains(&self, other: Flags) -> (r: bool)
        ensures
            r == (self.spec_bits() & other.spec_bits() == other.spec_bits()),
    {
        self.bits & other.bits == other.bits
    }

    /// The flags set in `self` or in `other`.
    pub fn union(self, other: Flags) -> (r: Flags)
        ensures
            r.spec_bits() == self.spec_bits() | other.spec_bits(),
    {
        Flags { bits: self.bits | other.bits }
    }

    /// The flags set in both `self` and `other`.
    pub fn intersection(self, other: Flags) -> (r: Flags)
        ensures
            r.spec_bits() == self.spec_bits() & other.spec_bits(),
    {
        Flags { bits: self.bits & other.bits }
    }

    /// The flags set in `self` but not in `other`.
    pub fn difference(self, other: Flags) -> (r: Flags)
        ensures
            r.spec_bits() == self.spec_bits() & !other.spec_bits(),
    {
        Flags { bits: self.bits & !other.bits }
    }
}

impl Default for Flags {
    /// The empty set of flags.
    fn default() -> (r: Flags)
        ensures
            r.spec_bits() == 0,
    {
        Flags { bits: 0 }
    }
}

} // verus!
