//! Object type enumerations and the integer codes they travel as, plus the
//! virtual depth values used by object levels that live outside the main tree.

use vstd::prelude::*;
use core::cmp::Ordering;

verus! {

/// Type of topology object.
///
/// Each type has a stable integer code, given by [`ObjectType::to_u32`]; the
/// codes are consecutive, starting from `0` for [`ObjectType::Machine`], in
/// the order the variants are declared.
#[derive(Debug, Clone, Copy, Hash, PartialEq, Eq, Structural)]
pub enum ObjectType {
    /// Machine. A set of processors and memory with cache coherency.
    ///
    /// This type is always used for the root object of a topology, and never
    /// used anywhere else. Hence its parent is always `None`.
    Machine,
    /// Physical package. The physical package that usually gets inserted into
    /// a socket on the motherboard. A processor package usually contains
    /// multiple cores, and possibly some dies.
    Package,
    /// A computation unit (may be shared by several PUs, aka logical processors).
    Core,
    /// Processing Unit, or (Logical) Processor. An execution unit (may share a
    /// core with some other logical processors, e.g. in the case of an SMT core).
    ///
    /// This is the smallest object representing CPU resources; it cannot have
    /// any child except Misc objects.
    PU,
    /// Level 1 Data (or Unified) Cache.
    L1Cache,
    /// Level 2 Data (or Unified) Cache.
    L2Cache,
    /// Level 3 Data (or Unified) Cache.
    L3Cache,
    /// Level 4 Data (or Unified) Cache.
    L4Cache,
    /// Level 5 Data (or Unified) Cache.
    L5Cache,
    /// Level 1 instruction Cache (filtered out by default).
    L1ICache,
    /// Level 2 instruction Cache (filtered out by default).
    L2ICache,
    /// Level 3 instruction Cache (filtered out by default).
    L3ICache,
    /// Group objects. Objects which do not fit in the above but are useful to
    /// take into account for affinity, for instance groups of NUMA nodes by
    /// distance. These objects are removed when they do not bring any structure.
    Group,
    /// NUMA node. An object that contains memory that is directly and
    /// byte-accessible to the host processors.
    ///
    /// This is the smallest object representing Memory resources. Memory
    /// objects are not listed in the main children list, but rather in the
    /// dedicated memory children list, and have a virtual depth
    /// ([`TypeDepth::NumaNode`]) instead of a normal depth.
    NumaNode,
    /// Bridge (filtered out by default). Any bridge (or PCI switch) that
    /// connects the host or an I/O bus to another I/O bus.
    ///
    /// I/O objects are not listed in the main children list, but rather in
    /// the dedicated I/O children list, and have empty CPU and node sets.
    Bridge,
    /// PCI device (filtered out by default).
    PciDevice,
    /// Operating system device (filtered out by default).
    OsDevice,
    /// Miscellaneous objects (filtered out by default). Objects without
    /// particular meaning, that can e.g. be added by the application for its
    /// own use. Misc objects are listed in the dedicated misc children list.
    Misc,
    /// Memory-side cache (filtered out by default). A cache in front of a
    /// specific NUMA node. Memory objects are listed in the dedicated memory
    /// children list and have a virtual depth ([`TypeDepth::MemCache`]).
    MemCache,
    /// Die within a physical package. A subpart of the physical package that
    /// contains multiple cores.
    Die,
}

impl ObjectType {
    /// The integer code of this object type.
    pub open spec fn spec_code(self) -> u32 {
        match self {
            ObjectType::Machine => 0,
            ObjectType::Package => 1,
            ObjectType::Core => 2,
            ObjectType::PU => 3,
            ObjectType::L1Cache => 4,
            ObjectType::L2Cache => 5,
            ObjectType::L3Cache => 6,
            ObjectType::L4Cache => 7,
            ObjectType::L5Cache => 8,
            ObjectType::L1ICache => 9,
            ObjectType::L2ICache => 10,
            ObjectType::L3ICache => 11,
            ObjectType::Group => 12,
            ObjectType::NumaNode => 13,
            ObjectType::Bridge => 14,
            ObjectType::PciDevice => 15,
            ObjectType::OsDevice => 16,
            ObjectType::Misc => 17,
            ObjectType::MemCache => 18,
            ObjectType::Die => 19,
        }
    }

    /// The integer code of this object type; the codes stay below `20`.
    pub fn to_u32(self) -> (r: u32)
        ensures
            r == self.spec_code(),
            r < 20,
    {
        match self {
            ObjectType::Machine => 0,
            ObjectType::Package => 1,
            ObjectType::Core => 2,
            ObjectType::PU => 3,
            ObjectType::L1Cache => 4,
            ObjectType::L2Cache => 5,
            ObjectType::L3Cache => 6,
            ObjectType::L4Cache => 7,
            ObjectType::L5Cache => 8,
            ObjectType::L1ICache => 9,
            ObjectType::L2ICache => 10,
            ObjectType::L3ICache => 11,
            ObjectType::Group => 12,
            ObjectType::NumaNode => 13,
            ObjectType::Bridge => 14,
            ObjectType::PciDevice => 15,
            ObjectType::OsDevice => 16,
            ObjectType::Misc => 17,
            ObjectType::MemCache => 18,
            ObjectType::Die => 19,
        }
    }

    /// The object type with integer code `v`, or `None` if no type has that code.
    pub fn from_u32(v: u32) -> (r: Option<ObjectType>)
        ensures
            match r {
                Some(t) => t.spec_code() == v,
                None => forall|t: ObjectType| t.spec_code() != v,
            },
    {
        match v {
            0 => Some(ObjectType::Machine),
            1 => Some(ObjectType::Package),
            2 => Some(ObjectType::Core),
            3 => Some(ObjectType::PU),
            4 => Some(ObjectType::L1Cache),
            5 => Some(ObjectType::L2Cache),
            6 => Some(ObjectType::L3Cache),
            7 => Some(ObjectType::L4Cache),
            8 => Some(ObjectType::L5Cache),
            9 => Some(ObjectType::L1ICache),
            10 => Some(ObjectType::L2ICache),
            11 => Some(ObjectType::L3ICache),
            12 => Some(ObjectType::Group),
            13 => Some(ObjectType::NumaNode),
            14 => Some(ObjectType::Bridge),
            15 => Some(ObjectType::PciDevice),
            16 => Some(ObjectType::OsDevice),
            17 => Some(ObjectType::Misc),
            18 => Some(ObjectType::MemCache),
            19 => Some(ObjectType::Die),
            _ => None,
        }
    }

    /// Whether this type is a Normal object type.
    ///
    /// Normal objects are objects of the main CPU hierarchy (Machine, Package,
    /// Die, Core, PU, CPU caches, Groups). They are attached to their parent
    /// as normal children, not as memory, I/O or misc children.
    pub open spec fn spec_is_normal(self) -> bool {
        !self.spec_is_memory() && !self.spec_is_io() && self != ObjectType::Misc
    }

    /// Whether this type is a Memory object type (NUMA nodes and memory-side
    /// caches), attached to its parent in the memory children list.
    pub open spec fn spec_is_memory(self) -> bool {
        self == ObjectType::NumaNode || self == ObjectType::MemCache
    }

    /// Whether this type is an I/O object type (bridges, PCI and OS devices),
    /// attached to its parent in the I/O children list.
    pub open spec fn spec_is_io(self) -> bool {
        self == ObjectType::Bridge || self == ObjectType::PciDevice
            || self == ObjectType::OsDevice
    }

    /// Whether this type is a CPU cache (data, unified or instruction).
    /// Memory-side caches are not CPU caches.
    pub open spec fn spec_is_cache(self) -> bool {
        self.spec_is_dcache() || self.spec_is_icache()
    }

    /// Whether this type is a CPU data or unified cache.
    pub open spec fn spec_is_dcache(self) -> bool {
        self == ObjectType::L1Cache || self == ObjectType::L2Cache
            || self == ObjectType::L3Cache || self == ObjectType::L4Cache
            || self == ObjectType::L5Cache
    }

    /// Whether this type is a CPU instruction cache.
    pub open spec fn spec_is_icache(self) -> bool {
        self == ObjectType::L1ICache || self == ObjectType::L2ICache
            || self == ObjectType::L3ICache
    }

    /// Check whether an object type is Normal.
    ///
    /// Normal objects are objects of the main CPU hierarchy (Machine, Package,
    /// Core, PU, CPU caches, etc.), but they are not NUMA nodes, I/O devices
    /// or Misc objects.
    ///
    /// Returns `true` if this object type is a Normal object, `false` otherwise.
    pub fn is_normal(&self) -> (r: bool)
        ensures
            r == self.spec_is_normal(),
    {
        !self.is_memory() && !self.is_io() && !matches!(self, ObjectType::Misc)
    }

    /// Check whether an object type is I/O.
    ///
    /// I/O objects are objects attached to their parents in the I/O children
    /// list. This currently includes Bridges, PCI and OS devices.
    ///
    /// Returns `true` if this object type is an I/O object, `false` otherwise.
    pub fn is_io(&self) -> (r: bool)
        ensures
            r == self.spec_is_io(),
    {
        matches!(self, ObjectType::Bridge | ObjectType::PciDevice | ObjectType::OsDevice)
    }

    /// Check whether an object type is Memory.
    ///
    /// Memory objects are objects attached to their parents in the Memory
    /// children list. This currently includes NUMA nodes and Memory-side caches.
    ///
    /// Returns `true` if this object type is a Memory object, `false` otherwise.
    pub fn is_memory(&self) -> (r: bool)
        ensures
            r == self.spec_is_memory(),
    {
        matches!(self, ObjectType::NumaNode | ObjectType::MemCache)
    }

    /// Check whether an object type is a CPU Cache (Data, Unified or Instruction).
    ///
    /// Memory-side caches are not CPU caches.
    ///
    /// Returns `true` if this object type is a Cache, `false` otherwise.
    pub fn is_cache(&self) -> (r: bool)
        ensures
            r == self.spec_is_cache(),
    {
        self.is_dcache() || self.is_icache()
    }

    /// Check whether an object type is a CPU Data or Unified Cache.
    ///
    /// Memory-side caches are not CPU caches.
    ///
    /// Returns `true` if this object type is a CPU Data or Unified Cache,
    /// `false` otherwise.
    pub fn is_dcache(&self) -> (r: bool)
        ensures
            r == self.spec_is_dcache(),
    {
        matches!(
            self,
            ObjectType::L1Cache | ObjectType::L2Cache | ObjectType::L3Cache
                | ObjectType::L4Cache | ObjectType::L5Cache
        )
    }

    /// Check whether an object type is a CPU Instruction Cache.
    ///
    /// Memory-side caches are not CPU caches.
    ///
    /// Returns `true` if this object type is a CPU Instruction Cache, `false`
    /// otherwise.
    pub fn is_icache(&self) -> (r: bool)
        ensures
            r == self.spec_is_icache(),
    {
        matches!(self, ObjectType::L1ICache | ObjectType::L2ICache | ObjectType::L3ICache)
    }

    /// The rank of a Normal object type in the usual containment order:
    /// a type of smaller rank usually contains objects of larger rank.
    /// Meaningful only for Normal types.
    pub open spec fn spec_depth_rank(self) -> u32 {
        match self {
            ObjectType::Machine => 0,
            ObjectType::Group => 1,
            ObjectType::Package => 2,
            ObjectType::Die => 3,
            ObjectType::L5Cache => 4,
            ObjectType::L4Cache => 5,
            ObjectType::L3Cache => 6,
            ObjectType::L3ICache => 7,
            ObjectType::L2Cache => 8,
            ObjectType::L2ICache => 9,
            ObjectType::L1Cache => 10,
            ObjectType::L1ICache => 11,
            ObjectType::Core => 12,
            ObjectType::PU => 13,
            _ => 14,
        }
    }

    /// What [`ObjectType::compare`] returns.
    ///
    /// Two equal types compare equal. Two Normal types are always comparable,
    /// by their rank in the containment order. A Machine contains every other
    /// object. Any other pair (a memory, I/O or Misc type against a different
    /// type) is not ordered.
    pub open spec fn spec_compare(self, other: ObjectType) -> Option<Ordering> {
        if self == other {
            Some(Ordering::Equal)
        } else if self.spec_is_normal() && other.spec_is_normal() {
            if self.spec_depth_rank() < other.spec_depth_rank() {
                Some(Ordering::Less)
            } else {
                Some(Ordering::Greater)
            }
        } else if self == ObjectType::Machine {
            Some(Ordering::Less)
        } else if other == ObjectType::Machine {
            Some(Ordering::Greater)
        } else {
            None
        }
    }

    /// Compare the depth of two object types.
    ///
    /// Types shouldn't be compared as they are, since newer ones may be added
    /// in the future. This function returns [`Ordering::Less`],
    /// [`Ordering::Equal`], or [`Ordering::Greater`] respectively if `self`
    /// objects usually include `other` objects, are the same as `other`
    /// objects, or are included in `other` objects. If the types can not be
    /// compared (because neither is usually contained in the other), `None`
    /// is returned.
    ///
    /// Object types containing CPUs can always be compared (usually, a system
    /// contains machines which contain packages which contain caches, which
    /// contain cores, which contain processors). Memory, I/O and Misc types
    /// are comparable only with [`ObjectType::Machine`], which contains
    /// everything.
    ///
    /// # Note
    ///
    /// [`ObjectType::PU`] will always be the deepest, while
    /// [`ObjectType::Machine`] is always the highest.
    ///
    /// This does not mean that the actual topology will respect that order:
    /// e.g. cores may also contain caches, and packages may also contain
    /// nodes. This is thus just to be seen as a fallback comparison method.
    pub fn compare(&self, other: ObjectType) -> (r: Option<Ordering>)
        ensures
            r == self.spec_compare(other),
    {
        if *self == other {
            Some(Ordering::Equal)
        } else if self.is_normal() && other.is_normal() {
            let a = self.depth_rank();
            let b = other.depth_rank();
            if a < b {
                Some(Ordering::Less)
            } else {
                Some(Ordering::Greater)
            }
        } else if matches!(self, ObjectType::Machine) {
            Some(Ordering::Less)
        } else if matches!(other, ObjectType::Machine) {
            Some(Ordering::Greater)
        } else {
            None
        }
    }

    fn depth_rank(&self) -> (r: u32)
        ensures
            r == self.spec_depth_rank(),
    {
        match self {
            ObjectType::Machine => 0,
            ObjectType::Group => 1,
            ObjectType::Package => 2,
            ObjectType::Die => 3,
            ObjectType::L5Cache => 4,
            ObjectType::L4Cache => 5,
            ObjectType::L3Cache => 6,
            ObjectType::L3ICache => 7,
            ObjectType::L2Cache => 8,
            ObjectType::L2ICache => 9,
            ObjectType::L1Cache => 10,
            ObjectType::L1ICache => 11,
            ObjectType::Core => 12,
            ObjectType::PU => 13,
            _ => 14,
        }
    }

    /// The name of this object type, as it is usually displayed.
    pub fn name(&self) -> (r: &'static str)
        ensures
            match self {
                ObjectType::Machine => r@ == "Machine"@,
                ObjectType::Package => r@ == "Package"@,
                ObjectType::Core => r@ == "Core"@,
                ObjectType::PU => r@ == "PU"@,
                ObjectType::L1Cache => r@ == "L1Cache"@,
                ObjectType::L2Cache => r@ == "L2Cache"@,
                ObjectType::L3Cache => r@ == "L3Cache"@,
                ObjectType::L4Cache => r@ == "L4Cache"@,
                ObjectType::L5Cache => r@ == "L5Cache"@,
                ObjectType::L1ICache => r@ == "L1ICache"@,
                ObjectType::L2ICache => r@ == "L2ICache"@,
                ObjectType::L3ICache => r@ == "L3ICache"@,
                ObjectType::Group => r@ == "Group"@,
                ObjectType::NumaNode => r@ == "NumaNode"@,
                ObjectType::Bridge => r@ == "Bridge"@,
                ObjectType::PciDevice => r@ == "PciDevice"@,
                ObjectType::OsDevice => r@ == "OsDevice"@,
                ObjectType::Misc => r@ == "Misc"@,
                ObjectType::MemCache => r@ == "MemCache"@,
                ObjectType::Die => r@ == "Die"@,
            },
    {
        match self {
            ObjectType::Machine => "Machine",
            ObjectType::Package => "Package",
            ObjectType::Core => "Core",
            ObjectType::PU => "PU",
            ObjectType::L1Cache => "L1Cache",
            ObjectType::L2Cache => "L2Cache",
            ObjectType::L3Cache => "L3Cache",
            ObjectType::L4Cache => "L4Cache",
            ObjectType::L5Cache => "L5Cache",
            ObjectType::L1ICache => "L1ICache",
            ObjectType::L2ICache => "L2ICache",
            ObjectType::L3ICache => "L3ICache",
            ObjectType::Group => "Group",
            ObjectType::NumaNode => "NumaNode",
            ObjectType::Bridge => "Bridge",
            ObjectType::PciDevice => "PciDevice",
            ObjectType::OsDevice => "OsDevice",
            ObjectType::Misc => "Misc",
            ObjectType::MemCache => "MemCache",
            ObjectType::Die => "Die",
        }
    }
}

/// Two different object types never share an integer code.
pub proof fn lemma_object_type_code_injective(a: ObjectType, b: ObjectType)
    ensures
        a.spec_code() == b.spec_code() ==> a == b,
{
}

/// Cache type.
#[derive(Debug, Clone, Copy, Hash, PartialEq, Eq, Structural)]
pub enum CacheType {
    /// Unified cache.
    Unified,
    /// Data cache.
    Data,
    /// Instruction cache (filtered out by default).
    Instruction,
}

impl CacheType {
    /// The integer code of this cache type.
    pub open spec fn spec_code(self) -> u32 {
        match self {
            CacheType::Unified => 0,
            CacheType::Data => 1,
            CacheType::Instruction => 2,
        }
    }

    /// The integer code of this cache type.
    pub fn to_u32(self) -> (r: u32)
        ensures
            r == self.spec_code(),
    {
        match self {
            CacheType::Unified => 0,
            CacheType::Data => 1,
            CacheType::Instruction => 2,
        }
    }

    /// The cache type with integer code `v`, or `None` if no type has that code.
    pub fn from_u32(v: u32) -> (r: Option<CacheType>)
        ensures
            match r {
                Some(t) => t.spec_code() == v,
                None => forall|t: CacheType| t.spec_code() != v,
            },
    {
        match v {
            0 => Some(CacheType::Unified),
            1 => Some(CacheType::Data),
            2 => Some(CacheType::Instruction),
            _ => None,
        }
    }
}

/// Type of one side (upstream or downstream) of an I/O bridge.
#[derive(Debug, Clone, Copy, Hash, PartialEq, Eq, Structural)]
pub enum BridgeType {
    /// Host-side of a bridge, only possible upstream.
    Host,
    /// PCI-side of a bridge.
    Pci,
}

impl BridgeType {
    /// The integer code of this bridge type.
    pub open spec fn spec_code(self) -> u32 {
        match self {
            BridgeType::Host => 0,
            BridgeType::Pci => 1,
        }
    }

    /// The integer code of this bridge type.
    pub fn to_u32(self) -> (r: u32)
        ensures
            r == self.spec_code(),
    {
        match self {
            BridgeType::Host => 0,
            BridgeType::Pci => 1,
        }
    }

    /// The bridge type with integer code `v`, or `None` if no type has that code.
    pub fn from_u32(v: u32) -> (r: Option<BridgeType>)
        ensures
            match r {
                Some(t) => t.spec_code() == v,
                None => forall|t: BridgeType| t.spec_code() != v,
            },
    {
        match v {
            0 => Some(BridgeType::Host),
            1 => Some(BridgeType::Pci),
            _ => None,
        }
    }
}

/// Type of an OS device.
#[derive(Debug, Clone, Copy, Hash, PartialEq, Eq, Structural)]
pub enum OsDevType {
    /// Operating system block device, or non-volatile memory device.
    Block,
    /// Operating system GPU device.
    Gpu,
    /// Operating system network device.
    Network,
    /// Operating system openfabrics device.
    OpenFabrics,
    /// Operating system dma engine device.
    Dma,
    /// Operating system co-processor device.
    CoProc,
}

impl OsDevType {
    /// The integer code of this OS device type.
    pub open spec fn spec_code(self) -> u32 {
        match self {
            OsDevType::Block => 0,
            OsDevType::Gpu => 1,
            OsDevType::Network => 2,
            OsDevType::OpenFabrics => 3,
            OsDevType::Dma => 4,
            OsDevType::CoProc => 5,
        }
    }

    /// The integer code of this OS device type.
    pub fn to_u32(self) -> (r: u32)
        ensures
            r == self.spec_code(),
    {
        match self {
            OsDevType::Block => 0,
            OsDevType::Gpu => 1,
            OsDevType::Network => 2,
            OsDevType::OpenFabrics => 3,
            OsDevType::Dma => 4,
            OsDevType::CoProc => 5,
        }
    }

    /// The OS device type with integer code `v`, or `None` if no type has that code.
    pub fn from_u32(v: u32) -> (r: Option<OsDevType>)
        ensures
            match r {
                Some(t) => t.spec_code() == v,
                None => forall|t: OsDevType| t.spec_code() != v,
            },
    {
        match v {
            0 => Some(OsDevType::Block),
            1 => Some(OsDevType::Gpu),
            2 => Some(OsDevType::Network),
            3 => Some(OsDevType::OpenFabrics),
            4 => Some(OsDevType::Dma),
            5 => Some(OsDevType::CoProc),
            _ => None,
        }
    }
}

/// Virtual depth values, and the sentinels returned by depth queries.
///
/// Object levels that are not part of the main CPU hierarchy (NUMA nodes,
/// bridges, PCI and OS devices, Misc objects and memory-side caches) live at
/// negative virtual depths, given by [`TypeDepth::to_i32`]; the codes are
/// consecutive, starting from `-1` for [`TypeDepth::Unknown`], in the order
/// the variants are declared.
#[derive(Debug, Clone, Copy, Hash, PartialEq, Eq, Structural)]
pub enum TypeDepth {
    /// No object of given type exists in the topology.
    Unknown,
    /// Objects of given type exist at different depth in the topology (only
    /// for Groups).
    Multiple,
    /// Virtual depth for NUMA nodes.
    NumaNode,
    /// Virtual depth for bridge object level.
    Bridge,
    /// Virtual depth for PCI device object level.
    PciDevice,
    /// Virtual depth for software device object level.
    OsDevice,
    /// Virtual depth for Misc object.
    Misc,
    /// Virtual depth for MemCache object.
    MemCache,
}

impl TypeDepth {
    /// The integer code of this virtual depth.
    pub open spec fn spec_code(self) -> i32 {
        match self {
            TypeDepth::Unknown => -1i32,
            TypeDepth::Multiple => -2i32,
            TypeDepth::NumaNode => -3i32,
            TypeDepth::Bridge => -4i32,
            TypeDepth::PciDevice => -5i32,
            TypeDepth::OsDevice => -6i32,
            TypeDepth::Misc => -7i32,
            TypeDepth::MemCache => -8i32,
        }
    }

    /// The integer code of this virtual depth.
    pub fn to_i32(self) -> (r: i32)
        ensures
            r == self.spec_code(),
    {
        match self {
            TypeDepth::Unknown => -1,
            TypeDepth::Multiple => -2,
            TypeDepth::NumaNode => -3,
            TypeDepth::Bridge => -4,
            TypeDepth::PciDevice => -5,
            TypeDepth::OsDevice => -6,
            TypeDepth::Misc => -7,
            TypeDepth::MemCache => -8,
        }
    }

    /// The virtual depth with integer code `v`, or `None` if no virtual depth
    /// has that code.
    pub fn from_i32(v: i32) -> (r: Option<TypeDepth>)
        ensures
            match r {
                Some(t) => t.spec_code() == v,
                None => forall|t: TypeDepth| t.spec_code() != v,
            },
    {
        match v {
            -1 => Some(TypeDepth::Unknown),
            -2 => Some(TypeDepth::Multiple),
            -3 => Some(TypeDepth::NumaNode),
            -4 => Some(TypeDepth::Bridge),
            -5 => Some(TypeDepth::PciDevice),
            -6 => Some(TypeDepth::OsDevice),
            -7 => Some(TypeDepth::Misc),
            -8 => Some(TypeDepth::MemCache),
            _ => None,
        }
    }

    /// The virtual depth of a non-Normal object type: the dedicated level of
    /// memory, I/O and Misc objects. `None` for Normal types, whose objects
    /// live at ordinary non-negative depths.
    pub open spec fn spec_of_type(t: ObjectType) -> Option<TypeDepth> {
        match t {
            ObjectType::NumaNode => Some(TypeDepth::NumaNode),
            ObjectType::Bridge => Some(TypeDepth::Bridge),
            ObjectType::PciDevice => Some(TypeDepth::PciDevice),
            ObjectType::OsDevice => Some(TypeDepth::OsDevice),
            ObjectType::Misc => Some(TypeDepth::Misc),
            ObjectType::MemCache => Some(TypeDepth::MemCache),
            _ => None,
        }
    }

    /// The virtual depth of a non-Normal object type, `None` for Normal types.
    pub fn of_type(t: ObjectType) -> (r: Option<TypeDepth>)
        ensures
            r == TypeDepth::spec_of_type(t),
            r is Some <==> !t.spec_is_normal(),
    {
        match t {
            ObjectType::NumaNode => Some(TypeDepth::NumaNode),
            ObjectType::Bridge => Some(TypeDepth::Bridge),
            ObjectType::PciDevice => Some(TypeDepth::PciDevice),
            ObjectType::OsDevice => Some(TypeDepth::OsDevice),
            ObjectType::Misc => Some(TypeDepth::Misc),
            ObjectType::MemCache => Some(TypeDepth::MemCache),
            _ => None,
        }
    }
}

} // verus!
