//! Object type-specific attributes, held as plain values.

use vstd::prelude::*;
use crate::types::{BridgeType, CacheType};

verus! {

/// NUMA node-specific object attributes.
#[derive(Debug, PartialEq, Eq)]
pub struct NumaNodeAttributes {
    /// Local memory (in bytes).
    pub local_memory: u64,
    /// The local memory page types, sorted by increasing size.
    pub page_types: Vec<PageType>,
}

impl NumaNodeAttributes {
    /// Local memory (in bytes).
    pub fn local_memory(&self) -> (r: u64)
        ensures
            r == self.local_memory,
    {
        self.local_memory
    }

    /// Size of the array of local memory page types.
    pub fn page_types_len(&self) -> (r: u32)
        requires
            self.page_types@.len() <= u32::MAX,
        ensures
            r == self.page_types@.len(),
    {
        self.page_types.len() as u32
    }

    /// The array of local memory page types; `None` if it is empty.
    ///
    /// The array is sorted by increasing size fields, and contains
    /// [`NumaNodeAttributes::page_types_len`] slots.
    pub fn page_types(&self) -> (r: Option<Vec<PageType>>)
        ensures
            match r {
                Some(v) => v@ == self.page_types@ && self.page_types@.len() > 0,
                None => self.page_types@.len() == 0,
            },
    {
        if self.page_types.len() == 0 {
            return None;
        }
        let mut v: Vec<PageType> = Vec::new();
        let mut k: usize = 0;
        while k < self.page_types.len()
            invariant
                k <= self.page_types@.len(),
                v@.len() == k,
                forall|t: int| 0 <= t < k ==> v@[t] == self.page_types@[t],
            decreases self.page_types@.len() - k,
        {
            let pt = self.page_types[k];
            v.push(pt);
            k = k + 1;
        }
        proof {
            assert(v@ =~= self.page_types@);
        }
        Some(v)
    }
}

/// One kind of local memory page: its size and how many pages of that size
/// there are.
#[derive(Debug, Clone, Copy, PartialEq, Eq, Structural)]
pub struct PageType {
    /// Size of pages.
    pub size: u64,
    /// Number of pages of this size.
    pub count: u64,
}

/// Cache-specific object attributes.
#[derive(Debug, Clone, Copy, PartialEq, Eq, Structural)]
pub struct CacheAttributes {
    /// Size of the cache in bytes.
    pub size: u64,
    /// Depth of the cache (e.g. L1, L2, ...).
    pub depth: u32,
    /// Cache-line size in bytes, `0` if unknown.
    pub linesize: u32,
    /// Ways of associativity, `-1` if fully associative, `0` if unknown.
    pub associativity: i32,
    /// Cache type.
    pub cache_type: CacheType,
}

impl CacheAttributes {
    /// Size of cache in bytes.
    pub fn size(&self) -> (r: u64)
        ensures
            r == self.size,
    {
        self.size
    }

    /// Depth of cache (e.g., L1, L2, ...etc.)
    pub fn depth(&self) -> (r: u32)
        ensures
            r == self.depth,
    {
        self.depth
    }

    /// Cache-line size in bytes. `0` if unknown.
    pub fn linesize(&self) -> (r: u32)
        ensures
            r == self.linesize,
    {
        self.linesize
    }

    /// Ways of associativity, `-1` if fully associative, `0` if unknown.
    pub fn associativity(&self) -> (r: i32)
        ensures
            r == self.associativity,
    {
        self.associativity
    }

    /// Cache type.
    pub fn cache_type(&self) -> (r: CacheType)
        ensures
            r == self.cache_type,
    {
        self.cache_type
    }
}

/// PCI device specific object attributes.
///
/// # Note
///
/// The PCI domain is 16 bits wide, the native default.
#[derive(Debug, Clone, Copy, PartialEq, Eq, Structural)]
pub struct PciDevAttributes {
    /// The PCI domain of the device.
    pub domain: u16,
    /// The PCI bus the device is on.
    pub bus: u8,
    /// The PCI device number.
    pub dev: u8,
    /// The PCI function of the device.
    pub func: u8,
    /// The PCI class of the device.
    pub class_id: u16,
    /// The PCI vendor of the device.
    pub vendor_id: u16,
    /// The PCI id of the device.
    pub device_id: u16,
    /// The PCI subvendor of the device.
    pub subvendor_id: u16,
    /// The PCI subdevice id of the device.
    pub subdevice_id: u16,
    /// The revision of the device.
    pub revision: u8,
}

impl PciDevAttributes {
    /// The PCI domain of the device.
    pub fn domain(&self) -> (r: u16)
        ensures
            r == self.domain,
    {
        self.domain
    }

    /// The PCI bus the device is on.
    pub fn bus(&self) -> (r: u8)
        ensures
            r == self.bus,
    {
        self.bus
    }

    /// The PCI function of the device.
    pub fn func(&self) -> (r: u8)
        ensures
            r == self.func,
    {
        self.func
    }

    /// The PCI class of the device.
    pub fn class_id(&self) -> (r: u16)
        ensures
            r == self.class_id,
    {
        self.class_id
    }

    /// The PCI vendor of the device.
    pub fn vendor_id(&self) -> (r: u16)
        ensures
            r == self.vendor_id,
    {
        self.vendor_id
    }

    /// The PCI id of the device.
    pub fn device_id(&self) -> (r: u16)
        ensures
            r == self.device_id,
    {
        self.device_id
    }

    /// The PCI subvendor of the device.
    pub fn subvendor_id(&self) -> (r: u16)
        ensures
            r == self.subvendor_id,
    {
        self.subvendor_id
    }

    /// The PCI subdevice id of the device.
    pub fn subdevice_id(&self) -> (r: u16)
        ensures
            r == self.subdevice_id,
    {
        self.subdevice_id
    }

    /// The revision of the device.
    pub fn revision(&self) -> (r: u8)
        ensures
            r == self.revision,
    {
        self.revision
    }
}

/// Bridge specific object attributes.
///
/// # Note
///
/// The PCI domain is 16 bits wide, the native default.
#[derive(Debug, Clone, Copy, PartialEq, Eq, Structural)]
pub struct BridgeAttributes {
    /// The depth of the bridge.
    pub depth: u32,
    /// The type of the upstream side of the bridge.
    pub upstream_type: BridgeType,
    /// The PCI attributes of the upstream side of the bridge.
    pub upstream: PciDevAttributes,
    /// The type of the downstream side of the bridge.
    pub downstream_type: BridgeType,
    /// The PCI domain of the downstream side of the bridge.
    pub downstream_domain: u16,
    /// The first PCI bus number below the bridge.
    pub downstream_secondary_bus: u8,
    /// The highest PCI bus number below the bridge.
    pub downstream_subordinate_bus: u8,
}

impl BridgeAttributes {
    /// The depth of the bridge.
    pub fn depth(&self) -> (r: u32)
        ensures
            r == self.depth,
    {
        self.depth
    }

    /// The type of the upstream side of the bridge.
    pub fn upstream_type(&self) -> (r: BridgeType)
        ensures
            r == self.upstream_type,
    {
        self.upstream_type
    }

    /// The PCI attributes of the upstream side of the bridge.
    pub fn upstream(&self) -> (r: PciDevAttributes)
        ensures
            r == self.upstream,
    {
        self.upstream
    }

    /// The type of the downstream side of the bridge.
    pub fn downstream_type(&self) -> (r: BridgeType)
        ensures
            r == self.downstream_type,
    {
        self.downstream_type
    }

    /// The PCI domain of the downstream side of the bridge.
    pub fn downstream_domain(&self) -> (r: u16)
        ensures
            r == self.downstream_domain,
    {
        self.downstream_domain
    }

    /// The first PCI bus number below the bridge.
    pub fn downstream_secondary_bus(&self) -> (r: u8)
        ensures
            r == self.downstream_secondary_bus,
    {
        self.downstream_secondary_bus
    }

    /// The highest PCI bus number below the bridge.
    pub fn downstream_subordinate_bus(&self) -> (r: u8)
        ensures
            r == self.downstream_subordinate_bus,
    {
        self.downstream_subordinate_bus
    }
}

/// Object type-specific attributes.
#[derive(Debug, PartialEq, Eq)]
pub enum Attributes {
    /// Attributes of a NUMA node.
    NumaNode(NumaNodeAttributes),
    /// Attributes of a CPU or memory-side cache.
    Cache(CacheAttributes),
    /// Attributes of a PCI device.
    PciDev(PciDevAttributes),
    /// Attributes of an I/O bridge.
    Bridge(BridgeAttributes),
}

/// Whether two attribute values carry the same content; the page type array
/// of NUMA node attributes is compared by its elements.
pub open spec fn attr_equiv(a: Attributes, b: Attributes) -> bool {
    match (a, b) {
        (Attributes::NumaNode(x), Attributes::NumaNode(y)) => x.local_memory == y.local_memory
            && x.page_types@ == y.page_types@,
        (Attributes::Cache(x), Attributes::Cache(y)) => x == y,
        (Attributes::PciDev(x), Attributes::PciDev(y)) => x == y,
        (Attributes::Bridge(x), Attributes::Bridge(y)) => x == y,
        _ => false,
    }
}

impl Clone for NumaNodeAttributes {
    /// Duplicate the attributes: the copy holds the same content.
    fn clone(&self) -> (r: Self)
        ensures
            r.local_memory == self.local_memory,
            r.page_types@ == self.page_types@,
    {
        let mut v: Vec<PageType> = Vec::new();
        let mut k: usize = 0;
        while k < self.page_types.len()
            invariant
                k <= self.page_types@.len(),
                v@.len() == k,
                forall|t: int| 0 <= t < k ==> v@[t] == self.page_types@[t],
            decreases self.page_types@.len() - k,
        {
            let pt = self.page_types[k];
            v.push(pt);
            k = k + 1;
        }
        proof {
            assert(v@ =~= self.page_types@);
        }
        NumaNodeAttributes { local_memory: self.local_memory, page_types: v }
    }
}

impl Clone for Attributes {
    /// Duplicate the attributes: the copy holds the same content
    /// ([`attr_equiv`]).
    fn clone(&self) -> (r: Self)
        ensures
            attr_equiv(r, *self),
    {
        match self {
            Attributes::NumaNode(a) => Attributes::NumaNode(a.clone()),
            Attributes::Cache(a) => Attributes::Cache(*a),
            Attributes::PciDev(a) => Attributes::PciDev(*a),
            Attributes::Bridge(a) => Attributes::Bridge(*a),
        }
    }
}

} // verus!
