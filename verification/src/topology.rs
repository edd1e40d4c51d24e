//! The topology: a tree of hardware objects held as an arena of plain
//! records, with its flags, per-type filters and support table, and the
//! borrowed object views used to walk the tree.

pub mod filters;
pub mod flags;
pub mod support;

pub use filters::Filter;
pub use flags::Flags;
pub use support::Support;

use vstd::prelude::*;
use crate::bitmap::{Bitmap, CpuSet, NodeSet};
use crate::error::Error;
use crate::object::attributes::Attributes;
use crate::object::{
    check_objects, child_links_ok, count_at_depth, kind_list, lemma_pu_deepest,
    lemma_same_depth_same_type, lemma_single_level, object_wf, objects_wf, ObjectRecord,
};
use crate::types::{BridgeType, ObjectType, TypeDepth};

verus! {

/// The default filter of an object type: most objects are kept, instruction
/// caches, I/O and Misc objects are ignored, Die and Group levels are kept
/// only where they bring structure.
pub open spec fn default_filter(t: ObjectType) -> Filter {
    if t.spec_is_icache() || t.spec_is_io() || t == ObjectType::Misc {
        Filter::KeepNone
    } else if t == ObjectType::Group || t == ObjectType::Die {
        Filter::KeepStructure
    } else {
        Filter::KeepAll
    }
}

/// Whether filter `f` may be set for object type `t`:
/// - the bottom-level type PU, the NumaNode type and the top-level Machine
///   may only be kept whole;
/// - Group objects are designed only to add structure, so everything but
///   [`Filter::KeepAll`] may be set for them;
/// - the topology structure does not matter for I/O and Misc objects, so
///   [`Filter::KeepStructure`] may not be set for them.
pub open spec fn filter_allowed(t: ObjectType, f: Filter) -> bool {
    if t == ObjectType::PU || t == ObjectType::NumaNode || t == ObjectType::Machine {
        f == Filter::KeepAll
    } else if t == ObjectType::Group {
        f != Filter::KeepAll
    } else if t.spec_is_io() || t == ObjectType::Misc {
        f != Filter::KeepStructure
    } else {
        true
    }
}

/// A topology: the tree of hardware objects, its flags, its per-type filters
/// and its support table.
///
/// A topology is built through a [`TopologyBuilder`], which checks that the
/// described objects form a tree ([`objects_wf`]); every query below relies
/// on that shape.
pub struct Topology {
    objects: Vec<ObjectRecord>,
    flags: Flags,
    filters: Vec<Filter>,
    support: Support,
}

/// A borrowed view over one object of a topology.
///
/// An `Object` ties the borrow of its topology to itself, so that it cannot
/// outlive the topology that owns the records.
#[derive(Clone, Copy)]
pub struct Object<'topo> {
    topo: &'topo Topology,
    idx: usize,
}

impl Topology {
    #[verifier::type_invariant]
    spec fn inv(self) -> bool {
        &&& objects_wf(self.objects@)
        &&& self.filters@.len() == 20
    }

    /// The records of the topology's objects, in arena order.
    pub closed spec fn spec_objects(self) -> Seq<ObjectRecord> {
        self.objects@
    }

    /// The flags the topology was built with.
    pub closed spec fn spec_flags(self) -> Flags {
        self.flags
    }

    /// The filter recorded for object type `t`.
    pub closed spec fn spec_filter(self, t: ObjectType) -> Filter {
        self.filters@[t.spec_code() as int]
    }

    /// The support table of the topology.
    pub closed spec fn spec_support(self) -> Support {
        self.support
    }

    /// The records of a topology always form a tree ([`objects_wf`]): the
    /// builder admits no others. This hands that guarantee to callers and
    /// their proofs.
    pub fn lemma_is_wf(&self) -> (r: Ghost<()>)
        ensures
            objects_wf(self.spec_objects()),
    {
        proof {
            use_type_invariant(&*self);
        }
        Ghost(())
    }

    /// Create a new [`TopologyBuilder`] to configure and create a new
    /// [`Topology`].
    ///
    /// Never fails; the `Result` mirrors an allocating API. The builder
    /// starts with no flags and the default filters ([`default_filter`]).
    pub fn builder() -> (r: Result<TopologyBuilder, Error>)
        ensures
            match r {
                Ok(b) => b.spec_flags().spec_bits() == 0 && forall|t: ObjectType|
                    #[trigger] b.spec_filter(t) == default_filter(t),
                Err(_) => false,
            },
    {
        let mut filters: Vec<Filter> = Vec::new();
        filters.push(Filter::KeepAll);  // Machine
        filters.push(Filter::KeepAll);  // Package
        filters.push(Filter::KeepAll);  // Core
        filters.push(Filter::KeepAll);  // PU
        filters.push(Filter::KeepAll);  // L1Cache
        filters.push(Filter::KeepAll);  // L2Cache
        filters.push(Filter::KeepAll);  // L3Cache
        filters.push(Filter::KeepAll);  // L4Cache
        filters.push(Filter::KeepAll);  // L5Cache
        filters.push(Filter::KeepNone);  // L1ICache
        filters.push(Filter::KeepNone);  // L2ICache
        filters.push(Filter::KeepNone);  // L3ICache
        filters.push(Filter::KeepStructure);  // Group
        filters.push(Filter::KeepAll);  // NumaNode
        filters.push(Filter::KeepNone);  // Bridge
        filters.push(Filter::KeepNone);  // PciDevice
        filters.push(Filter::KeepNone);  // OsDevice
        filters.push(Filter::KeepNone);  // Misc
        filters.push(Filter::KeepAll);  // MemCache
        filters.push(Filter::KeepStructure);  // Die
        let b = TopologyBuilder { flags: Flags::empty(), filters };
        proof {
            assert forall|t: ObjectType| #[trigger] b.spec_filter(t) == default_filter(t) by {
                assert(b.filters@.len() == 20);
            }
        }
        Ok(b)
    }

    /// Retrieve the topology support.
    ///
    /// Each flag indicates whether a feature is supported; a set flag means
    /// the feature is supported, but the corresponding call may still fail in
    /// some corner cases.
    pub fn support(&self) -> (r: &Support)
        ensures
            *r == self.spec_support(),
    {
        &self.support
    }

    /// Retrieve the OR'ed flags of the topology.
    pub fn flags(&self) -> (r: Flags)
        ensures
            r == self.spec_flags(),
    {
        self.flags
    }

    /// Get the current filtering for the given object type.
    ///
    /// Never fails; the `Result` keeps the shape of a fallible call.
    pub fn type_filter(&self, obj_type: ObjectType) -> (r: Result<Filter, Error>)
        ensures
            r == Ok::<Filter, Error>(self.spec_filter(obj_type)),
    {
        proof {
            use_type_invariant(&*self);
        }
        let code = obj_type.to_u32();
        proof {
            assert(code < 20);
        }
        Ok(self.filters[code as usize])
    }

    /// Does the topology context come from this system?
    ///
    /// The topology is built from explicit records, so this holds exactly
    /// when [`Flags::IS_THISSYSTEM`] was set on the builder.
    pub fn is_this_system(&self) -> (r: bool)
        ensures
            r == (self.spec_flags().spec_bits() & Flags::IS_THISSYSTEM
                == Flags::IS_THISSYSTEM),
    {
        proof {
            assert(Flags::IS_THISSYSTEM & 0x7f == Flags::IS_THISSYSTEM) by (bit_vector);
        }
        self.flags.contains(Flags::from_bits_truncate(Flags::IS_THISSYSTEM))
    }

    /// Verify that the topology is compatible with the current library.
    ///
    /// The topology is held as plain records of this same crate, so the check
    /// always succeeds; the `Result` keeps the shape of a check that can fail
    /// where libraries with different layouts share one topology.
    pub fn abi_check(&self) -> (r: Result<(), Error>)
        ensures
            r is Ok,
    {
        Ok(())
    }

    /// Get the object at the root of the topology: the Machine object, the
    /// only object without a parent and the only one at depth `0`.
    pub fn root_object(&self) -> (r: Option<Object<'_>>)
        ensures
            match r {
                Some(o) => {
                    &&& o.spec_topo() == *self
                    &&& o.spec_index() == 0
                    &&& o.spec_record().object_type == ObjectType::Machine
                    &&& o.spec_record().depth == 0
                    &&& o.spec_record().logical_index == 0
                    &&& o.spec_record().parent is None
                    &&& forall|t: int| 1 <= t < self.spec_objects().len()
                        ==> (#[trigger] self.spec_objects()[t]).depth != 0
                },
                None => false,
            },
    {
        proof {
            use_type_invariant(&*self);
            assert(object_wf(self.objects@, 0));
            assert(self.objects@[0].parent is None) by {
                match self.objects@[0].parent {
                    Option::Some(_) => {
                        assert(false);
                    },
                    Option::None => {},
                }
            }
            assert forall|t: int| 1 <= t < self.objects@.len() implies (
            #[trigger] self.objects@[t]).depth != 0 by {
                if self.objects@[t].depth == 0 {
                    lemma_same_depth_same_type(self.objects@, 0, t);
                    assert(object_wf(self.objects@, t));
                }
            }
        }
        Some(Object { topo: self, idx: 0 })
    }

    /// Returns the topology object at logical index `idx` from depth `depth`,
    /// or `None` if that level has no such object.
    pub fn object_by_depth(&self, depth: i32, idx: u32) -> (r: Option<Object<'_>>)
        ensures
            match r {
                Some(o) => o.spec_topo() == *self && o.spec_record().depth == depth
                    && o.spec_record().logical_index == idx,
                None => forall|t: int| 0 <= t < self.spec_objects().len()
                    ==> !(#[trigger] self.spec_objects()[t].depth == depth
                        && self.spec_objects()[t].logical_index == idx),
            },
    {
        proof {
            use_type_invariant(&*self);
        }
        let mut t: usize = 0;
        while t < self.objects.len()
            invariant
                t <= self.objects@.len(),
                forall|u: int| 0 <= u < t ==> !(#[trigger] self.objects@[u].depth == depth
                    && self.objects@[u].logical_index == idx),
            decreases self.objects@.len() - t,
        {
            if self.objects[t].depth == depth && self.objects[t].logical_index == idx {
                return Some(Object { topo: self, idx: t });
            }
            t = t + 1;
        }
        None
    }

    /// Returns the width of the level at depth `depth`: the number of objects
    /// there.
    pub fn nbobjs_by_depth(&self, depth: i32) -> (r: u32)
        ensures
            r == count_at_depth(self.spec_objects(), depth as int, self.spec_objects().len() as int),
    {
        proof {
            use_type_invariant(&*self);
        }
        let mut cnt: u32 = 0;
        let mut t: usize = 0;
        while t < self.objects.len()
            invariant
                t <= self.objects@.len(),
                self.objects@.len() <= 0x7FFF_FFFF,
                cnt == count_at_depth(self.objects@, depth as int, t as int),
                cnt <= t,
            decreases self.objects@.len() - t,
        {
            if self.objects[t].depth == depth {
                cnt = cnt + 1;
            }
            t = t + 1;
        }
        cnt
    }
}

impl<'topo> Object<'topo> {
    /// The value returned by [`Object::os_index`] when it is unknown or
    /// irrelevant for the object.
    pub const UNKNOWN_INDEX: u32 = 0xFFFF_FFFF;

    #[verifier::type_invariant]
    spec fn obj_inv(self) -> bool {
        self.idx < self.topo.objects@.len()
    }

    /// The topology this object belongs to.
    pub closed spec fn spec_topo(self) -> Topology {
        *self.topo
    }

    /// The position of this object in its topology's arena of records.
    pub closed spec fn spec_index(self) -> int {
        self.idx as int
    }

    /// The record of this object.
    pub open spec fn spec_record(self) -> ObjectRecord {
        self.spec_topo().spec_objects()[self.spec_index()]
    }

    /// An object's position always lies within its topology's arena, whose
    /// records form a tree ([`objects_wf`]). This hands that guarantee to
    /// callers and their proofs.
    pub fn lemma_in_arena(&self) -> (r: Ghost<()>)
        ensures
            0 <= self.spec_index() < self.spec_topo().spec_objects().len(),
            objects_wf(self.spec_topo().spec_objects()),
    {
        proof {
            use_type_invariant(&*self);
            use_type_invariant(&*self.topo);
        }
        Ghost(())
    }

    /// The record of this object, by reference.
    fn rec(&self) -> (r: &ObjectRecord)
        ensures
            *r == self.spec_record(),
    {
        proof {
            use_type_invariant(&*self);
        }
        &self.topo.objects[self.idx]
    }

    /// Type of object.
    pub fn object_type(&self) -> (r: ObjectType)
        ensures
            r == self.spec_record().object_type,
    {
        self.rec().object_type
    }

    /// Subtype string to better describe the type field.
    pub fn subtype(&self) -> (r: Option<String>)
        ensures
            r == self.spec_record().subtype,
    {
        match &self.rec().subtype {
            Some(s) => Some(s.clone()),
            None => None,
        }
    }

    /// Object-specific name, if any. Mostly used for identifying OS devices
    /// and Misc objects, where a name string is more useful than numerical
    /// indexes.
    pub fn name(&self) -> (r: Option<String>)
        ensures
            r == self.spec_record().name,
    {
        match &self.rec().name {
            Some(s) => Some(s.clone()),
            None => None,
        }
    }

    /// OS-provided physical index number. It is not guaranteed unique across
    /// the entire machine, except for PUs and NUMA nodes. Set to
    /// [`Object::UNKNOWN_INDEX`] if unknown or irrelevant for this object.
    pub fn os_index(&self) -> (r: u32)
        ensures
            r == self.spec_record().os_index,
    {
        self.rec().os_index
    }

    /// Total memory (in bytes) in NUMA nodes below this object.
    pub fn total_memory(&self) -> (r: u64)
        ensures
            r == self.spec_record().total_memory,
    {
        self.rec().total_memory
    }

    /// Object type-specific attributes, if any.
    pub fn attributes(&self) -> (r: Option<Attributes>)
        ensures
            match r {
                Some(a) => self.spec_record().attributes is Some
                    && crate::object::attributes::attr_equiv(
                    a,
                    self.spec_record().attributes.unwrap(),
                ),
                None => self.spec_record().attributes is None,
            },
    {
        match &self.rec().attributes {
            Some(a) => Some(a.clone()),
            None => None,
        }
    }

    /// Vertical index in the hierarchy.
    ///
    /// For normal objects, this is the depth of the horizontal level that
    /// contains this object and its cousins of the same type: the depth of
    /// its parent plus one.
    ///
    /// For special objects (NUMA nodes, I/O and Misc) that are not in the
    /// main tree, this is a special negative value that corresponds to their
    /// dedicated level; see [`TypeDepth`].
    ///
    /// [`TypeDepth`]: crate::types::TypeDepth
    pub fn depth(&self) -> (r: i32)
        ensures
            r == self.spec_record().depth,
    {
        self.rec().depth
    }

    /// Horizontal index in the whole list of similar objects, hence
    /// guaranteed unique across objects of one depth: it counts the objects
    /// of the same depth that come before this one.
    pub fn logical_index(&self) -> (r: u32)
        ensures
            r == self.spec_record().logical_index,
    {
        self.rec().logical_index
    }

    /// Global persistent index, unique across the topology (contrary to
    /// [`Object::os_index`]).
    pub fn gp_index(&self) -> (r: u64)
        ensures
            r == self.spec_record().gp_index,
    {
        self.rec().gp_index
    }

    /// Set if the subtree of normal objects below this object is symmetric:
    /// all normal children and their children have identical subtrees.
    pub fn symmetric_subtree(&self) -> (r: bool)
        ensures
            r == self.spec_record().symmetric_subtree,
    {
        self.rec().symmetric_subtree
    }

    /// Index in the parent's list of children of this object's kind.
    pub fn sibling_rank(&self) -> (r: u32)
        ensures
            r == self.spec_record().sibling_rank,
    {
        self.rec().sibling_rank
    }

    /// Size of the object's array of stringified info pairs.
    pub fn infos_count(&self) -> (r: u32)
        ensures
            r == self.spec_record().infos_count,
    {
        self.rec().infos_count
    }

    /// CPUs covered by this object: the set of CPUs for which there are PU
    /// objects in the topology under this object — a PU's set holds exactly
    /// its own index, and every other Normal object's set is exactly the
    /// union of its normal children's sets, level by level
    /// ([`crate::object::children_union_ok`]). `None` exactly for I/O and
    /// Misc objects.
    pub fn cpuset(&self) -> (r: Option<Bitmap>)
        ensures
            match r {
                Some(b) => self.spec_record().cpuset is Some && (forall|i: int|
                    #[trigger] b.spec_bit(i) == self.spec_record().cpuset.unwrap().spec_bit(
                        i,
                    )) && b.spec_infinite()
                    == self.spec_record().cpuset.unwrap().spec_infinite(),
                None => self.spec_record().cpuset is None,
            },
            r is None <==> (self.spec_record().object_type.spec_is_io()
                || self.spec_record().object_type == ObjectType::Misc),
    {
        proof {
            use_type_invariant(&*self);
            use_type_invariant(&*self.topo);
            assert(object_wf(self.topo.objects@, self.idx as int));
        }
        match &self.rec().cpuset {
            Some(b) => Some(b.dup()),
            None => None,
        }
    }

    /// The complete CPU set of processors of this object: it may also cover
    /// CPUs for which topology information is unknown or incomplete.
    pub fn complete_cpuset(&self) -> (r: Option<Bitmap>)
        ensures
            match r {
                Some(b) => self.spec_record().complete_cpuset is Some && (forall|i: int|
                    #[trigger] b.spec_bit(i) == self.spec_record().complete_cpuset.unwrap()
                        .spec_bit(i)) && b.spec_infinite()
                    == self.spec_record().complete_cpuset.unwrap().spec_infinite(),
                None => self.spec_record().complete_cpuset is None,
            },
    {
        match &self.rec().complete_cpuset {
            Some(b) => Some(b.dup()),
            None => None,
        }
    }

    /// NUMA nodes covered by or containing this object. `None` exactly for
    /// I/O and Misc objects.
    pub fn nodeset(&self) -> (r: Option<Bitmap>)
        ensures
            match r {
                Some(b) => self.spec_record().nodeset is Some && (forall|i: int|
                    #[trigger] b.spec_bit(i) == self.spec_record().nodeset.unwrap().spec_bit(
                        i,
                    )) && b.spec_infinite()
                    == self.spec_record().nodeset.unwrap().spec_infinite(),
                None => self.spec_record().nodeset is None,
            },
            r is None <==> (self.spec_record().object_type.spec_is_io()
                || self.spec_record().object_type == ObjectType::Misc),
    {
        proof {
            use_type_invariant(&*self);
            use_type_invariant(&*self.topo);
            assert(object_wf(self.topo.objects@, self.idx as int));
        }
        match &self.rec().nodeset {
            Some(b) => Some(b.dup()),
            None => None,
        }
    }

    /// The complete NUMA node set of this object: it may also cover nodes for
    /// which topology information is unknown or incomplete.
    pub fn complete_nodeset(&self) -> (r: Option<Bitmap>)
        ensures
            match r {
                Some(b) => self.spec_record().complete_nodeset is Some && (forall|i: int|
                    #[trigger] b.spec_bit(i) == self.spec_record().complete_nodeset.unwrap()
                        .spec_bit(i)) && b.spec_infinite()
                    == self.spec_record().complete_nodeset.unwrap().spec_infinite(),
                None => self.spec_record().complete_nodeset is None,
            },
    {
        match &self.rec().complete_nodeset {
            Some(b) => Some(b.dup()),
            None => None,
        }
    }

    /// Parent, `None` exactly for the root: the Machine object.
    ///
    /// The object sits in its parent's list of children of its kind, at its
    /// sibling rank, and its CPU set (where present) is within its parent's.
    pub fn parent(&self) -> (r: Option<Object<'topo>>)
        ensures
            match r {
                None => self.spec_record().parent is None && self.spec_index() == 0
                    && self.spec_record().object_type == ObjectType::Machine,
                Some(p) => {
                    let lst = kind_list(p.spec_record(), self.spec_record().object_type);
                    &&& p.spec_topo() == self.spec_topo()
                    &&& self.spec_record().parent == Some(p.spec_index() as usize)
                    &&& self.spec_record().object_type != ObjectType::Machine
                    &&& (self.spec_record().sibling_rank as int) < lst.len()
                    &&& lst[self.spec_record().sibling_rank as int] == self.spec_index()
                    &&& crate::object::opt_bitmap_included(
                        self.spec_record().cpuset,
                        p.spec_record().cpuset,
                    )
                },
            },
    {
        proof {
            use_type_invariant(&*self);
            use_type_invariant(&*self.topo);
            assert(object_wf(self.topo.objects@, self.idx as int));
            if self.idx == 0 {
                assert(self.topo.objects@[0].object_type == ObjectType::Machine);
            }
        }
        match self.topo.objects[self.idx].parent {
            Some(p) => Some(Object { topo: self.topo, idx: p }),
            None => None,
        }
    }

    /// Number of normal children. Memory, Misc and I/O children are not
    /// listed here but rather in their dedicated children lists.
    pub fn arity(&self) -> (r: u32)
        ensures
            r == self.spec_record().children@.len(),
    {
        proof {
            use_type_invariant(&*self);
            use_type_invariant(&*self.topo);
            assert(object_wf(self.topo.objects@, self.idx as int));
        }
        self.topo.objects[self.idx].children.len() as u32
    }

    /// Number of memory children. These children are listed in
    /// [`Object::memory_first_child`].
    pub fn memory_arity(&self) -> (r: u32)
        ensures
            r == self.spec_record().memory_children@.len(),
    {
        proof {
            use_type_invariant(&*self);
            use_type_invariant(&*self.topo);
            assert(object_wf(self.topo.objects@, self.idx as int));
        }
        self.topo.objects[self.idx].memory_children.len() as u32
    }

    /// Number of I/O children. These children are listed in
    /// [`Object::io_first_child`].
    pub fn io_arity(&self) -> (r: u32)
        ensures
            r == self.spec_record().io_children@.len(),
    {
        proof {
            use_type_invariant(&*self);
            use_type_invariant(&*self.topo);
            assert(object_wf(self.topo.objects@, self.idx as int));
        }
        self.topo.objects[self.idx].io_children.len() as u32
    }

    /// Number of Misc children. These children are listed in
    /// [`Object::misc_first_child`].
    pub fn misc_arity(&self) -> (r: u32)
        ensures
            r == self.spec_record().misc_children@.len(),
    {
        proof {
            use_type_invariant(&*self);
            use_type_invariant(&*self.topo);
            assert(object_wf(self.topo.objects@, self.idx as int));
        }
        self.topo.objects[self.idx].misc_children.len() as u32
    }

    /// Normal children, `children[0 .. arity - 1]`.
    ///
    /// Each child's record names this object as its parent, carries its
    /// position as its sibling rank, and is of a Normal type.
    pub fn children(&self) -> (r: Vec<Object<'topo>>)
        ensures
            r@.len() == self.spec_record().children@.len(),
            forall|k: int| 0 <= k < r@.len() ==> (#[trigger] r@[k]).spec_topo()
                == self.spec_topo() && r@[k].spec_index()
                == self.spec_record().children@[k],
            forall|k: int| 0 <= k < r@.len() ==> (#[trigger] r@[k]).spec_record().parent
                == Some(self.spec_index() as usize) && r@[k].spec_record().sibling_rank
                == k && r@[k].spec_record().object_type.spec_is_normal(),
    {
        proof {
            use_type_invariant(&*self);
            use_type_invariant(&*self.topo);
            assert(object_wf(self.topo.objects@, self.idx as int));
        }
        let lst = &self.topo.objects[self.idx].children;
        let mut r: Vec<Object<'topo>> = Vec::new();
        let mut k: usize = 0;
        while k < lst.len()
            invariant
                k <= lst@.len(),
                r@.len() == k,
                lst@ == self.topo.objects@[self.idx as int].children@,
                self.idx < self.topo.objects@.len(),
                child_links_ok(self.topo.objects@, self.idx as int, lst@, 0),
                forall|t: int| 0 <= t < k ==> (#[trigger] r@[t]).spec_topo() == *self.topo
                    && r@[t].spec_index() == lst@[t],
            decreases lst@.len() - k,
        {
            let c = lst[k];
            r.push(Object { topo: self.topo, idx: c });
            k = k + 1;
        }
        r
    }

    /// First normal child.
    pub fn first_child(&self) -> (r: Option<Object<'topo>>)
        ensures
            match r {
                None => self.spec_record().children@.len() == 0,
                Some(c) => self.spec_record().children@.len() > 0 && c.spec_topo()
                    == self.spec_topo() && c.spec_index()
                    == self.spec_record().children@[0] && c.spec_record().parent == Some(
                    self.spec_index() as usize,
                ) && c.spec_record().sibling_rank == 0
                    && c.spec_record().object_type.spec_is_normal(),
            },
    {
        proof {
            use_type_invariant(&*self);
            use_type_invariant(&*self.topo);
            assert(object_wf(self.topo.objects@, self.idx as int));
        }
        let lst = &self.topo.objects[self.idx].children;
        if lst.len() == 0 {
            return None;
        }
        Some(Object { topo: self.topo, idx: lst[0] })
    }

    /// Last normal child.
    pub fn last_child(&self) -> (r: Option<Object<'topo>>)
        ensures
            match r {
                None => self.spec_record().children@.len() == 0,
                Some(c) => self.spec_record().children@.len() > 0 && c.spec_topo()
                    == self.spec_topo() && c.spec_index() == self.spec_record().children@[
                    self.spec_record().children@.len() - 1] && c.spec_record().parent
                    == Some(self.spec_index() as usize) && c.spec_record().sibling_rank
                    == self.spec_record().children@.len() - 1
                    && c.spec_record().object_type.spec_is_normal(),
            },
    {
        proof {
            use_type_invariant(&*self);
            use_type_invariant(&*self.topo);
            assert(object_wf(self.topo.objects@, self.idx as int));
        }
        let lst = &self.topo.objects[self.idx].children;
        if lst.len() == 0 {
            return None;
        }
        Some(Object { topo: self.topo, idx: lst[lst.len() - 1] })
    }

    /// First memory child. NUMA nodes and memory-side caches are listed here
    /// instead of in the normal children list.
    pub fn memory_first_child(&self) -> (r: Option<Object<'topo>>)
        ensures
            match r {
                None => self.spec_record().memory_children@.len() == 0,
                Some(c) => self.spec_record().memory_children@.len() > 0 && c.spec_topo()
                    == self.spec_topo() && c.spec_index()
                    == self.spec_record().memory_children@[0] && c.spec_record().parent
                    == Some(self.spec_index() as usize) && c.spec_record().sibling_rank
                    == 0 && c.spec_record().object_type.spec_is_memory(),
            },
    {
        proof {
            use_type_invariant(&*self);
            use_type_invariant(&*self.topo);
            assert(object_wf(self.topo.objects@, self.idx as int));
        }
        let lst = &self.topo.objects[self.idx].memory_children;
        if lst.len() == 0 {
            return None;
        }
        Some(Object { topo: self.topo, idx: lst[0] })
    }

    /// First I/O child. Bridges, PCI and OS devices are listed here instead
    /// of in the normal children list.
    pub fn io_first_child(&self) -> (r: Option<Object<'topo>>)
        ensures
            match r {
                None => self.spec_record().io_children@.len() == 0,
                Some(c) => self.spec_record().io_children@.len() > 0 && c.spec_topo()
                    == self.spec_topo() && c.spec_index()
                    == self.spec_record().io_children@[0] && c.spec_record().parent
                    == Some(self.spec_index() as usize) && c.spec_record().sibling_rank
                    == 0 && c.spec_record().object_type.spec_is_io(),
            },
    {
        proof {
            use_type_invariant(&*self);
            use_type_invariant(&*self.topo);
            assert(object_wf(self.topo.objects@, self.idx as int));
        }
        let lst = &self.topo.objects[self.idx].io_children;
        if lst.len() == 0 {
            return None;
        }
        Some(Object { topo: self.topo, idx: lst[0] })
    }

    /// First Misc child. Misc objects are listed here instead of in the
    /// normal children list.
    pub fn misc_first_child(&self) -> (r: Option<Object<'topo>>)
        ensures
            match r {
                None => self.spec_record().misc_children@.len() == 0,
                Some(c) => self.spec_record().misc_children@.len() > 0 && c.spec_topo()
                    == self.spec_topo() && c.spec_index()
                    == self.spec_record().misc_children@[0] && c.spec_record().parent
                    == Some(self.spec_index() as usize) && c.spec_record().sibling_rank
                    == 0 && c.spec_record().object_type == ObjectType::Misc,
            },
    {
        proof {
            use_type_invariant(&*self);
            use_type_invariant(&*self.topo);
            assert(object_wf(self.topo.objects@, self.idx as int));
        }
        let lst = &self.topo.objects[self.idx].misc_children;
        if lst.len() == 0 {
            return None;
        }
        Some(Object { topo: self.topo, idx: lst[0] })
    }

    /// Next object below the same parent, inside the same list of children.
    pub fn next_sibling(&self) -> (r: Option<Object<'topo>>)
        ensures
            match r {
                None => self.spec_record().parent is None || {
                    let lst = kind_list(
                        self.spec_topo().spec_objects()[
                            self.spec_record().parent.unwrap() as int],
                        self.spec_record().object_type,
                    );
                    self.spec_record().sibling_rank + 1 >= lst.len()
                },
                Some(s) => {
                    let lst = kind_list(
                        self.spec_topo().spec_objects()[
                            self.spec_record().parent.unwrap() as int],
                        self.spec_record().object_type,
                    );
                    &&& self.spec_record().parent is Some
                    &&& s.spec_topo() == self.spec_topo()
                    &&& self.spec_record().sibling_rank + 1 < lst.len()
                    &&& s.spec_index() == lst[self.spec_record().sibling_rank as int + 1]
                },
            },
    {
        proof {
            use_type_invariant(&*self);
            use_type_invariant(&*self.topo);
            assert(object_wf(self.topo.objects@, self.idx as int));
        }
        let rec = &self.topo.objects[self.idx];
        match rec.parent {
            None => None,
            Some(p) => {
                let pr = &self.topo.objects[p];
                proof {
                    assert(object_wf(self.topo.objects@, p as int));
                }
                let lst: &Vec<usize> = if rec.object_type.is_memory() {
                    &pr.memory_children
                } else if rec.object_type.is_io() {
                    &pr.io_children
                } else if matches!(rec.object_type, ObjectType::Misc) {
                    &pr.misc_children
                } else {
                    &pr.children
                };
                proof {
                    assert(lst@ == kind_list(self.topo.objects@[p as int], rec.object_type));
                }
                proof {
                    assert((rec.sibling_rank as int) < lst@.len());
                }
                let rank = rec.sibling_rank as usize;
                if rank + 1 < lst.len() {
                    Some(Object { topo: self.topo, idx: lst[rank + 1] })
                } else {
                    None
                }
            },
        }
    }

    /// Previous object below the same parent, inside the same list of
    /// children.
    pub fn prev_sibling(&self) -> (r: Option<Object<'topo>>)
        ensures
            match r {
                None => self.spec_record().parent is None
                    || self.spec_record().sibling_rank == 0,
                Some(s) => {
                    let lst = kind_list(
                        self.spec_topo().spec_objects()[
                            self.spec_record().parent.unwrap() as int],
                        self.spec_record().object_type,
                    );
                    &&& self.spec_record().parent is Some
                    &&& s.spec_topo() == self.spec_topo()
                    &&& self.spec_record().sibling_rank >= 1
                    &&& s.spec_index() == lst[self.spec_record().sibling_rank as int - 1]
                },
            },
    {
        proof {
            use_type_invariant(&*self);
            use_type_invariant(&*self.topo);
            assert(object_wf(self.topo.objects@, self.idx as int));
        }
        let rec = &self.topo.objects[self.idx];
        match rec.parent {
            None => None,
            Some(p) => {
                let pr = &self.topo.objects[p];
                proof {
                    assert(object_wf(self.topo.objects@, p as int));
                }
                let lst: &Vec<usize> = if rec.object_type.is_memory() {
                    &pr.memory_children
                } else if rec.object_type.is_io() {
                    &pr.io_children
                } else if matches!(rec.object_type, ObjectType::Misc) {
                    &pr.misc_children
                } else {
                    &pr.children
                };
                proof {
                    assert(lst@ == kind_list(self.topo.objects@[p as int], rec.object_type));
                }
                let rank = rec.sibling_rank as usize;
                if rank >= 1 {
                    Some(Object { topo: self.topo, idx: lst[rank - 1] })
                } else {
                    None
                }
            },
        }
    }

    /// Next object of same type and depth: the object whose logical index
    /// follows this one's on the same level.
    pub fn next_cousin(&self) -> (r: Option<Object<'topo>>)
        ensures
            match r {
                None => forall|t: int| 0 <= t < self.spec_topo().spec_objects().len()
                    ==> !((#[trigger] self.spec_topo().spec_objects()[t]).depth
                        == self.spec_record().depth
                        && self.spec_topo().spec_objects()[t].logical_index
                        == self.spec_record().logical_index + 1),
                Some(c) => c.spec_topo() == self.spec_topo() && c.spec_record().depth
                    == self.spec_record().depth && c.spec_record().logical_index
                    == self.spec_record().logical_index + 1,
            },
    {
        proof {
            use_type_invariant(&*self);
            use_type_invariant(&*self.topo);
        }
        let my_depth = self.rec().depth;
        let target: u64 = self.rec().logical_index as u64 + 1;
        let mut t: usize = 0;
        while t < self.topo.objects.len()
            invariant
                t <= self.topo.objects@.len(),
                target == self.spec_record().logical_index + 1,
                my_depth == self.spec_record().depth,
                self.idx < self.topo.objects@.len(),
                forall|u: int| 0 <= u < t ==> !((#[trigger] self.topo.objects@[u]).depth
                    == my_depth && self.topo.objects@[u].logical_index == target),
            decreases self.topo.objects@.len() - t,
        {
            if self.topo.objects[t].depth == my_depth && self.topo.objects[t].logical_index
                as u64 == target {
                return Some(Object { topo: self.topo, idx: t });
            }
            t = t + 1;
        }
        None
    }

    /// Previous object of same type and depth: the object whose logical index
    /// this one's follows on the same level.
    pub fn prev_cousin(&self) -> (r: Option<Object<'topo>>)
        ensures
            match r {
                None => self.spec_record().logical_index == 0 || forall|t: int|
                    0 <= t < self.spec_topo().spec_objects().len()
                    ==> !((#[trigger] self.spec_topo().spec_objects()[t]).depth
                        == self.spec_record().depth
                        && self.spec_topo().spec_objects()[t].logical_index
                        == self.spec_record().logical_index - 1),
                Some(c) => c.spec_topo() == self.spec_topo() && c.spec_record().depth
                    == self.spec_record().depth && self.spec_record().logical_index >= 1
                    && c.spec_record().logical_index == self.spec_record().logical_index
                    - 1,
            },
    {
        proof {
            use_type_invariant(&*self);
            use_type_invariant(&*self.topo);
        }
        let my_depth = self.rec().depth;
        let li = self.rec().logical_index;
        if li == 0 {
            return None;
        }
        let target: u32 = li - 1;
        let mut t: usize = 0;
        while t < self.topo.objects.len()
            invariant
                t <= self.topo.objects@.len(),
                target == self.spec_record().logical_index - 1,
                my_depth == self.spec_record().depth,
                self.idx < self.topo.objects@.len(),
                forall|u: int| 0 <= u < t ==> !((#[trigger] self.topo.objects@[u]).depth
                    == my_depth && self.topo.objects@[u].logical_index == target),
            decreases self.topo.objects@.len() - t,
        {
            if self.topo.objects[t].depth == my_depth && self.topo.objects[t].logical_index
                == target {
                return Some(Object { topo: self.topo, idx: t });
            }
            t = t + 1;
        }
        None
    }
}

/// A memory object always has a parent: only the Machine root has none.
proof fn lemma_memory_has_parent(objs: Seq<ObjectRecord>, o: int)
    requires
        objects_wf(objs),
        0 <= o < objs.len(),
        objs[o].object_type.spec_is_memory(),
    ensures
        objs[o].parent is Some,
        objs[o].parent is Some ==> (objs[o].parent.unwrap() as int) < o,
{
    assert(object_wf(objs, o));
    match objs[o].parent {
        Option::None => {
            assert(o == 0);
            assert(objs[0].object_type == ObjectType::Machine);
        },
        Option::Some(_) => {},
    }
}

/// A Normal object is never deeper than its arena position: depths increase
/// one by one along parent links, and parents come earlier.
proof fn lemma_depth_le(objs: Seq<ObjectRecord>, o: int)
    requires
        objects_wf(objs),
        0 <= o < objs.len(),
        objs[o].object_type.spec_is_normal(),
    ensures
        0 <= objs[o].depth <= o,
    decreases o,
{
    assert(object_wf(objs, o));
    match objs[o].parent {
        Option::None => {},
        Option::Some(p) => {
            assert(object_wf(objs, p as int));
            if !objs[p as int].object_type.spec_is_normal() {
                assert(objs[p as int].depth < 0);
            }
            lemma_depth_le(objs, p as int);
        },
    }
}

impl Topology {
    /// Get the depth of the hierarchical tree of objects: one more than the
    /// depth of the PU level, the deepest level of Normal objects.
    ///
    /// # Note
    ///
    /// NUMA nodes, I/O and Misc objects are ignored when computing the depth
    /// of the tree (they are placed on special levels).
    pub fn depth(&self) -> (r: i32)
        ensures
            2 <= r <= 0x7FFF_FFFF,
            exists|o: int| 0 <= o < self.spec_objects().len()
                && (#[trigger] self.spec_objects()[o]).object_type == ObjectType::PU
                && self.spec_objects()[o].depth == r - 1,
            forall|o: int| 0 <= o < self.spec_objects().len()
                && (#[trigger] self.spec_objects()[o]).object_type == ObjectType::PU
                ==> self.spec_objects()[o].depth == r - 1,
            forall|o: int| 0 <= o < self.spec_objects().len()
                && (#[trigger] self.spec_objects()[o]).object_type.spec_is_normal()
                ==> self.spec_objects()[o].depth < r,
    {
        proof {
            use_type_invariant(&*self);
            assert(object_wf(self.objects@, 0));
        }
        let mut m: i32 = 0;
        let mut t: usize = 0;
        proof {
            assert(self.objects@[0].object_type.spec_is_normal());
            assert(self.objects@[0].depth == 0);
        }
        while t < self.objects.len()
            invariant
                t <= self.objects@.len(),
                self.objects@.len() <= 0x7FFF_FFFF,
                objects_wf(self.objects@),
                0 <= m < self.objects@.len(),
                exists|o: int| 0 <= o < self.objects@.len()
                    && (#[trigger] self.objects@[o]).object_type.spec_is_normal()
                    && self.objects@[o].depth == m,
                forall|o: int| 0 <= o < t
                    && (#[trigger] self.objects@[o]).object_type.spec_is_normal()
                    ==> self.objects@[o].depth <= m,
            decreases self.objects@.len() - t,
        {
            if self.objects[t].object_type.is_normal() {
                proof {
                    lemma_depth_le(self.objects@, t as int);
                }
                if self.objects[t].depth > m {
                    m = self.objects[t].depth;
                }
            }
            t = t + 1;
        }
        proof {
            let objs = self.objects@;
            let p = choose|p: int| 0 <= p < objs.len() && (#[trigger] objs[p]).object_type
                == ObjectType::PU;
            let w = choose|w: int| 0 <= w < objs.len() && (#[trigger] objs[w]).object_type
                .spec_is_normal() && objs[w].depth == m;
            // The PU level is the deepest Normal level, so the maximum is
            // taken there.
            lemma_pu_deepest(objs, p, w);
            assert(objs[p].depth == m);
            assert forall|o: int| 0 <= o < objs.len() && (#[trigger] objs[o]).object_type
                == ObjectType::PU implies objs[o].depth == m by {
                lemma_single_level(objs, p, o);
            }
            // A PU is never the root, so its level sits below the Machine.
            assert(object_wf(objs, p));
            match objs[p].parent {
                Option::Some(q) => {
                    assert(objs[p].depth >= 1);
                },
                Option::None => {
                    assert(p == 0);
                    assert(false);
                },
            }
        }
        m + 1
    }

    /// Returns the depth of objects of type `obj_type`.
    ///
    /// If a NUMA node, I/O or Misc object type is given, the function returns
    /// the virtual depth of that type's dedicated level.
    ///
    /// For a Normal type, it returns the depth its objects live at; if no
    /// object of the type is present, it returns the code of
    /// [`TypeDepth::Unknown`], and if objects of the type exist at different
    /// depths, the code of [`TypeDepth::Multiple`].
    pub fn type_depth(&self, obj_type: ObjectType) -> (r: i32)
        ensures
            obj_type.spec_is_normal() && obj_type != ObjectType::Group ==> r != -2,
            !obj_type.spec_is_normal() ==> match TypeDepth::spec_of_type(obj_type) {
                Some(d) => r == d.spec_code(),
                None => false,
            },
            obj_type.spec_is_normal() ==> {
                ||| (r == -1 && forall|o: int| 0 <= o < self.spec_objects().len()
                    ==> (#[trigger] self.spec_objects()[o]).object_type != obj_type)
                ||| (r == -2 && exists|o1: int, o2: int|
                    0 <= o1 < self.spec_objects().len() && 0 <= o2
                        < self.spec_objects().len()
                        && (#[trigger] self.spec_objects()[o1]).object_type == obj_type
                        && (#[trigger] self.spec_objects()[o2]).object_type == obj_type
                        && self.spec_objects()[o1].depth != self.spec_objects()[o2].depth)
                ||| (r >= 0 && (exists|o: int| 0 <= o < self.spec_objects().len()
                    && (#[trigger] self.spec_objects()[o]).object_type == obj_type
                    && self.spec_objects()[o].depth == r) && forall|o: int|
                    0 <= o < self.spec_objects().len()
                        && (#[trigger] self.spec_objects()[o]).object_type == obj_type
                        ==> self.spec_objects()[o].depth == r)
            },
    {
        proof {
            use_type_invariant(&*self);
        }
        if !obj_type.is_normal() {
            let d = match TypeDepth::of_type(obj_type) {
                Some(d) => d,
                None => TypeDepth::Unknown,
            };
            return d.to_i32();
        }
        let mut found: bool = false;
        let mut depth: i32 = -1;
        let mut t: usize = 0;
        while t < self.objects.len()
            invariant
                t <= self.objects@.len(),
                objects_wf(self.objects@),
                obj_type.spec_is_normal(),
                !found ==> forall|o: int| 0 <= o < t
                    ==> (#[trigger] self.objects@[o]).object_type != obj_type,
                found ==> exists|o: int| 0 <= o < t
                    && (#[trigger] self.objects@[o]).object_type == obj_type
                    && self.objects@[o].depth == depth,
                found ==> forall|o: int| 0 <= o < t
                    && (#[trigger] self.objects@[o]).object_type == obj_type
                    ==> self.objects@[o].depth == depth,
                found ==> depth >= 0,
                obj_type.spec_is_normal(),
            decreases self.objects@.len() - t,
        {
            if self.objects[t].object_type.to_u32() == obj_type.to_u32() {
                proof {
                    crate::types::lemma_object_type_code_injective(
                        self.objects@[t as int].object_type,
                        obj_type,
                    );
                    lemma_depth_le(self.objects@, t as int);
                }
                if !found {
                    found = true;
                    depth = self.objects[t].depth;
                } else if self.objects[t].depth != depth {
                    proof {
                        if obj_type.spec_is_normal() && obj_type != ObjectType::Group {
                            let w = choose|o: int|
                                0 <= o < t && (#[trigger] self.objects@[o]).object_type
                                    == obj_type && self.objects@[o].depth == depth;
                            lemma_single_level(self.objects@, w, t as int);
                            assert(false);
                        }
                    }
                    return -2;
                }
            }
            t = t + 1;
        }
        if found {
            depth
        } else {
            -1
        }
    }

    /// Returns the type of the objects at depth `depth` — every object of one
    /// depth has the same type — or [`Error::TopologyDepthDoesNotExist`] if
    /// no object lives at that depth.
    ///
    /// This inverts [`Topology::type_depth`]: a non-Normal type comes back
    /// exactly from its virtual depth.
    pub fn depth_type(&self, depth: i32) -> (r: Result<ObjectType, Error>)
        ensures
            match r {
                Ok(t) => (exists|o: int| 0 <= o < self.spec_objects().len()
                    && (#[trigger] self.spec_objects()[o]).depth == depth
                    && self.spec_objects()[o].object_type == t) && (forall|o: int|
                    0 <= o < self.spec_objects().len()
                        && (#[trigger] self.spec_objects()[o]).depth == depth
                        ==> self.spec_objects()[o].object_type == t) && (
                !t.spec_is_normal() ==> match TypeDepth::spec_of_type(t) {
                    Some(d) => depth == d.spec_code(),
                    None => false,
                }) && (t.spec_is_normal() ==> depth >= 0),
                Err(e) => e == Error::TopologyDepthDoesNotExist(depth) && forall|o: int|
                    0 <= o < self.spec_objects().len()
                    ==> (#[trigger] self.spec_objects()[o]).depth != depth,
            },
    {
        proof {
            use_type_invariant(&*self);
        }
        let mut t: usize = 0;
        while t < self.objects.len()
            invariant
                t <= self.objects@.len(),
                objects_wf(self.objects@),
                forall|o: int| 0 <= o < t ==> (#[trigger] self.objects@[o]).depth != depth,
            decreases self.objects@.len() - t,
        {
            if self.objects[t].depth == depth {
                proof {
                    assert(object_wf(self.objects@, t as int));
                    assert forall|o: int| 0 <= o < self.objects@.len()
                        && (#[trigger] self.objects@[o]).depth == depth implies self
                        .objects@[o].object_type == self.objects@[t as int].object_type by {
                        lemma_same_depth_same_type(self.objects@, t as int, o);
                    }
                }
                return Ok(self.objects[t].object_type);
            }
            t = t + 1;
        }
        Err(Error::TopologyDepthDoesNotExist(depth))
    }

    /// Returns the width of the level of type `obj_type`.
    ///
    /// If no object of that type exists, `0` is returned. If there are
    /// several levels with objects of that type, `-1` is returned.
    pub fn nbobjs_by_type(&self, obj_type: ObjectType) -> (r: i32)
        ensures
            !obj_type.spec_is_normal() ==> match TypeDepth::spec_of_type(obj_type) {
                Some(d) => r == count_at_depth(
                    self.spec_objects(),
                    d.spec_code() as int,
                    self.spec_objects().len() as int,
                ),
                None => false,
            },
            obj_type.spec_is_normal() ==> {
                ||| (r == 0 && forall|o: int| 0 <= o < self.spec_objects().len()
                    ==> (#[trigger] self.spec_objects()[o]).object_type != obj_type)
                ||| (r == -1 && exists|o1: int, o2: int|
                    0 <= o1 < self.spec_objects().len() && 0 <= o2
                        < self.spec_objects().len()
                        && (#[trigger] self.spec_objects()[o1]).object_type == obj_type
                        && (#[trigger] self.spec_objects()[o2]).object_type == obj_type
                        && self.spec_objects()[o1].depth != self.spec_objects()[o2].depth)
                ||| (r >= 0 && (forall|o1: int, o2: int|
                    0 <= o1 < self.spec_objects().len() && 0 <= o2
                        < self.spec_objects().len()
                        && (#[trigger] self.spec_objects()[o1]).object_type == obj_type
                        && (#[trigger] self.spec_objects()[o2]).object_type == obj_type
                        ==> self.spec_objects()[o1].depth == self.spec_objects()[o2].depth)
                    && exists|o: int| 0 <= o < self.spec_objects().len()
                    && (#[trigger] self.spec_objects()[o]).object_type == obj_type && r
                    == count_at_depth(
                    self.spec_objects(),
                    self.spec_objects()[o].depth as int,
                    self.spec_objects().len() as int,
                ))
            },
    {
        proof {
            use_type_invariant(&*self);
        }
        let d = self.type_depth(obj_type);
        if d == -1 {
            return 0;
        }
        if d == -2 {
            return -1;
        }
        let n = self.nbobjs_by_depth(d);
        proof {
            crate::object::lemma_count_le(
                self.objects@,
                d as int,
                self.objects@.len() as int,
            );
        }
        n as i32
    }

    /// Returns the topology object at logical index `idx` with type
    /// `obj_type`.
    ///
    /// If no object of that type exists, or if there are several levels with
    /// objects of that type, `None` is returned; the caller may fall back to
    /// [`Topology::object_by_depth`].
    pub fn object_by_type(&self, obj_type: ObjectType, idx: u32) -> (r: Option<Object<'_>>)
        ensures
            match r {
                Some(o) => o.spec_topo() == *self && o.spec_record().object_type == obj_type
                    && o.spec_record().logical_index == idx,
                None => (exists|o1: int, o2: int|
                    0 <= o1 < self.spec_objects().len() && 0 <= o2
                        < self.spec_objects().len()
                        && (#[trigger] self.spec_objects()[o1]).object_type == obj_type
                        && (#[trigger] self.spec_objects()[o2]).object_type == obj_type
                        && self.spec_objects()[o1].depth != self.spec_objects()[o2].depth)
                    || forall|o: int| 0 <= o < self.spec_objects().len()
                    ==> !((#[trigger] self.spec_objects()[o]).object_type == obj_type
                        && self.spec_objects()[o].logical_index == idx),
            },
    {
        proof {
            use_type_invariant(&*self);
        }
        let d = self.type_depth(obj_type);
        if d == -1 || d == -2 {
            return None;
        }
        proof {
            // Every object of the looked-up type lives at the one depth the
            // lookup uses: at its virtual depth for a non-Normal type, at the
            // single level found for a Normal one.
            assert forall|o: int| 0 <= o < self.spec_objects().len()
                && (#[trigger] self.spec_objects()[o]).object_type == obj_type implies self
                .spec_objects()[o].depth == d by {
                assert(object_wf(self.spec_objects(), o));
            }
        }
        match self.object_by_depth(d, idx) {
            Some(o) => {
                proof {
                    use_type_invariant(&o);
                }
                if o.object_type().to_u32() == obj_type.to_u32() {
                    proof {
                        crate::types::lemma_object_type_code_injective(
                            o.spec_record().object_type,
                            obj_type,
                        );
                    }
                    Some(o)
                } else {
                    proof {
                        self.lemma_no_object_of_type_at(obj_type, d, idx, o.spec_index());
                    }
                    None
                }
            },
            None => {
                proof {
                    assert forall|o: int| 0 <= o < self.spec_objects().len() implies !((
                    #[trigger] self.spec_objects()[o]).object_type == obj_type
                        && self.spec_objects()[o].logical_index == idx) by {
                        if self.spec_objects()[o].object_type == obj_type {
                            assert(self.spec_objects()[o].depth == d);
                        }
                    }
                }
                None
            },
        }
    }

    /// When the object at logical index `idx` of the single level of
    /// `obj_type` is of another type, no object of `obj_type` carries that
    /// logical index.
    proof fn lemma_no_object_of_type_at(self, obj_type: ObjectType, d: i32, idx: u32, w: int)
        requires
            objects_wf(self.spec_objects()),
            0 <= w < self.spec_objects().len(),
            self.spec_objects()[w].depth == d,
            self.spec_objects()[w].logical_index == idx,
            self.spec_objects()[w].object_type != obj_type,
            forall|o: int| 0 <= o < self.spec_objects().len()
                && (#[trigger] self.spec_objects()[o]).object_type == obj_type
                ==> self.spec_objects()[o].depth == d,
        ensures
            forall|o: int| 0 <= o < self.spec_objects().len()
                ==> !((#[trigger] self.spec_objects()[o]).object_type == obj_type
                    && self.spec_objects()[o].logical_index == idx),
    {
        assert forall|o: int| 0 <= o < self.spec_objects().len() implies !((
        #[trigger] self.spec_objects()[o]).object_type == obj_type && self.spec_objects()[
        o].logical_index == idx) by {
            if self.spec_objects()[o].object_type == obj_type && self.spec_objects()[
            o].logical_index == idx {
                lemma_logical_unique(self.spec_objects(), o, w);
            }
        }
    }

    /// Returns the next object at depth `depth`, by logical index.
    ///
    /// If `prev` is `None`, returns the first object at depth `depth`.
    pub fn next_object_by_depth<'topo>(&'topo self, depth: i32, prev: Option<Object<'topo>>)
        -> (r: Option<Object<'topo>>)
        ensures
            match r {
                Some(o) => o.spec_record().depth == depth && match prev {
                    None => o.spec_topo() == *self && o.spec_record().logical_index == 0,
                    Some(p) => o.spec_topo() == p.spec_topo() && p.spec_record().depth
                        == depth && o.spec_record().logical_index == p.spec_record()
                        .logical_index + 1,
                },
                None => match prev {
                    None => forall|t: int| 0 <= t < self.spec_objects().len()
                        ==> !(#[trigger] self.spec_objects()[t].depth == depth
                            && self.spec_objects()[t].logical_index == 0),
                    Some(p) => p.spec_record().depth != depth || forall|t: int|
                        0 <= t < p.spec_topo().spec_objects().len()
                            ==> !((#[trigger] p.spec_topo().spec_objects()[t]).depth
                            == depth && p.spec_topo().spec_objects()[t].logical_index == p
                            .spec_record().logical_index + 1),
                },
            },
    {
        match prev {
            Some(p) => {
                if p.depth() != depth {
                    None
                } else {
                    p.next_cousin()
                }
            },
            None => self.object_by_depth(depth, 0),
        }
    }

    /// Returns the next object of type `obj_type`, by logical index.
    ///
    /// If `prev` is `None`, returns the first object of type `obj_type`. If
    /// there are multiple or no levels of that type, returns `None`, and the
    /// caller may fall back to [`Topology::next_object_by_depth`].
    pub fn next_object_by_type<'topo>(
        &'topo self,
        obj_type: ObjectType,
        prev: Option<Object<'topo>>,
    ) -> (r: Option<Object<'topo>>)
        ensures
            match r {
                Some(o) => o.spec_record().object_type == obj_type && match prev {
                    None => o.spec_topo() == *self && o.spec_record().logical_index == 0,
                    Some(p) => o.spec_topo() == p.spec_topo() && o.spec_record()
                        .logical_index == p.spec_record().logical_index + 1,
                },
                None => (exists|o1: int, o2: int|
                    0 <= o1 < self.spec_objects().len() && 0 <= o2
                        < self.spec_objects().len()
                        && (#[trigger] self.spec_objects()[o1]).object_type == obj_type
                        && (#[trigger] self.spec_objects()[o2]).object_type == obj_type
                        && self.spec_objects()[o1].depth != self.spec_objects()[o2].depth)
                    || match prev {
                    None => forall|o: int| 0 <= o < self.spec_objects().len()
                        ==> !((#[trigger] self.spec_objects()[o]).object_type == obj_type
                            && self.spec_objects()[o].logical_index == 0),
                    Some(p) => (forall|o: int| 0 <= o < self.spec_objects().len()
                        && (#[trigger] self.spec_objects()[o]).object_type == obj_type
                        ==> self.spec_objects()[o].depth != p.spec_record().depth)
                        || p.spec_topo().spec_objects() != self.spec_objects() || forall|
                        o: int,
                    |
                        0 <= o < self.spec_objects().len()
                            ==> !((#[trigger] self.spec_objects()[o]).object_type
                            == obj_type && self.spec_objects()[o].logical_index == p
                            .spec_record().logical_index + 1),
                },
            },
    {
        proof {
            use_type_invariant(&*self);
        }
        let d = self.type_depth(obj_type);
        if d == -1 || d == -2 {
            return None;
        }
        proof {
            // Every object of the looked-up type lives at the one depth the
            // lookup uses.
            assert forall|o: int| 0 <= o < self.spec_objects().len()
                && (#[trigger] self.spec_objects()[o]).object_type == obj_type implies self
                .spec_objects()[o].depth == d by {
                assert(object_wf(self.spec_objects(), o));
            }
        }
        match prev {
            Some(p) => {
                if p.depth() != d {
                    return None;
                }
                match p.next_cousin() {
                    Some(o) => {
                        proof {
                            use_type_invariant(&o);
                            use_type_invariant(&p);
                        }
                        if o.object_type().to_u32() == obj_type.to_u32() {
                            proof {
                                crate::types::lemma_object_type_code_injective(
                                    o.spec_record().object_type,
                                    obj_type,
                                );
                            }
                            Some(o)
                        } else {
                            proof {
                                if p.spec_topo().spec_objects() == self.spec_objects() {
                                    self.lemma_no_object_of_type_at(
                                        obj_type,
                                        d,
                                        (p.spec_record().logical_index + 1) as u32,
                                        o.spec_index(),
                                    );
                                }
                            }
                            None
                        }
                    },
                    None => {
                        proof {
                            if p.spec_topo().spec_objects() == self.spec_objects() {
                                assert forall|o: int| 0 <= o < self.spec_objects().len()
                                    implies !((#[trigger] self.spec_objects()[o])
                                    .object_type == obj_type && self.spec_objects()[
                                o].logical_index == p.spec_record().logical_index + 1) by {
                                    if self.spec_objects()[o].object_type == obj_type {
                                        assert(self.spec_objects()[o].depth == d);
                                    }
                                }
                            }
                        }
                        None
                    },
                }
            },
            None => {
                match self.object_by_type(obj_type, 0) {
                    Some(o) => Some(o),
                    None => None,
                }
            },
        }
    }

    /// Returns the object of type [`ObjectType::NumaNode`] with physical
    /// index `os_index`: the first one in storage order.
    ///
    /// This function is useful for converting a node set into the NUMA node
    /// objects it contains.
    pub fn numanode_object_by_os_index(&self, os_index: u32) -> (r: Option<Object<'_>>)
        ensures
            match r {
                Some(o) => o.spec_topo() == *self && o.spec_record().object_type
                    == ObjectType::NumaNode && o.spec_record().os_index == os_index,
                None => forall|t: int| 0 <= t < self.spec_objects().len()
                    ==> !((#[trigger] self.spec_objects()[t]).object_type
                        == ObjectType::NumaNode && self.spec_objects()[t].os_index
                        == os_index),
            },
    {
        self.object_by_type_and_os_index(ObjectType::NumaNode, os_index)
    }

    /// Returns the object of type [`ObjectType::PU`] with physical index
    /// `os_index`: the first one in storage order.
    ///
    /// This function is useful for converting a CPU set into the PU objects
    /// it contains.
    pub fn pu_object_by_os_index(&self, os_index: u32) -> (r: Option<Object<'_>>)
        ensures
            match r {
                Some(o) => o.spec_topo() == *self && o.spec_record().object_type
                    == ObjectType::PU && o.spec_record().os_index == os_index,
                None => forall|t: int| 0 <= t < self.spec_objects().len()
                    ==> !((#[trigger] self.spec_objects()[t]).object_type == ObjectType::PU
                        && self.spec_objects()[t].os_index == os_index),
            },
    {
        self.object_by_type_and_os_index(ObjectType::PU, os_index)
    }

    /// The first object in storage order with the given type and physical
    /// index.
    fn object_by_type_and_os_index(&self, obj_type: ObjectType, os_index: u32) -> (r: Option<
        Object<'_>,
    >)
        ensures
            match r {
                Some(o) => o.spec_topo() == *self && o.spec_record().object_type == obj_type
                    && o.spec_record().os_index == os_index,
                None => forall|t: int| 0 <= t < self.spec_objects().len()
                    ==> !((#[trigger] self.spec_objects()[t]).object_type == obj_type
                        && self.spec_objects()[t].os_index == os_index),
            },
    {
        proof {
            use_type_invariant(&*self);
        }
        let mut t: usize = 0;
        while t < self.objects.len()
            invariant
                t <= self.objects@.len(),
                forall|u: int| 0 <= u < t ==> !((#[trigger] self.objects@[u]).object_type
                    == obj_type && self.objects@[u].os_index == os_index),
            decreases self.objects@.len() - t,
        {
            if self.objects[t].object_type.to_u32() == obj_type.to_u32() && self.objects[t]
                .os_index == os_index {
                proof {
                    crate::types::lemma_object_type_code_injective(
                        self.objects@[t as int].object_type,
                        obj_type,
                    );
                }
                return Some(Object { topo: self, idx: t });
            }
            proof {
                crate::types::lemma_object_type_code_injective(
                    self.objects@[t as int].object_type,
                    obj_type,
                );
            }
            t = t + 1;
        }
        None
    }

    /// Get the next bridge in the system, by logical index.
    ///
    /// Returns the first bridge if `prev` is `None`.
    pub fn next_bridge<'topo>(&'topo self, prev: Option<Object<'topo>>) -> (r: Option<
        Object<'topo>,
    >)
        ensures
            match r {
                Some(o) => o.spec_record().object_type == ObjectType::Bridge && match prev {
                    None => o.spec_topo() == *self && o.spec_record().logical_index == 0,
                    Some(p) => o.spec_topo() == p.spec_topo() && o.spec_record()
                        .logical_index == p.spec_record().logical_index + 1,
                },
                None => match prev {
                    None => forall|o: int| 0 <= o < self.spec_objects().len()
                        ==> !((#[trigger] self.spec_objects()[o]).object_type
                            == ObjectType::Bridge && self.spec_objects()[o].logical_index
                            == 0),
                    Some(p) => (forall|o: int| 0 <= o < self.spec_objects().len()
                        && (#[trigger] self.spec_objects()[o]).object_type
                        == ObjectType::Bridge ==> self.spec_objects()[o].depth != p
                        .spec_record().depth) || p.spec_topo().spec_objects()
                        != self.spec_objects() || forall|o: int|
                        0 <= o < self.spec_objects().len()
                            ==> !((#[trigger] self.spec_objects()[o]).object_type
                            == ObjectType::Bridge && self.spec_objects()[o].logical_index
                            == p.spec_record().logical_index + 1),
                },
            },
    {
        proof {
            use_type_invariant(&*self);
            // All objects of one I/O type share their virtual depth, so the
            // level of that type is never spread over several depths.
            assert forall|o1: int, o2: int|
                0 <= o1 < self.spec_objects().len() && 0 <= o2 < self.spec_objects().len()
                    && (#[trigger] self.spec_objects()[o1]).object_type == ObjectType::Bridge
                    && (#[trigger] self.spec_objects()[o2]).object_type
                    == ObjectType::Bridge implies self.spec_objects()[o1].depth
                == self.spec_objects()[o2].depth by {
                assert(object_wf(self.spec_objects(), o1));
                assert(object_wf(self.spec_objects(), o2));
            }
        }
        self.next_object_by_type(ObjectType::Bridge, prev)
    }

    /// Get the next OS device in the system, by logical index.
    ///
    /// Returns the first OS device if `prev` is `None`.
    pub fn next_osdev<'topo>(&'topo self, prev: Option<Object<'topo>>) -> (r: Option<
        Object<'topo>,
    >)
        ensures
            match r {
                Some(o) => o.spec_record().object_type == ObjectType::OsDevice && match prev {
                    None => o.spec_topo() == *self && o.spec_record().logical_index == 0,
                    Some(p) => o.spec_topo() == p.spec_topo() && o.spec_record()
                        .logical_index == p.spec_record().logical_index + 1,
                },
                None => match prev {
                    None => forall|o: int| 0 <= o < self.spec_objects().len()
                        ==> !((#[trigger] self.spec_objects()[o]).object_type
                            == ObjectType::OsDevice && self.spec_objects()[o].logical_index
                            == 0),
                    Some(p) => (forall|o: int| 0 <= o < self.spec_objects().len()
                        && (#[trigger] self.spec_objects()[o]).object_type
                        == ObjectType::OsDevice ==> self.spec_objects()[o].depth != p
                        .spec_record().depth) || p.spec_topo().spec_objects()
                        != self.spec_objects() || forall|o: int|
                        0 <= o < self.spec_objects().len()
                            ==> !((#[trigger] self.spec_objects()[o]).object_type
                            == ObjectType::OsDevice && self.spec_objects()[o].logical_index
                            == p.spec_record().logical_index + 1),
                },
            },
    {
        proof {
            use_type_invariant(&*self);
            // All objects of one I/O type share their virtual depth, so the
            // level of that type is never spread over several depths.
            assert forall|o1: int, o2: int|
                0 <= o1 < self.spec_objects().len() && 0 <= o2 < self.spec_objects().len()
                    && (#[trigger] self.spec_objects()[o1]).object_type == ObjectType::OsDevice
                    && (#[trigger] self.spec_objects()[o2]).object_type
                    == ObjectType::OsDevice implies self.spec_objects()[o1].depth
                == self.spec_objects()[o2].depth by {
                assert(object_wf(self.spec_objects(), o1));
                assert(object_wf(self.spec_objects(), o2));
            }
        }
        self.next_object_by_type(ObjectType::OsDevice, prev)
    }

    /// Get the next PCI device in the system, by logical index.
    ///
    /// Returns the first PCI device if `prev` is `None`.
    pub fn next_pcidev<'topo>(&'topo self, prev: Option<Object<'topo>>) -> (r: Option<
        Object<'topo>,
    >)
        ensures
            match r {
                Some(o) => o.spec_record().object_type == ObjectType::PciDevice && match prev {
                    None => o.spec_topo() == *self && o.spec_record().logical_index == 0,
                    Some(p) => o.spec_topo() == p.spec_topo() && o.spec_record()
                        .logical_index == p.spec_record().logical_index + 1,
                },
                None => match prev {
                    None => forall|o: int| 0 <= o < self.spec_objects().len()
                        ==> !((#[trigger] self.spec_objects()[o]).object_type
                            == ObjectType::PciDevice && self.spec_objects()[o].logical_index
                            == 0),
                    Some(p) => (forall|o: int| 0 <= o < self.spec_objects().len()
                        && (#[trigger] self.spec_objects()[o]).object_type
                        == ObjectType::PciDevice ==> self.spec_objects()[o].depth != p
                        .spec_record().depth) || p.spec_topo().spec_objects()
                        != self.spec_objects() || forall|o: int|
                        0 <= o < self.spec_objects().len()
                            ==> !((#[trigger] self.spec_objects()[o]).object_type
                            == ObjectType::PciDevice && self.spec_objects()[o].logical_index
                            == p.spec_record().logical_index + 1),
                },
            },
    {
        proof {
            use_type_invariant(&*self);
            // All objects of one I/O type share their virtual depth, so the
            // level of that type is never spread over several depths.
            assert forall|o1: int, o2: int|
                0 <= o1 < self.spec_objects().len() && 0 <= o2 < self.spec_objects().len()
                    && (#[trigger] self.spec_objects()[o1]).object_type == ObjectType::PciDevice
                    && (#[trigger] self.spec_objects()[o2]).object_type
                    == ObjectType::PciDevice implies self.spec_objects()[o1].depth
                == self.spec_objects()[o2].depth by {
                assert(object_wf(self.spec_objects(), o1));
                assert(object_wf(self.spec_objects(), o2));
            }
        }
        self.next_object_by_type(ObjectType::PciDevice, prev)
    }

    /// Whether the bridge object `obj` covers the PCI bus `bus` of domain
    /// `domain`: its downstream side is PCI, of that domain, and the bus lies
    /// between its secondary and subordinate bus numbers.
    pub fn bridge_covers_pcibus(obj: Object<'_>, domain: u16, bus: u8) -> (r: bool)
        ensures
            r == match obj.spec_record().attributes {
                Some(Attributes::Bridge(a)) => a.downstream_type == BridgeType::Pci
                    && a.downstream_domain == domain && a.downstream_secondary_bus <= bus
                    && a.downstream_subordinate_bus >= bus,
                _ => false,
            },
    {
        match obj.attributes() {
            Some(Attributes::Bridge(attrs)) => {
                matches!(attrs.downstream_type(), BridgeType::Pci) && attrs.downstream_domain()
                    == domain && attrs.downstream_secondary_bus() <= bus
                    && attrs.downstream_subordinate_bus() >= bus
            },
            _ => false,
        }
    }

    /// Find the PCI device object matching the given domain, bus, device and
    /// function PCI bus id: the first one in storage order.
    pub fn pcidev_by_busid(&self, domain: u16, bus: u8, dev: u16, func: u8) -> (r: Option<
        Object<'_>,
    >)
        ensures
            match r {
                Some(o) => o.spec_topo() == *self && o.spec_record().object_type
                    == ObjectType::PciDevice && (match o.spec_record().attributes {
                    Some(Attributes::PciDev(a)) => a.domain == domain && a.bus == bus
                        && a.dev == dev && a.func == func,
                    _ => false,
                }) && forall|t: int| 0 <= t < o.spec_index()
                    ==> match (#[trigger] self.spec_objects()[t]).attributes {
                        Some(Attributes::PciDev(a)) => !(a.domain == domain && a.bus == bus
                            && a.dev == dev && a.func == func),
                        _ => true,
                    },
                None => forall|t: int| 0 <= t < self.spec_objects().len()
                    ==> match (#[trigger] self.spec_objects()[t]).attributes {
                        Some(Attributes::PciDev(a)) => !(a.domain == domain && a.bus == bus
                            && a.dev == dev && a.func == func),
                        _ => true,
                    },
            },
    {
        proof {
            use_type_invariant(&*self);
        }
        let mut t: usize = 0;
        while t < self.objects.len()
            invariant
                t <= self.objects@.len(),
                objects_wf(self.objects@),
                forall|u: int| 0 <= u < t ==> match (#[trigger] self.objects@[u]).attributes {
                    Some(Attributes::PciDev(a)) => !(a.domain == domain && a.bus == bus
                        && a.dev == dev && a.func == func),
                    _ => true,
                },
            decreases self.objects@.len() - t,
        {
            let hit = match &self.objects[t].attributes {
                Some(Attributes::PciDev(a)) => a.domain == domain && a.bus == bus && a.dev
                    as u16 == dev && a.func == func,
                _ => false,
            };
            if hit {
                proof {
                    // PCI attributes sit only on PCI devices.
                    assert(object_wf(self.objects@, t as int));
                    assert(self.objects@[t as int].object_type == ObjectType::PciDevice);
                }
                return Some(Object { topo: self, idx: t });
            }
            t = t + 1;
        }
        None
    }

    /// Get the complete CPU set of processors of the system: that of the root
    /// object.
    ///
    /// Returns [`Error::BitmapNullPointer`] if the root object carries no
    /// complete CPU set.
    pub fn complete_cpuset(&self) -> (r: Result<Bitmap, Error>)
        ensures
            match r {
                Ok(b) => self.spec_objects()[0].complete_cpuset is Some && (forall|i: int|
                    #[trigger] b.spec_bit(i) == self.spec_objects()[0].complete_cpuset
                        .unwrap().spec_bit(i)),
                Err(e) => e == Error::BitmapNullPointer
                    && self.spec_objects()[0].complete_cpuset is None,
            },
    {
        proof {
            use_type_invariant(&*self);
        }
        match &self.objects[0].complete_cpuset {
            Some(b) => Ok(b.dup()),
            None => Err(Error::BitmapNullPointer),
        }
    }

    /// Get the topology CPU set: the set of processors the topology describes,
    /// that of the root object.
    ///
    /// Returns [`Error::BitmapNullPointer`] if the root object carries no CPU
    /// set.
    pub fn topology_cpuset(&self) -> (r: Result<Bitmap, Error>)
        ensures
            match r {
                Ok(b) => self.spec_objects()[0].cpuset is Some && (forall|i: int|
                    #[trigger] b.spec_bit(i) == self.spec_objects()[0].cpuset.unwrap()
                        .spec_bit(i)),
                Err(e) => e == Error::BitmapNullPointer
                    && self.spec_objects()[0].cpuset is None,
            },
    {
        proof {
            use_type_invariant(&*self);
        }
        match &self.objects[0].cpuset {
            Some(b) => Ok(b.dup()),
            None => Err(Error::BitmapNullPointer),
        }
    }

    /// Get the allowed CPU set.
    ///
    /// The topology is built from explicit records without reservations, so
    /// all described processors are allowed: this is
    /// [`Topology::topology_cpuset`].
    pub fn allowed_cpuset(&self) -> (r: Result<Bitmap, Error>)
        ensures
            match r {
                Ok(b) => self.spec_objects()[0].cpuset is Some && (forall|i: int|
                    #[trigger] b.spec_bit(i) == self.spec_objects()[0].cpuset.unwrap()
                        .spec_bit(i)),
                Err(e) => e == Error::BitmapNullPointer
                    && self.spec_objects()[0].cpuset is None,
            },
    {
        self.topology_cpuset()
    }

    /// Get the complete node set of memory of the system: that of the root
    /// object.
    ///
    /// Returns [`Error::BitmapNullPointer`] if the root object carries no
    /// complete node set.
    pub fn complete_nodeset(&self) -> (r: Result<Bitmap, Error>)
        ensures
            match r {
                Ok(b) => self.spec_objects()[0].complete_nodeset is Some && (forall|i: int|
                    #[trigger] b.spec_bit(i) == self.spec_objects()[0].complete_nodeset
                        .unwrap().spec_bit(i)),
                Err(e) => e == Error::BitmapNullPointer
                    && self.spec_objects()[0].complete_nodeset is None,
            },
    {
        proof {
            use_type_invariant(&*self);
        }
        match &self.objects[0].complete_nodeset {
            Some(b) => Ok(b.dup()),
            None => Err(Error::BitmapNullPointer),
        }
    }

    /// Get the topology node set: the set of memory nodes the topology
    /// describes, that of the root object.
    ///
    /// Returns [`Error::BitmapNullPointer`] if the root object carries no
    /// node set.
    pub fn topology_nodeset(&self) -> (r: Result<Bitmap, Error>)
        ensures
            match r {
                Ok(b) => self.spec_objects()[0].nodeset is Some && (forall|i: int|
                    #[trigger] b.spec_bit(i) == self.spec_objects()[0].nodeset.unwrap()
                        .spec_bit(i)),
                Err(e) => e == Error::BitmapNullPointer
                    && self.spec_objects()[0].nodeset is None,
            },
    {
        proof {
            use_type_invariant(&*self);
        }
        match &self.objects[0].nodeset {
            Some(b) => Ok(b.dup()),
            None => Err(Error::BitmapNullPointer),
        }
    }

    /// Get the allowed node set.
    ///
    /// The topology is built from explicit records without reservations, so
    /// all described memory is allowed: this is
    /// [`Topology::topology_nodeset`].
    pub fn allowed_nodeset(&self) -> (r: Result<Bitmap, Error>)
        ensures
            match r {
                Ok(b) => self.spec_objects()[0].nodeset is Some && (forall|i: int|
                    #[trigger] b.spec_bit(i) == self.spec_objects()[0].nodeset.unwrap()
                        .spec_bit(i)),
                Err(e) => e == Error::BitmapNullPointer
                    && self.spec_objects()[0].nodeset is None,
            },
    {
        self.topology_nodeset()
    }

    /// Return the depth of the parents where memory objects are attached.
    ///
    /// Returns the common depth of the Normal parents of all memory objects,
    /// the code of [`TypeDepth::Multiple`] if those parents do not all have
    /// the same depth, and the code of [`TypeDepth::Unknown`] if no memory
    /// object is attached to a Normal parent. Memory objects attached to
    /// other memory objects (a NUMA node behind a memory-side cache) do not
    /// count: only where a memory subtree meets the main tree matters.
    #[verifier::rlimit(100)]
    pub fn memory_parents_depth(&self) -> (r: i32)
        ensures
            r == -1 ==> forall|o: int| 0 <= o < self.spec_objects().len()
                ==> !((#[trigger] self.spec_objects()[o]).object_type.spec_is_memory()
                    && self.spec_objects()[o].parent is Some && self.spec_objects()[
                self.spec_objects()[o].parent.unwrap() as int].depth >= 0),
            r >= 0 ==> exists|o: int| 0 <= o < self.spec_objects().len()
                && (#[trigger] self.spec_objects()[o]).object_type.spec_is_memory()
                && self.spec_objects()[o].parent is Some && self.spec_objects()[
            self.spec_objects()[o].parent.unwrap() as int].depth == r,
            r >= 0 ==> forall|o: int| 0 <= o < self.spec_objects().len()
                && (#[trigger] self.spec_objects()[o]).object_type.spec_is_memory()
                && self.spec_objects()[o].parent is Some && self.spec_objects()[
            self.spec_objects()[o].parent.unwrap() as int].depth >= 0
                ==> self.spec_objects()[self.spec_objects()[o].parent.unwrap() as int].depth
                == r,
            r == -2 ==> exists|o1: int, o2: int|
                0 <= o1 < self.spec_objects().len() && 0 <= o2 < self.spec_objects().len()
                    && (#[trigger] self.spec_objects()[o1]).object_type.spec_is_memory()
                    && (#[trigger] self.spec_objects()[o2]).object_type.spec_is_memory()
                    && self.spec_objects()[o1].parent is Some && self.spec_objects()[
                o2].parent is Some && self.spec_objects()[self.spec_objects()[
                o1].parent.unwrap() as int].depth >= 0 && self.spec_objects()[
                self.spec_objects()[o2].parent.unwrap() as int].depth >= 0
                    && self.spec_objects()[self.spec_objects()[o1].parent.unwrap() as int]
                    .depth != self.spec_objects()[self.spec_objects()[
                o2].parent.unwrap() as int].depth,
            r >= -2,
    {
        proof {
            use_type_invariant(&*self);
        }
        proof {
            assert forall|o: int| 0 <= o < self.objects@.len()
                && (#[trigger] self.objects@[o]).object_type.spec_is_memory() implies self
                .objects@[o].parent is Some && (self.objects@[o].parent.unwrap() as int)
                < self.objects@.len() by {
                lemma_memory_has_parent(self.objects@, o);
            }
        }
        let mut found: bool = false;
        let mut depth: i32 = -1;
        let mut t: usize = 0;
        while t < self.objects.len()
            invariant
                t <= self.objects@.len(),
                forall|o: int| 0 <= o < self.objects@.len()
                    && (#[trigger] self.objects@[o]).object_type.spec_is_memory()
                    ==> self.objects@[o].parent is Some && (self.objects@[
                o].parent.unwrap() as int) < self.objects@.len(),
                !found ==> forall|o: int| 0 <= o < t
                    ==> !((#[trigger] self.objects@[o]).object_type.spec_is_memory()
                        && self.objects@[o].parent is Some && self.objects@[self.objects@[
                    o].parent.unwrap() as int].depth >= 0),
                found ==> exists|o: int| 0 <= o < t
                    && (#[trigger] self.objects@[o]).object_type.spec_is_memory()
                    && self.objects@[o].parent is Some && self.objects@[self.objects@[
                o].parent.unwrap() as int].depth == depth,
                found ==> forall|o: int| 0 <= o < t
                    && (#[trigger] self.objects@[o]).object_type.spec_is_memory()
                    && self.objects@[o].parent is Some && self.objects@[self.objects@[
                o].parent.unwrap() as int].depth >= 0 ==> self.objects@[self.objects@[
                o].parent.unwrap() as int].depth == depth,
                found ==> depth >= 0,
            decreases self.objects@.len() - t,
        {
            if self.objects[t].object_type.is_memory() {
                match self.objects[t].parent {
                    Some(p) => {
                        let pd = self.objects[p].depth;
                        if pd >= 0 {
                            if !found {
                                found = true;
                                depth = pd;
                            } else if pd != depth {
                                proof {
                                    let w = choose|o: int|
                                        0 <= o < t && (#[trigger] self.objects@[o])
                                            .object_type.spec_is_memory() && self.objects@[
                                        o].parent is Some && self.objects@[self.objects@[
                                        o].parent.unwrap() as int].depth == depth;
                                    assert(self.objects@[w].object_type.spec_is_memory()
                                        && self.objects@[w].parent is Some
                                        && self.objects@[self.objects@[
                                    w].parent.unwrap() as int].depth >= 0);
                                    assert(self.objects@[t as int].object_type
                                        .spec_is_memory() && self.objects@[
                                    t as int].parent is Some && self.objects@[
                                    self.objects@[t as int].parent.unwrap() as int].depth
                                        >= 0);
                                }
                                return -2;
                            }
                        }
                    },
                    None => {
                        proof {
                            assert(false);
                        }
                    },
                }
            }
            t = t + 1;
        }
        if found {
            depth
        } else {
            -1
        }
    }
}

/// Whether object `c` of the arena covers the set `q`: it has a CPU set and
/// every index of `q` is in it.
pub open spec fn covers_cpuset(objs: Seq<ObjectRecord>, c: int, q: Bitmap) -> bool {
    &&& objs[c].cpuset is Some
    &&& forall|i: int| q.spec_bit(i) ==> objs[c].cpuset.unwrap().spec_bit(i)
}

/// Whether object `c` of the arena intersects the set `q`: it has a CPU set
/// sharing at least one index with `q`.
pub open spec fn intersects_cpuset(objs: Seq<ObjectRecord>, c: int, q: Bitmap) -> bool {
    &&& objs[c].cpuset is Some
    &&& exists|i: int| 0 <= i && q.spec_bit(i) && objs[c].cpuset.unwrap().spec_bit(i)
}

/// Whether object `a` is `o` itself or one of the objects on its parent
/// chain.
pub open spec fn spec_is_ancestor(objs: Seq<ObjectRecord>, a: int, o: int) -> bool
    decreases o,
{
    if o < 0 {
        false
    } else if a == o {
        true
    } else {
        match objs[o].parent {
            Option::Some(p) => if p < o {
                spec_is_ancestor(objs, a, p as int)
            } else {
                false
            },
            Option::None => false,
        }
    }
}

/// An ancestor never comes later in the arena than its descendant.
proof fn lemma_ancestor_le(objs: Seq<ObjectRecord>, a: int, o: int)
    requires
        spec_is_ancestor(objs, a, o),
    ensures
        a <= o,
    decreases o,
{
    if a != o {
        match objs[o].parent {
            Option::Some(p) => {
                lemma_ancestor_le(objs, a, p as int);
            },
            Option::None => {},
        }
    }
}

/// Along the chain of `o`, an object strictly below the parent `p` of the
/// chain element `cur` lies at or below `cur`.
proof fn lemma_chain_below(objs: Seq<ObjectRecord>, o: int, cur: int, p: int, c: int)
    requires
        spec_is_ancestor(objs, cur, o),
        0 <= cur <= usize::MAX,
        objs[cur].parent == Some(p as usize),
        0 <= p < cur,
        spec_is_ancestor(objs, c, o),
        spec_is_ancestor(objs, p, c),
        c != p,
    ensures
        spec_is_ancestor(objs, cur, c),
    decreases o,
{
    if o == cur {
        if c != cur {
            // The chain of `cur` continues at `p`, so `c` sits above `p` as
            // well as below it: it would have to be `p` itself.
            assert(spec_is_ancestor(objs, c, cur));
            assert(objs[cur].parent == Some(p as usize));
            assert((p as usize) as int == p);
            assert(spec_is_ancestor(objs, c, (p as usize) as int));
            lemma_ancestor_le(objs, c, p);
            lemma_ancestor_le(objs, p, c);
        }
    } else {
        if c == o {
            assert(spec_is_ancestor(objs, cur, c));
        } else {
            match objs[o].parent {
                Option::Some(q) => {
                    lemma_chain_below(objs, q as int, cur, p, c);
                },
                Option::None => {},
            }
        }
    }
}

/// The count of records at one depth grows with the prefix counted.
proof fn lemma_count_mono(objs: Seq<ObjectRecord>, d: int, a: int, b: int)
    requires
        0 <= a <= b,
    ensures
        count_at_depth(objs, d, a) <= count_at_depth(objs, d, b),
    decreases b,
{
    if a < b {
        lemma_count_mono(objs, d, a, b - 1);
    }
}

/// Within one depth, logical indexes grow with the arena position.
proof fn lemma_logical_monotone(objs: Seq<ObjectRecord>, o1: int, o2: int)
    requires
        objects_wf(objs),
        0 <= o1 < o2 < objs.len(),
        objs[o1].depth == objs[o2].depth,
    ensures
        objs[o1].logical_index < objs[o2].logical_index,
{
    assert(object_wf(objs, o1));
    assert(object_wf(objs, o2));
    assert(count_at_depth(objs, objs[o1].depth as int, o1 + 1) == count_at_depth(
        objs,
        objs[o1].depth as int,
        o1,
    ) + 1);
    lemma_count_mono(objs, objs[o1].depth as int, o1 + 1, o2);
}

/// At one depth, no two records share a logical index.
proof fn lemma_logical_unique(objs: Seq<ObjectRecord>, o1: int, o2: int)
    requires
        objects_wf(objs),
        0 <= o1 < objs.len(),
        0 <= o2 < objs.len(),
        objs[o1].depth == objs[o2].depth,
        objs[o1].logical_index == objs[o2].logical_index,
    ensures
        o1 == o2,
{
    if o1 < o2 {
        lemma_logical_monotone(objs, o1, o2);
    }
    if o2 < o1 {
        lemma_logical_monotone(objs, o2, o1);
    }
}

impl Topology {
    /// Get the child of `parent` covering at least the CPU set `cpuset`: the
    /// first normal child whose CPU set contains every index of `cpuset`.
    ///
    /// Returns `None` if no child matches or if the set is empty.
    ///
    /// # Note
    ///
    /// This function cannot work if `parent` does not have a CPU set (I/O or
    /// Misc objects).
    pub fn child_covering_cpuset<'topo>(
        &'topo self,
        cpuset: CpuSet,
        parent: Object<'topo>,
    ) -> (r: Option<Object<'topo>>)
        ensures
            match r {
                Some(c) => {
                    &&& c.spec_topo() == parent.spec_topo()
                    &&& exists|k: int|
                        0 <= k < parent.spec_record().children@.len() && c.spec_index()
                            == #[trigger] parent.spec_record().children@[k] && (forall|
                            k2: int,
                        |
                            0 <= k2 < k ==> !covers_cpuset(
                                parent.spec_topo().spec_objects(),
                                #[trigger] parent.spec_record().children@[k2] as int,
                                cpuset,
                            ))
                    &&& covers_cpuset(
                        parent.spec_topo().spec_objects(),
                        c.spec_index(),
                        cpuset,
                    )
                    &&& exists|i: int| 0 <= i && cpuset.spec_bit(i)
                },
                None => (forall|i: int| !cpuset.spec_bit(i)) || forall|k: int|
                    0 <= k < parent.spec_record().children@.len() ==> !covers_cpuset(
                        parent.spec_topo().spec_objects(),
                        #[trigger] parent.spec_record().children@[k] as int,
                        cpuset,
                    ),
            },
    {
        proof {
            use_type_invariant(&parent);
            use_type_invariant(&*parent.topo);
            assert(object_wf(parent.topo.objects@, parent.idx as int));
        }
        if cpuset.is_zero() {
            return None;
        }
        proof {
            cpuset.lemma_frontier();
            assert(exists|i: int| 0 <= i && cpuset.spec_bit(i));
        }
        let pt = parent.topo;
        let lst = &pt.objects[parent.idx].children;
        let mut k: usize = 0;
        while k < lst.len()
            invariant
                k <= lst@.len(),
                lst@ == pt.objects@[parent.idx as int].children@,
                parent.idx < pt.objects@.len(),
                pt == parent.topo,
                child_links_ok(pt.objects@, parent.idx as int, lst@, 0),
                exists|i: int| 0 <= i && cpuset.spec_bit(i),
                forall|t: int| 0 <= t < k ==> !covers_cpuset(
                    pt.objects@,
                    #[trigger] lst@[t] as int,
                    cpuset,
                ),
            decreases lst@.len() - k,
        {
            let c = lst[k];
            match &pt.objects[c].cpuset {
                Some(cs) => {
                    if cpuset.is_included(cs) {
                        proof {
                            assert(parent.spec_record().children@[k as int] == c);
                            assert(covers_cpuset(pt.objects@, c as int, cpuset));
                        }
                        return Some(Object { topo: pt, idx: c });
                    }
                },
                None => {},
            }
            k = k + 1;
        }
        None
    }

    /// Get the lowest object covering at least the CPU set `cpuset`, along
    /// the chain of covering children from the root.
    ///
    /// Returns `None` if no object matches or if the set is empty.
    pub fn object_covering_cpuset(&self, cpuset: CpuSet) -> (r: Option<Object<'_>>)
        ensures
            match r {
                Some(o) => {
                    &&& o.spec_topo() == *self
                    &&& (exists|i: int| 0 <= i && cpuset.spec_bit(i))
                    &&& covers_cpuset(self.spec_objects(), o.spec_index(), cpuset)
                    &&& forall|k: int|
                        0 <= k < self.spec_objects()[o.spec_index()].children@.len()
                            ==> !covers_cpuset(
                            self.spec_objects(),
                            #[trigger] self.spec_objects()[o.spec_index()].children@[
                                k] as int,
                            cpuset,
                        )
                },
                None => (forall|i: int| !cpuset.spec_bit(i)) || !covers_cpuset(
                    self.spec_objects(),
                    0,
                    cpuset,
                ),
            },
    {
        proof {
            use_type_invariant(&*self);
        }
        if cpuset.is_zero() {
            return None;
        }
        let rc = match &self.objects[0].cpuset {
            Some(b) => b,
            None => {
                return None;
            },
        };
        if !cpuset.is_included(rc) {
            return None;
        }
        proof {
            cpuset.lemma_frontier();
            assert(exists|i: int| 0 <= i && cpuset.spec_bit(i));
        }
        let mut cur: usize = 0;
        loop
            invariant
                cur < self.objects@.len(),
                objects_wf(self.objects@),
                covers_cpuset(self.objects@, cur as int, cpuset),
                exists|i: int| 0 <= i && cpuset.spec_bit(i),
                self.spec_objects()[0].cpuset is Some,
            decreases self.objects@.len() - cur,
        {
            let here = Object { topo: self, idx: cur };
            match self.child_covering_cpuset(cpuset.dup(), here) {
                Some(c) => {
                    proof {
                        assert(object_wf(self.objects@, cur as int));
                        let k = choose|k: int|
                            0 <= k < here.spec_record().children@.len() && c.spec_index()
                                == #[trigger] here.spec_record().children@[k];
                        assert(here.spec_record().children@[k] > cur as int);
                        assert forall|i: int| cpuset.spec_bit(i) implies self.objects@[
                            c.spec_index()].cpuset.unwrap().spec_bit(i) by {}
                    }
                    cur = c.idx;
                },
                None => {
                    proof {
                        assert forall|k: int|
                            0 <= k < self.spec_objects()[cur as int].children@.len()
                                implies !covers_cpuset(
                            self.spec_objects(),
                            #[trigger] self.spec_objects()[cur as int].children@[k] as int,
                            cpuset,
                        ) by {}
                    }
                    return Some(here);
                },
            }
        }
    }

    /// Iterate through same-depth objects intersecting the CPU set `cpuset`:
    /// the next object at depth `depth`, by logical index, whose CPU set
    /// shares an index with `cpuset`.
    ///
    /// If `prev` is `None`, returns the first such object at depth `depth`.
    ///
    /// # Note
    ///
    /// This function cannot work if objects at the given depth do not have
    /// CPU sets (I/O or Misc objects): such objects are skipped.
    pub fn next_object_covering_cpuset_by_depth<'topo>(
        &'topo self,
        cpuset: CpuSet,
        depth: i32,
        prev: Option<Object<'topo>>,
    ) -> (r: Option<Object<'topo>>)
        ensures
            match r {
                Some(o) => {
                    &&& o.spec_topo() == *self
                    &&& o.spec_record().depth == depth
                    &&& intersects_cpuset(self.spec_objects(), o.spec_index(), cpuset)
                    &&& match prev {
                        Some(p) => o.spec_record().logical_index > p.spec_record()
                            .logical_index,
                        None => true,
                    }
                    &&& forall|u: int| 0 <= u < self.spec_objects().len()
                        && (#[trigger] self.spec_objects()[u]).depth == depth
                        && (match prev {
                            Some(p) => self.spec_objects()[u].logical_index > p
                                .spec_record().logical_index,
                            None => true,
                        }) && self.spec_objects()[u].logical_index < o.spec_record()
                        .logical_index ==> !intersects_cpuset(self.spec_objects(), u, cpuset)
                },
                None => forall|u: int| 0 <= u < self.spec_objects().len()
                    && (#[trigger] self.spec_objects()[u]).depth == depth && (match prev {
                    Some(p) => self.spec_objects()[u].logical_index > p.spec_record()
                        .logical_index,
                    None => true,
                }) ==> !intersects_cpuset(self.spec_objects(), u, cpuset),
            },
    {
        proof {
            use_type_invariant(&*self);
        }
        let min_li: u64 = match prev {
            Some(p) => p.logical_index() as u64 + 1,
            None => 0,
        };
        let mut t: usize = 0;
        while t < self.objects.len()
            invariant
                t <= self.objects@.len(),
                objects_wf(self.objects@),
                min_li == match prev {
                    Some(p) => p.spec_record().logical_index + 1,
                    None => 0int,
                },
                forall|u: int| 0 <= u < t && (#[trigger] self.objects@[u]).depth == depth
                    && self.objects@[u].logical_index >= min_li ==> !intersects_cpuset(
                    self.objects@,
                    u,
                    cpuset,
                ),
            decreases self.objects@.len() - t,
        {
            if self.objects[t].depth == depth && self.objects[t].logical_index as u64
                >= min_li {
                match &self.objects[t].cpuset {
                    Some(cs) => {
                        let csd = cs.dup();
                        let ghost g = csd;
                        if cpuset.intersects(csd) {
                            proof {
                                let i = choose|i: int|
                                    0 <= i && cpuset.spec_bit(i) && g.spec_bit(i);
                                assert(self.objects@[t as int].cpuset.unwrap().spec_bit(i));
                                assert(intersects_cpuset(self.objects@, t as int, cpuset));
                                assert forall|u: int| 0 <= u < self.objects@.len()
                                    && (#[trigger] self.objects@[u]).depth == depth
                                    && self.objects@[u].logical_index >= min_li
                                    && self.objects@[u].logical_index < self.objects@[
                                t as int].logical_index implies !intersects_cpuset(
                                    self.objects@,
                                    u,
                                    cpuset,
                                ) by {
                                    if u >= t {
                                        if u > t {
                                            lemma_logical_monotone(
                                                self.objects@,
                                                t as int,
                                                u,
                                            );
                                        }
                                        assert(false);
                                    }
                                }
                            }
                            return Some(Object { topo: self, idx: t });
                        } else {
                            proof {
                                assert forall|i: int|
                                    !(0 <= i && cpuset.spec_bit(i) && self.objects@[
                                    t as int].cpuset.unwrap().spec_bit(i)) by {
                                    assert(!(0 <= i && cpuset.spec_bit(i) && g.spec_bit(
                                        i,
                                    )));
                                }
                                assert(!intersects_cpuset(self.objects@, t as int, cpuset));
                            }
                        }
                    },
                    None => {
                        proof {
                            assert(!intersects_cpuset(self.objects@, t as int, cpuset));
                        }
                    },
                }
            }
            t = t + 1;
        }
        None
    }

    /// Iterate through same-type objects intersecting the CPU set `cpuset`.
    ///
    /// If there are no or multiple levels of type `obj_type`, returns `None`;
    /// the caller may fall back to
    /// [`Topology::next_object_covering_cpuset_by_depth`] for each depth.
    pub fn next_object_covering_cpuset_by_type<'topo>(
        &'topo self,
        cpuset: CpuSet,
        obj_type: ObjectType,
        prev: Option<Object<'topo>>,
    ) -> (r: Option<Object<'topo>>)
        ensures
            match r {
                Some(o) => {
                    &&& o.spec_topo() == *self
                    &&& intersects_cpuset(self.spec_objects(), o.spec_index(), cpuset)
                    &&& (forall|u: int| 0 <= u < self.spec_objects().len()
                        && (#[trigger] self.spec_objects()[u]).object_type == obj_type
                        ==> self.spec_objects()[u].depth == o.spec_record().depth)
                    &&& match prev {
                        Some(p) => o.spec_record().logical_index > p.spec_record()
                            .logical_index,
                        None => true,
                    }
                },
                None => (exists|o1: int, o2: int|
                    0 <= o1 < self.spec_objects().len() && 0 <= o2
                        < self.spec_objects().len()
                        && (#[trigger] self.spec_objects()[o1]).object_type == obj_type
                        && (#[trigger] self.spec_objects()[o2]).object_type == obj_type
                        && self.spec_objects()[o1].depth != self.spec_objects()[o2].depth)
                    || forall|u: int| 0 <= u < self.spec_objects().len()
                    && (#[trigger] self.spec_objects()[u]).object_type == obj_type && (
                match prev {
                    Some(p) => self.spec_objects()[u].logical_index > p.spec_record()
                        .logical_index,
                    None => true,
                }) ==> !intersects_cpuset(self.spec_objects(), u, cpuset),
            },
    {
        proof {
            use_type_invariant(&*self);
        }
        let d = self.type_depth(obj_type);
        if d == -1 || d == -2 {
            return None;
        }
        proof {
            // Every object of the looked-up type lives at the one depth the
            // lookup uses.
            assert forall|u: int| 0 <= u < self.spec_objects().len()
                && (#[trigger] self.spec_objects()[u]).object_type == obj_type implies self
                .spec_objects()[u].depth == d by {
                assert(object_wf(self.spec_objects(), u));
            }
        }
        self.next_object_covering_cpuset_by_depth(cpuset, d, prev)
    }

    /// Convert a CPU set into a NUMA node set.
    ///
    /// For each NUMA node whose CPU set shares an index with the input
    /// `cpuset`, the node's physical index is set in the output node set.
    pub fn cpuset_to_nodeset(&self, cpuset: CpuSet) -> (r: Result<NodeSet, Error>)
        requires
            forall|o: int| 0 <= o < self.spec_objects().len()
                && (#[trigger] self.spec_objects()[o]).object_type == ObjectType::NumaNode
                ==> self.spec_objects()[o].os_index < 0x7FFF_FFC0,
        ensures
            match r {
                Ok(ns) => !ns.spec_infinite() && forall|i: int| #[trigger] ns.spec_bit(i)
                    == exists|o: int|
                    0 <= o < self.spec_objects().len()
                        && (#[trigger] self.spec_objects()[o]).object_type
                        == ObjectType::NumaNode && self.spec_objects()[o].os_index == i
                        && intersects_cpuset(self.spec_objects(), o, cpuset),
                Err(_) => false,
            },
    {
        proof {
            use_type_invariant(&*self);
        }
        let mut ns = match NodeSet::try_new_empty() {
            Ok(b) => b,
            Err(e) => {
                return Err(e);
            },
        };
        let mut t: usize = 0;
        while t < self.objects.len()
            invariant
                t <= self.objects@.len(),
                !ns.spec_infinite(),
                forall|o: int| 0 <= o < self.objects@.len()
                    && (#[trigger] self.objects@[o]).object_type == ObjectType::NumaNode
                    ==> self.objects@[o].os_index < 0x7FFF_FFC0,
                forall|i: int| #[trigger] ns.spec_bit(i) == exists|o: int|
                    0 <= o < t && (#[trigger] self.objects@[o]).object_type
                        == ObjectType::NumaNode && self.objects@[o].os_index == i
                        && intersects_cpuset(self.objects@, o, cpuset),
            decreases self.objects@.len() - t,
        {
            let ghost prev_ns = ns;
            let mut hit: bool = false;
            if matches!(self.objects[t].object_type, ObjectType::NumaNode) {
                match &self.objects[t].cpuset {
                    Some(cs) => {
                        if cpuset.intersects(cs.dup()) {
                            hit = true;
                        }
                    },
                    None => {},
                }
            }
            if hit {
                let os = self.objects[t].os_index;
                let set_r = ns.set(os);
                proof {
                    assert(set_r is Ok);
                }
            }
            proof {
                assert forall|i: int| #[trigger] ns.spec_bit(i) == exists|o: int|
                    0 <= o < t + 1 && (#[trigger] self.objects@[o]).object_type
                        == ObjectType::NumaNode && self.objects@[o].os_index == i
                        && intersects_cpuset(self.objects@, o, cpuset) by {
                    if ns.spec_bit(i) {
                        if prev_ns.spec_bit(i) {
                            let o = choose|o: int|
                                0 <= o < t && (#[trigger] self.objects@[o]).object_type
                                    == ObjectType::NumaNode && self.objects@[o].os_index
                                    == i && intersects_cpuset(self.objects@, o, cpuset);
                            assert(0 <= o < t + 1 && self.objects@[o].object_type
                                == ObjectType::NumaNode && self.objects@[o].os_index == i
                                && intersects_cpuset(self.objects@, o, cpuset));
                        } else {
                            assert(hit && i == self.objects@[t as int].os_index);
                            assert(self.objects@[t as int].object_type
                                == ObjectType::NumaNode && self.objects@[t as int].os_index
                                == i && intersects_cpuset(self.objects@, t as int, cpuset));
                        }
                    } else {
                        assert(!prev_ns.spec_bit(i));
                        if exists|o: int|
                            0 <= o < t + 1 && (#[trigger] self.objects@[o]).object_type
                                == ObjectType::NumaNode && self.objects@[o].os_index == i
                                && intersects_cpuset(self.objects@, o, cpuset) {
                            let o = choose|o: int|
                                0 <= o < t + 1 && (#[trigger] self.objects@[o]).object_type
                                    == ObjectType::NumaNode && self.objects@[o].os_index
                                    == i && intersects_cpuset(self.objects@, o, cpuset);
                            if o < t {
                                assert(prev_ns.spec_bit(i));
                            } else {
                                assert(hit);
                                assert(ns.spec_bit(i));
                            }
                        }
                    }
                }
            }
            t = t + 1;
        }
        Ok(ns)
    }

    /// Convert a NUMA node set into a CPU set.
    ///
    /// For each NUMA node whose physical index is in the input `nodeset`, the
    /// node's CPU set is merged into the output CPU set.
    pub fn cpuset_from_nodeset(&self, nodeset: NodeSet) -> (r: Result<CpuSet, Error>)
        ensures
            match r {
                Ok(cs) => forall|i: int| 0 <= i ==> #[trigger] cs.spec_bit(i) == exists|
                    o: int,
                |
                    0 <= o < self.spec_objects().len()
                        && (#[trigger] self.spec_objects()[o]).object_type
                        == ObjectType::NumaNode && nodeset.spec_bit(
                        self.spec_objects()[o].os_index as int,
                    ) && self.spec_objects()[o].cpuset is Some
                        && self.spec_objects()[o].cpuset.unwrap().spec_bit(i),
                Err(_) => false,
            },
    {
        proof {
            use_type_invariant(&*self);
        }
        let mut cs = match CpuSet::try_new_empty() {
            Ok(b) => b,
            Err(e) => {
                return Err(e);
            },
        };
        let mut t: usize = 0;
        while t < self.objects.len()
            invariant
                t <= self.objects@.len(),
                forall|i: int| 0 <= i ==> #[trigger] cs.spec_bit(i) == exists|o: int|
                    0 <= o < t && (#[trigger] self.objects@[o]).object_type
                        == ObjectType::NumaNode && nodeset.spec_bit(
                        self.objects@[o].os_index as int,
                    ) && self.objects@[o].cpuset is Some && self.objects@[o].cpuset
                        .unwrap().spec_bit(i),
            decreases self.objects@.len() - t,
        {
            let ghost prev_cs = cs;
            let mut merged: bool = false;
            if matches!(self.objects[t].object_type, ObjectType::NumaNode) && nodeset.is_set(
                self.objects[t].os_index,
            ) {
                match &self.objects[t].cpuset {
                    Some(b) => {
                        cs.bitor_assign(b);
                        merged = true;
                    },
                    None => {},
                }
            }
            proof {
                assert forall|i: int| 0 <= i implies #[trigger] cs.spec_bit(i) == exists|
                    o: int,
                |
                    0 <= o < t + 1 && (#[trigger] self.objects@[o]).object_type
                        == ObjectType::NumaNode && nodeset.spec_bit(
                        self.objects@[o].os_index as int,
                    ) && self.objects@[o].cpuset is Some && self.objects@[o].cpuset
                        .unwrap().spec_bit(i) by {
                    if cs.spec_bit(i) {
                        if prev_cs.spec_bit(i) {
                            let o = choose|o: int|
                                0 <= o < t && (#[trigger] self.objects@[o]).object_type
                                    == ObjectType::NumaNode && nodeset.spec_bit(
                                    self.objects@[o].os_index as int,
                                ) && self.objects@[o].cpuset is Some && self.objects@[
                                o].cpuset.unwrap().spec_bit(i);
                            assert(0 <= o < t + 1 && self.objects@[o].object_type
                                == ObjectType::NumaNode && nodeset.spec_bit(
                                self.objects@[o].os_index as int,
                            ) && self.objects@[o].cpuset is Some && self.objects@[o]
                                .cpuset.unwrap().spec_bit(i));
                        } else {
                            assert(merged);
                            assert(self.objects@[t as int].cpuset.unwrap().spec_bit(i));
                            assert(self.objects@[t as int].object_type
                                == ObjectType::NumaNode && nodeset.spec_bit(
                                self.objects@[t as int].os_index as int,
                            ) && self.objects@[t as int].cpuset is Some && self.objects@[
                            t as int].cpuset.unwrap().spec_bit(i));
                        }
                    } else {
                        if exists|o: int|
                            0 <= o < t + 1 && (#[trigger] self.objects@[o]).object_type
                                == ObjectType::NumaNode && nodeset.spec_bit(
                                self.objects@[o].os_index as int,
                            ) && self.objects@[o].cpuset is Some && self.objects@[o]
                                .cpuset.unwrap().spec_bit(i) {
                            let o = choose|o: int|
                                0 <= o < t + 1 && (#[trigger] self.objects@[o]).object_type
                                    == ObjectType::NumaNode && nodeset.spec_bit(
                                    self.objects@[o].os_index as int,
                                ) && self.objects@[o].cpuset is Some && self.objects@[
                                o].cpuset.unwrap().spec_bit(i);
                            if o < t {
                                assert(prev_cs.spec_bit(i));
                            } else {
                                assert(merged);
                                assert(cs.spec_bit(i));
                            }
                        }
                    }
                }
            }
            t = t + 1;
        }
        Ok(cs)
    }

    /// Get the first non-I/O ancestor object.
    ///
    /// Given the I/O object `ioobj`, find the closest object on its parent
    /// chain that has a CPU set. This object (normal or memory) may then be
    /// used for binding, because its locality is the same as `ioobj`'s.
    pub fn non_io_ancestor_object<'topo>(ioobj: Object<'topo>) -> (r: Option<Object<'topo>>)
        ensures
            match r {
                Some(a) => {
                    &&& a.spec_topo() == ioobj.spec_topo()
                    &&& spec_is_ancestor(
                        ioobj.spec_topo().spec_objects(),
                        a.spec_index(),
                        ioobj.spec_index(),
                    )
                    &&& ioobj.spec_topo().spec_objects()[a.spec_index()].cpuset is Some
                    &&& forall|c: int|
                        spec_is_ancestor(
                            ioobj.spec_topo().spec_objects(),
                            c,
                            ioobj.spec_index(),
                        ) && spec_is_ancestor(
                            ioobj.spec_topo().spec_objects(),
                            a.spec_index(),
                            c,
                        ) && c != a.spec_index()
                            ==> (#[trigger] ioobj.spec_topo().spec_objects()[c])
                            .cpuset is None
                },
                None => forall|c: int|
                    spec_is_ancestor(
                        ioobj.spec_topo().spec_objects(),
                        c,
                        ioobj.spec_index(),
                    ) ==> (#[trigger] ioobj.spec_topo().spec_objects()[c]).cpuset is None,
            },
    {
        proof {
            use_type_invariant(&ioobj);
            use_type_invariant(&*ioobj.topo);
        }
        let pt = ioobj.topo;
        let ghost objs = pt.objects@;
        let ghost o0 = ioobj.idx as int;
        let mut cur: usize = ioobj.idx;
        proof {
            assert(spec_is_ancestor(objs, o0, o0));
            assert forall|c: int| spec_is_ancestor(objs, c, o0) && spec_is_ancestor(
                objs,
                o0,
                c,
            ) && c != o0 implies (#[trigger] objs[c]).cpuset is None by {
                lemma_ancestor_le(objs, c, o0);
                lemma_ancestor_le(objs, o0, c);
            }
        }
        loop
            invariant
                cur < objs.len(),
                objs == pt.objects@,
                pt == ioobj.topo,
                o0 == ioobj.spec_index(),
                objects_wf(objs),
                0 <= o0 < objs.len(),
                spec_is_ancestor(objs, cur as int, o0),
                forall|c: int| spec_is_ancestor(objs, c, o0) && spec_is_ancestor(
                    objs,
                    cur as int,
                    c,
                ) && c != cur as int ==> (#[trigger] objs[c]).cpuset is None,
            decreases cur,
        {
            if matches!(&pt.objects[cur].cpuset, Some(_)) {
                return Some(Object { topo: pt, idx: cur });
            }
            proof {
                assert(object_wf(objs, cur as int));
            }
            match pt.objects[cur].parent {
                Some(p) => {
                    proof {
                        assert(p < cur);
                        assert(spec_is_ancestor(objs, p as int, p as int));
                        assert(spec_is_ancestor(objs, p as int, cur as int));
                        assert forall|c: int| spec_is_ancestor(objs, c, o0)
                            && spec_is_ancestor(objs, p as int, c) && c != p as int implies (
                        #[trigger] objs[c]).cpuset is None by {
                            lemma_chain_below(objs, o0, cur as int, p as int, c);
                            if c != cur as int {
                                assert(objs[c].cpuset is None);
                            }
                        }
                        assert(spec_is_ancestor(objs, p as int, o0)) by {
                            lemma_ancestor_extend(objs, p as int, cur as int, o0);
                        }
                    }
                    cur = p;
                },
                None => {
                    proof {
                        assert forall|c: int| spec_is_ancestor(objs, c, o0) implies (
                        #[trigger] objs[c]).cpuset is None by {
                            lemma_chain_top(objs, o0, cur as int, c);
                        }
                    }
                    return None;
                },
            }
        }
    }

    /// Returns the depth of objects of type `obj_type` or below.
    ///
    /// If no object of this type is present, the function walks the levels
    /// upward from the deepest one and returns the depth just below the first
    /// level whose type is usually a container of `obj_type`
    /// ([`ObjectType::compare`]).
    ///
    /// This function is only meaningful for Normal object types: for a
    /// memory, I/O or Misc object type, the corresponding virtual depth is
    /// returned (see [`Topology::type_depth`]).
    pub fn type_or_below_depth(&self, obj_type: ObjectType) -> (r: i32)
        ensures
            !obj_type.spec_is_normal() ==> match TypeDepth::spec_of_type(obj_type) {
                Some(d) => r == d.spec_code(),
                None => false,
            },
            obj_type.spec_is_normal() && (exists|o1: int, o2: int|
                0 <= o1 < self.spec_objects().len() && 0 <= o2 < self.spec_objects().len()
                    && (#[trigger] self.spec_objects()[o1]).object_type == obj_type
                    && (#[trigger] self.spec_objects()[o2]).object_type == obj_type
                    && self.spec_objects()[o1].depth != self.spec_objects()[o2].depth)
                ==> r == -2,
            obj_type.spec_is_normal() && (exists|o: int| 0 <= o < self.spec_objects().len()
                && (#[trigger] self.spec_objects()[o]).object_type == obj_type) && (forall|
                o1: int,
                o2: int,
            |
                0 <= o1 < self.spec_objects().len() && 0 <= o2 < self.spec_objects().len()
                    && (#[trigger] self.spec_objects()[o1]).object_type == obj_type
                    && (#[trigger] self.spec_objects()[o2]).object_type == obj_type
                    ==> self.spec_objects()[o1].depth == self.spec_objects()[o2].depth)
                ==> r >= 0 && exists|o: int| 0 <= o < self.spec_objects().len()
                && (#[trigger] self.spec_objects()[o]).object_type == obj_type
                && self.spec_objects()[o].depth == r,
            obj_type.spec_is_normal() && (forall|o: int| 0 <= o < self.spec_objects().len()
                ==> (#[trigger] self.spec_objects()[o]).object_type != obj_type) ==> r >= 1
                && (r > 1 ==> exists|o: int| 0 <= o < self.spec_objects().len()
                && (#[trigger] self.spec_objects()[o]).depth == r - 1
                && self.spec_objects()[o].object_type.spec_compare(obj_type) == Some(
                core::cmp::Ordering::Less,
            )) && (forall|o: int| 0 <= o < self.spec_objects().len()
                && (#[trigger] self.spec_objects()[o]).depth > r - 1
                ==> self.spec_objects()[o].object_type.spec_compare(obj_type) != Some(
                core::cmp::Ordering::Less,
            )),
    {
        proof {
            use_type_invariant(&*self);
        }
        let d = self.type_depth(obj_type);
        if d != -1 {
            return d;
        }
        proof {
            assert(obj_type.spec_is_normal());
            assert(forall|o: int| 0 <= o < self.spec_objects().len()
                ==> (#[trigger] self.spec_objects()[o]).object_type != obj_type);
        }
        // Walk the existing levels from the deepest one upward, and stop at
        // the first whose type usually contains `obj_type`.
        let mut dd = self.depth() - 1;
        proof {
            // No record sits past the deepest Normal level: Normal depths lie
            // below it, and the virtual depths are negative.
            assert forall|o: int| 0 <= o < self.spec_objects().len()
                && (#[trigger] self.spec_objects()[o]).depth > dd implies self
                .spec_objects()[o].object_type.spec_compare(obj_type) != Some(
                core::cmp::Ordering::Less,
            ) by {
                assert(object_wf(self.objects@, o));
                if !self.spec_objects()[o].object_type.spec_is_normal() {
                    assert(self.spec_objects()[o].depth < 0);
                }
                assert(false);
            }
        }
        while dd > 0
            invariant
                0 <= dd <= 0x7FFF_FFFE,
                obj_type.spec_is_normal(),
                objects_wf(self.objects@),
                forall|o: int| 0 <= o < self.spec_objects().len()
                    ==> (#[trigger] self.spec_objects()[o]).object_type != obj_type,
                forall|o: int| 0 <= o < self.spec_objects().len()
                    && (#[trigger] self.spec_objects()[o]).depth > dd ==> self
                    .spec_objects()[o].object_type.spec_compare(obj_type) != Some(
                    core::cmp::Ordering::Less,
                ),
            decreases dd,
        {
            match self.depth_type(dd) {
                Ok(t) => {
                    match t.compare(obj_type) {
                        Some(core::cmp::Ordering::Less) => {
                            proof {
                                let w = choose|o: int|
                                    0 <= o < self.spec_objects().len()
                                        && (#[trigger] self.spec_objects()[o]).depth == dd
                                        && self.spec_objects()[o].object_type == t;
                                assert(self.spec_objects()[w].depth == (dd + 1) - 1
                                    && self.spec_objects()[w].object_type.spec_compare(
                                    obj_type,
                                ) == Some(core::cmp::Ordering::Less));
                            }
                            return dd + 1;
                        },
                        _ => {},
                    }
                },
                Err(_) => {},
            }
            dd = dd - 1;
        }
        1
    }

    /// Returns the depth of objects of type `obj_type` or above.
    ///
    /// If no object of this type is present, the function walks the levels
    /// downward from the root and returns the depth just above the first
    /// level whose type is usually contained in `obj_type`
    /// ([`ObjectType::compare`]).
    ///
    /// This function is only meaningful for Normal object types: for a
    /// memory, I/O or Misc object type, the corresponding virtual depth is
    /// returned (see [`Topology::type_depth`]).
    pub fn type_or_above_depth(&self, obj_type: ObjectType) -> (r: i32)
        ensures
            !obj_type.spec_is_normal() ==> match TypeDepth::spec_of_type(obj_type) {
                Some(d) => r == d.spec_code(),
                None => false,
            },
            obj_type.spec_is_normal() && (exists|o1: int, o2: int|
                0 <= o1 < self.spec_objects().len() && 0 <= o2 < self.spec_objects().len()
                    && (#[trigger] self.spec_objects()[o1]).object_type == obj_type
                    && (#[trigger] self.spec_objects()[o2]).object_type == obj_type
                    && self.spec_objects()[o1].depth != self.spec_objects()[o2].depth)
                ==> r == -2,
            obj_type.spec_is_normal() && (exists|o: int| 0 <= o < self.spec_objects().len()
                && (#[trigger] self.spec_objects()[o]).object_type == obj_type) && (forall|
                o1: int,
                o2: int,
            |
                0 <= o1 < self.spec_objects().len() && 0 <= o2 < self.spec_objects().len()
                    && (#[trigger] self.spec_objects()[o1]).object_type == obj_type
                    && (#[trigger] self.spec_objects()[o2]).object_type == obj_type
                    ==> self.spec_objects()[o1].depth == self.spec_objects()[o2].depth)
                ==> r >= 0 && exists|o: int| 0 <= o < self.spec_objects().len()
                && (#[trigger] self.spec_objects()[o]).object_type == obj_type
                && self.spec_objects()[o].depth == r,
            obj_type.spec_is_normal() && (forall|o: int| 0 <= o < self.spec_objects().len()
                ==> (#[trigger] self.spec_objects()[o]).object_type != obj_type)
                ==> ((exists|o: int| 0 <= o < self.spec_objects().len()
                && (#[trigger] self.spec_objects()[o]).depth == r + 1
                && self.spec_objects()[o].object_type.spec_compare(obj_type) == Some(
                core::cmp::Ordering::Greater,
            )) || (forall|o: int| 0 <= o < self.spec_objects().len()
                && (#[trigger] self.spec_objects()[o]).object_type.spec_is_normal()
                ==> self.spec_objects()[o].depth <= r)) && (forall|o: int|
                0 <= o < self.spec_objects().len() && 0 <= (
                #[trigger] self.spec_objects()[o]).depth < r + 1 ==> self.spec_objects()[
            o].object_type.spec_compare(obj_type) != Some(core::cmp::Ordering::Greater)),
    {
        proof {
            use_type_invariant(&*self);
        }
        let d = self.type_depth(obj_type);
        if d != -1 {
            return d;
        }
        proof {
            assert(obj_type.spec_is_normal());
            assert(forall|o: int| 0 <= o < self.spec_objects().len()
                ==> (#[trigger] self.spec_objects()[o]).object_type != obj_type);
        }
        let top = self.depth();
        let mut dd: i32 = 0;
        while dd < top
            invariant
                0 <= dd,
                top <= 0x7FFF_FFFF,
                obj_type.spec_is_normal(),
                objects_wf(self.objects@),
                forall|o: int| 0 <= o < self.spec_objects().len()
                    ==> (#[trigger] self.spec_objects()[o]).object_type != obj_type,
                forall|o: int| 0 <= o < self.spec_objects().len()
                    && (#[trigger] self.spec_objects()[o]).object_type.spec_is_normal()
                    ==> self.spec_objects()[o].depth < top,
                forall|o: int| 0 <= o < self.spec_objects().len() && 0 <= (
                #[trigger] self.spec_objects()[o]).depth < dd ==> self.spec_objects()[
                o].object_type.spec_compare(obj_type) != Some(
                    core::cmp::Ordering::Greater,
                ),
            decreases top - dd,
        {
            match self.depth_type(dd) {
                Ok(t) => {
                    match t.compare(obj_type) {
                        Some(core::cmp::Ordering::Greater) => {
                            proof {
                                let w = choose|o: int|
                                    0 <= o < self.spec_objects().len()
                                        && (#[trigger] self.spec_objects()[o]).depth == dd
                                        && self.spec_objects()[o].object_type == t;
                                assert(self.spec_objects()[w].depth == (dd - 1) + 1
                                    && self.spec_objects()[w].object_type.spec_compare(
                                    obj_type,
                                ) == Some(core::cmp::Ordering::Greater));
                            }
                            return dd - 1;
                        },
                        _ => {},
                    }
                },
                Err(_) => {},
            }
            dd = dd + 1;
        }
        top - 1
    }
}

/// An ancestor of a chain element is an ancestor of the whole chain.
proof fn lemma_ancestor_extend(objs: Seq<ObjectRecord>, a: int, mid: int, o: int)
    requires
        spec_is_ancestor(objs, mid, o),
        spec_is_ancestor(objs, a, mid),
    ensures
        spec_is_ancestor(objs, a, o),
    decreases o,
{
    if mid != o {
        match objs[o].parent {
            Option::Some(p) => {
                if (p as int) < o {
                    lemma_ancestor_extend(objs, a, mid, p as int);
                }
            },
            Option::None => {},
        }
    }
}

/// Every ancestor of `o` sits at or below the top of its chain.
proof fn lemma_chain_top(objs: Seq<ObjectRecord>, o: int, top: int, c: int)
    requires
        spec_is_ancestor(objs, top, o),
        0 <= top,
        objs[top].parent is None,
        spec_is_ancestor(objs, c, o),
    ensures
        spec_is_ancestor(objs, top, c),
    decreases o,
{
    if o == top {
        if c != top {
            assert(false);
        }
    } else {
        if c == o {
            assert(spec_is_ancestor(objs, top, c));
        } else {
            match objs[o].parent {
                Option::Some(q) => {
                    lemma_chain_top(objs, q as int, top, c);
                },
                Option::None => {},
            }
        }
    }
}

/// A builder for a [`Topology`]: flags and filters are set on it, and
/// [`TopologyBuilder::build`] then checks a description of the objects and
/// turns it into the topology.
pub struct TopologyBuilder {
    flags: Flags,
    filters: Vec<Filter>,
}

impl TopologyBuilder {
    #[verifier::type_invariant]
    spec fn inv(self) -> bool {
        self.filters@.len() == 20
    }

    /// The flags set so far.
    pub closed spec fn spec_flags(self) -> Flags {
        self.flags
    }

    /// The filter recorded so far for object type `t`.
    pub closed spec fn spec_filter(self, t: ObjectType) -> Filter {
        self.filters@[t.spec_code() as int]
    }

    /// Set OR'ed flags to the not-yet-built topology.
    ///
    /// If this function is called multiple times, the last invocation erases
    /// and replaces the set of flags that was previously set. By default, no
    /// flags are set.
    ///
    /// Never fails; the `Result` keeps the shape of a fallible call.
    pub fn flags(self, flags: Flags) -> (r: Result<Self, Error>)
        ensures
            match r {
                Ok(b) => b.spec_flags() == flags && forall|t: ObjectType|
                    #[trigger] b.spec_filter(t) == self.spec_filter(t),
                Err(_) => false,
            },
    {
        proof {
            use_type_invariant(&self);
        }
        Ok(TopologyBuilder { flags, filters: self.filters })
    }

    /// Set the filtering for the given object type.
    ///
    /// Succeeds exactly when the filter may be set for that type
    /// ([`filter_allowed`]); otherwise returns [`Error::TopologySetFilter`].
    pub fn type_filter(self, obj_type: ObjectType, filter: Filter) -> (r: Result<Self, Error>)
        ensures
            match r {
                Ok(b) => filter_allowed(obj_type, filter) && b.spec_flags()
                    == self.spec_flags() && b.spec_filter(obj_type) == filter && forall|
                    t: ObjectType,
                |
                    t != obj_type ==> #[trigger] b.spec_filter(t) == self.spec_filter(t),
                Err(e) => e == Error::TopologySetFilter(obj_type, filter) && !filter_allowed(
                    obj_type,
                    filter,
                ),
            },
    {
        proof {
            use_type_invariant(&self);
        }
        let allowed = match obj_type {
            ObjectType::PU | ObjectType::NumaNode | ObjectType::Machine => matches!(
                filter,
                Filter::KeepAll,
            ),
            ObjectType::Group => !matches!(filter, Filter::KeepAll),
            _ => {
                if obj_type.is_io() || matches!(obj_type, ObjectType::Misc) {
                    !matches!(filter, Filter::KeepStructure)
                } else {
                    true
                }
            },
        };
        if !allowed {
            return Err(Error::TopologySetFilter(obj_type, filter));
        }
        let ghost orig = self;
        let TopologyBuilder { flags, mut filters } = self;
        let code = obj_type.to_u32();
        filters[code as usize] = filter;
        let b = TopologyBuilder { flags, filters };
        proof {
            assert forall|t: ObjectType| t != obj_type implies #[trigger] b.spec_filter(t)
                == orig.spec_filter(t) by {
                assert(t.spec_code() != obj_type.spec_code());
            }
        }
        Ok(b)
    }

    /// Set the filtering for all object types.
    ///
    /// Types for which the filter may not be set ([`filter_allowed`]) are
    /// silently left unchanged.
    pub fn all_types_filter(self, filter: Filter) -> (r: Result<Self, Error>)
        ensures
            match r {
                Ok(b) => b.spec_flags() == self.spec_flags() && forall|t: ObjectType|
                    #[trigger] b.spec_filter(t) == if filter_allowed(t, filter) {
                        filter
                    } else {
                        self.spec_filter(t)
                    },
                Err(_) => false,
            },
    {
        self.filter_each(filter, 0)
    }

    /// Set the filtering for all CPU cache object types.
    ///
    /// Memory-side caches are not involved, since they are not CPU caches.
    pub fn cache_types_filter(self, filter: Filter) -> (r: Result<Self, Error>)
        ensures
            match r {
                Ok(b) => b.spec_flags() == self.spec_flags() && forall|t: ObjectType|
                    #[trigger] b.spec_filter(t) == if t.spec_is_cache() && filter_allowed(
                        t,
                        filter,
                    ) {
                        filter
                    } else {
                        self.spec_filter(t)
                    },
                Err(_) => false,
            },
    {
        self.filter_each(filter, 1)
    }

    /// Set the filtering for all CPU instruction cache object types.
    ///
    /// Memory-side caches are not involved, since they are not CPU caches.
    pub fn icache_types_filter(self, filter: Filter) -> (r: Result<Self, Error>)
        ensures
            match r {
                Ok(b) => b.spec_flags() == self.spec_flags() && forall|t: ObjectType|
                    #[trigger] b.spec_filter(t) == if t.spec_is_icache() && filter_allowed(
                        t,
                        filter,
                    ) {
                        filter
                    } else {
                        self.spec_filter(t)
                    },
                Err(_) => false,
            },
    {
        self.filter_each(filter, 2)
    }

    /// Set the filtering for all I/O object types.
    pub fn io_types_filter(self, filter: Filter) -> (r: Result<Self, Error>)
        ensures
            match r {
                Ok(b) => b.spec_flags() == self.spec_flags() && forall|t: ObjectType|
                    #[trigger] b.spec_filter(t) == if t.spec_is_io() && filter_allowed(
                        t,
                        filter,
                    ) {
                        filter
                    } else {
                        self.spec_filter(t)
                    },
                Err(_) => false,
            },
    {
        self.filter_each(filter, 3)
    }

    /// Whether a type belongs to the family numbered `fam`: every type, the
    /// CPU caches, the CPU instruction caches, or the I/O types.
    spec fn family_matches(t: ObjectType, fam: u8) -> bool {
        if fam == 0 {
            true
        } else if fam == 1 {
            t.spec_is_cache()
        } else if fam == 2 {
            t.spec_is_icache()
        } else {
            t.spec_is_io()
        }
    }

    /// Set `filter` for every type of the family numbered `fam` that allows
    /// it, leaving the other types unchanged.
    fn filter_each(self, filter: Filter, fam: u8) -> (r: Result<Self, Error>)
        ensures
            match r {
                Ok(b) => b.spec_flags() == self.spec_flags() && forall|t: ObjectType|
                    #[trigger] b.spec_filter(t) == if Self::family_matches(t, fam)
                        && filter_allowed(t, filter) {
                        filter
                    } else {
                        self.spec_filter(t)
                    },
                Err(_) => false,
            },
    {
        proof {
            use_type_invariant(&self);
        }
        let ghost orig = self;
        let mut b = self;
        let mut code: u32 = 0;
        while code < 20
            invariant
                code <= 20,
                b.filters@.len() == 20,
                b.flags == orig.flags,
                forall|t: ObjectType| t.spec_code() < code ==> #[trigger] b.spec_filter(t)
                    == if Self::family_matches(t, fam) && filter_allowed(t, filter) {
                        filter
                    } else {
                        orig.spec_filter(t)
                    },
                forall|t: ObjectType| t.spec_code() >= code ==> #[trigger] b.spec_filter(t)
                    == orig.spec_filter(t),
            decreases 20 - code,
        {
            let t = match code {
                0 => ObjectType::Machine,
                1 => ObjectType::Package,
                2 => ObjectType::Core,
                3 => ObjectType::PU,
                4 => ObjectType::L1Cache,
                5 => ObjectType::L2Cache,
                6 => ObjectType::L3Cache,
                7 => ObjectType::L4Cache,
                8 => ObjectType::L5Cache,
                9 => ObjectType::L1ICache,
                10 => ObjectType::L2ICache,
                11 => ObjectType::L3ICache,
                12 => ObjectType::Group,
                13 => ObjectType::NumaNode,
                14 => ObjectType::Bridge,
                15 => ObjectType::PciDevice,
                16 => ObjectType::OsDevice,
                17 => ObjectType::Misc,
                18 => ObjectType::MemCache,
                _ => ObjectType::Die,
            };
            proof {
                assert(t.spec_code() == code);
            }
            let in_family = if fam == 0 {
                true
            } else if fam == 1 {
                t.is_cache()
            } else if fam == 2 {
                t.is_icache()
            } else {
                t.is_io()
            };
            let allowed = match t {
                ObjectType::PU | ObjectType::NumaNode | ObjectType::Machine => matches!(
                    filter,
                    Filter::KeepAll,
                ),
                ObjectType::Group => !matches!(filter, Filter::KeepAll),
                _ => {
                    if t.is_io() || matches!(t, ObjectType::Misc) {
                        !matches!(filter, Filter::KeepStructure)
                    } else {
                        true
                    }
                },
            };
            let ghost prev_b = b;
            if in_family && allowed {
                let TopologyBuilder { flags, mut filters } = b;
                filters[code as usize] = filter;
                b = TopologyBuilder { flags, filters };
            }
            proof {
                assert forall|u: ObjectType| u.spec_code() < code + 1 implies
                    #[trigger] b.spec_filter(u) == if Self::family_matches(u, fam)
                    && filter_allowed(u, filter) {
                    filter
                } else {
                    orig.spec_filter(u)
                } by {
                    crate::types::lemma_object_type_code_injective(u, t);
                    if u.spec_code() < code {
                        assert(u.spec_code() != code);
                        assert(b.spec_filter(u) == prev_b.spec_filter(u));
                        assert(prev_b.spec_filter(u) == if Self::family_matches(u, fam)
                            && filter_allowed(u, filter) {
                            filter
                        } else {
                            orig.spec_filter(u)
                        });
                    } else {
                        assert(u.spec_code() == code);
                        assert(u == t);
                        if !(in_family && allowed) {
                            assert(b.spec_filter(u) == prev_b.spec_filter(u));
                            assert(prev_b.spec_filter(u) == orig.spec_filter(u));
                        }
                    }
                }
                assert forall|u: ObjectType| u.spec_code() >= code + 1 implies
                    #[trigger] b.spec_filter(u) == orig.spec_filter(u) by {
                    assert(u.spec_code() != code);
                    assert(b.spec_filter(u) == prev_b.spec_filter(u));
                    assert(prev_b.spec_filter(u) == orig.spec_filter(u));
                }
            }
            code = code + 1;
        }
        Ok(b)
    }

    /// Consume this [`TopologyBuilder`] to create the new [`Topology`] out of
    /// the given object records.
    ///
    /// Succeeds exactly when the records describe a topology
    /// ([`objects_wf`]) that respects the filters set on the builder: no
    /// record may be of a type whose filter is [`Filter::KeepNone`].
    /// Otherwise returns [`Error::TopologyLoad`]. The other filters
    /// ([`Filter::KeepStructure`], [`Filter::KeepImportant`]) describe
    /// discovery-time policies and are only recorded, not enforced on
    /// described records.
    ///
    /// The built topology carries the builder's flags and filters, the given
    /// objects, and a support table with every feature marked unsupported,
    /// since no binding is backed by the machine the records describe.
    pub fn build(self, objects: Vec<ObjectRecord>) -> (r: Result<Topology, Error>)
        ensures
            match r {
                Ok(t) => {
                    &&& objects_wf(objects@)
                    &&& (forall|o: int| 0 <= o < objects@.len() ==> self.spec_filter(
                        (#[trigger] objects@[o]).object_type,
                    ) != Filter::KeepNone)
                    &&& t.spec_objects() == objects@
                    &&& t.spec_flags() == self.spec_flags()
                    &&& (forall|u: ObjectType| #[trigger] t.spec_filter(u) == self.spec_filter(
                        u,
                    ))
                    &&& t.spec_support().spec_discovery() == support::Discovery::spec_none()
                    &&& t.spec_support().spec_cpubind() == support::Cpubind::spec_none()
                    &&& t.spec_support().spec_membind() == support::Membind::spec_none()
                    &&& t.spec_support().spec_misc() == support::Misc::spec_none()
                },
                Err(e) => e == Error::TopologyLoad && !(objects_wf(objects@) && forall|
                    o: int,
                |
                    0 <= o < objects@.len() ==> self.spec_filter(
                        (#[trigger] objects@[o]).object_type,
                    ) != Filter::KeepNone),
            },
    {
        proof {
            use_type_invariant(&self);
        }
        if !check_objects(&objects) {
            return Err(Error::TopologyLoad);
        }
        let mut o: usize = 0;
        while o < objects.len()
            invariant
                o <= objects@.len(),
                self.filters@.len() == 20,
                forall|u: int| 0 <= u < o ==> self.spec_filter(
                    (#[trigger] objects@[u]).object_type,
                ) != Filter::KeepNone,
            decreases objects@.len() - o,
        {
            let code = objects[o].object_type.to_u32();
            if matches!(self.filters[code as usize], Filter::KeepNone) {
                return Err(Error::TopologyLoad);
            }
            o = o + 1;
        }
        Ok(Topology { objects, flags: self.flags, filters: self.filters, support: Support::none() })
    }
}

} // verus!
