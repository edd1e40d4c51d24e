//! The stored description of the objects of a topology: one plain record per
//! node of the tree, linked by arena indexes, together with the
//! well-formedness conditions that make the records a tree, and their
//! executable check.
//!
//! The borrowed view over one object, [`Object`], lives with the topology
//! that owns the records; it is re-exported here.

pub mod attributes;

use vstd::prelude::*;
use crate::bitmap::Bitmap;
use crate::types::{ObjectType, TypeDepth};
use attributes::Attributes;

pub use crate::topology::Object;

verus! {

/// The description of one object of a topology: a node of the tree.
///
/// Objects refer to each other by their position in the topology's arena of
/// records: the parent comes before its children, and each kind of child
/// (normal, memory, I/O, misc) sits in its own list. What makes a sequence of
/// records a topology is [`objects_wf`].
#[derive(Debug, Clone)]
pub struct ObjectRecord {
    /// Type of object.
    pub object_type: ObjectType,
    /// Subtype string to better describe the type field.
    pub subtype: Option<String>,
    /// Object-specific name, if any.
    pub name: Option<String>,
    /// OS-provided physical index number, or [`Object::UNKNOWN_INDEX`].
    pub os_index: u32,
    /// Total memory (in bytes) in NUMA nodes below this object.
    pub total_memory: u64,
    /// Vertical index in the hierarchy; negative virtual depths for memory,
    /// I/O and Misc objects.
    pub depth: i32,
    /// Horizontal index in the whole list of similar objects.
    pub logical_index: u32,
    /// Global persistent index, unique across the topology.
    pub gp_index: u64,
    /// Whether the subtree of normal objects below this object is symmetric.
    pub symmetric_subtree: bool,
    /// The arena index of the parent, `None` only for the root.
    pub parent: Option<usize>,
    /// Index in the parent's list of children of this object's kind.
    pub sibling_rank: u32,
    /// Normal children, by arena index.
    pub children: Vec<usize>,
    /// Memory children (NUMA nodes, memory-side caches), by arena index.
    pub memory_children: Vec<usize>,
    /// I/O children (bridges, PCI and OS devices), by arena index.
    pub io_children: Vec<usize>,
    /// Misc children, by arena index.
    pub misc_children: Vec<usize>,
    /// CPUs covered by this object, `None` for I/O and Misc objects.
    pub cpuset: Option<Bitmap>,
    /// The complete CPU set of processors of this object.
    pub complete_cpuset: Option<Bitmap>,
    /// NUMA nodes covered by or containing this object, `None` for I/O and
    /// Misc objects.
    pub nodeset: Option<Bitmap>,
    /// The complete NUMA node set of this object.
    pub complete_nodeset: Option<Bitmap>,
    /// Object type-specific attributes, if any.
    pub attributes: Option<Attributes>,
    /// How many stringified info pairs the object carries.
    pub infos_count: u32,
}

/// The list of `rec` in which a child of type `t` sits: objects are attached
/// to their parent as normal, memory, I/O or misc children according to
/// their type.
pub open spec fn kind_list(rec: ObjectRecord, t: ObjectType) -> Seq<usize> {
    if t.spec_is_memory() {
        rec.memory_children@
    } else if t.spec_is_io() {
        rec.io_children@
    } else if t == ObjectType::Misc {
        rec.misc_children@
    } else {
        rec.children@
    }
}

/// Whether type `t` belongs to the children kind numbered `kind`: `0` for
/// normal children, `1` for memory children, `2` for I/O children, `3` for
/// misc children.
pub open spec fn kind_matches(t: ObjectType, kind: u8) -> bool {
    if kind == 0 {
        t.spec_is_normal()
    } else if kind == 1 {
        t.spec_is_memory()
    } else if kind == 2 {
        t.spec_is_io()
    } else {
        t == ObjectType::Misc
    }
}

/// Whether `lst` is a sound children list of object `o` for the children
/// kind numbered `kind`: every entry points past `o` into the arena, back at
/// `o` as its parent, carries its position as its sibling rank, and has a
/// type of that kind.
pub open spec fn child_links_ok(objs: Seq<ObjectRecord>, o: int, lst: Seq<usize>, kind: u8) -> bool {
    &&& lst.len() <= objs.len()
    &&& forall|k: int| #![trigger lst[k]] 0 <= k < lst.len() ==> {
        &&& o < lst[k] < objs.len()
        &&& objs[lst[k] as int].parent == Some(o as usize)
        &&& objs[lst[k] as int].sibling_rank == k
        &&& kind_matches(objs[lst[k] as int].object_type, kind)
    }
}

/// The number of records below position `upto` whose depth is `d`: what the
/// logical index of the next object at depth `d` will be.
pub open spec fn count_at_depth(objs: Seq<ObjectRecord>, d: int, upto: int) -> int
    decreases upto,
{
    if upto <= 0 {
        0
    } else {
        count_at_depth(objs, d, upto - 1) + if objs[upto - 1].depth == d {
            1int
        } else {
            0int
        }
    }
}

/// The count of records at one depth never exceeds the number of records
/// looked at.
pub proof fn lemma_count_le(objs: Seq<ObjectRecord>, d: int, upto: int)
    requires
        0 <= upto,
    ensures
        0 <= count_at_depth(objs, d, upto) <= upto,
    decreases upto,
{
    if upto > 0 {
        lemma_count_le(objs, d, upto - 1);
    }
}

/// Whether the attributes a record carries belong to its type: NUMA node
/// attributes on NUMA nodes, cache attributes on CPU and memory-side caches,
/// PCI attributes on PCI devices, bridge attributes on bridges; and the page
/// types of NUMA node attributes are sorted by nondecreasing size.
pub open spec fn attrs_wf(r: ObjectRecord) -> bool {
    match r.attributes {
        Option::None => true,
        Option::Some(Attributes::NumaNode(a)) => r.object_type == ObjectType::NumaNode
            && page_types_sorted(a.page_types@),
        Option::Some(Attributes::Cache(_)) => r.object_type.spec_is_cache()
            || r.object_type == ObjectType::MemCache,
        Option::Some(Attributes::PciDev(_)) => r.object_type == ObjectType::PciDevice,
        Option::Some(Attributes::Bridge(_)) => r.object_type == ObjectType::Bridge,
    }
}

/// Whether a list of page types is sorted by nondecreasing size.
pub open spec fn page_types_sorted(pts: Seq<attributes::PageType>) -> bool {
    forall|k: int| 0 <= k < pts.len() - 1 ==> (#[trigger] pts[k]).size <= pts[k + 1].size
}

/// Whether every index of the first set (if both are present) is in the
/// second.
pub open spec fn opt_bitmap_included(a: Option<Bitmap>, b: Option<Bitmap>) -> bool {
    match (a, b) {
        (Some(x), Some(y)) => forall|i: int| x.spec_bit(i) ==> y.spec_bit(i),
        _ => true,
    }
}

/// Whether the set holds exactly the one index `id`.
pub open spec fn singleton_set(b: Option<Bitmap>, id: u32) -> bool {
    match b {
        Some(x) => forall|i: int| x.spec_bit(i) <==> i == id,
        None => false,
    }
}

/// Whether the record at position `o` carries the CPU and node sets its kind
/// calls for: I/O and Misc objects have none, every other object has both;
/// a set is within the parent's set of the same kind and within the record's
/// own complete set, where those are present; a PU's CPU set and a NUMA
/// node's node set hold exactly the object's own physical index.
pub open spec fn sets_wf(objs: Seq<ObjectRecord>, o: int) -> bool {
    let r = objs[o];
    &&& (if r.object_type.spec_is_io() || r.object_type == ObjectType::Misc {
        r.cpuset is None && r.nodeset is None
    } else {
        r.cpuset is Some && r.nodeset is Some
    })
    &&& (match r.parent {
        Option::Some(p) => p < objs.len() ==> opt_bitmap_included(
            r.cpuset,
            objs[p as int].cpuset,
        ) && opt_bitmap_included(r.nodeset, objs[p as int].nodeset),
        Option::None => true,
    })
    &&& opt_bitmap_included(r.cpuset, r.complete_cpuset)
    &&& opt_bitmap_included(r.nodeset, r.complete_nodeset)
    &&& (r.object_type == ObjectType::PU ==> singleton_set(r.cpuset, r.os_index))
    &&& (r.object_type == ObjectType::NumaNode ==> singleton_set(r.nodeset, r.os_index))
}

/// Whether the set of the child record `c` holds index `i`: false where the
/// child carries no set.
pub open spec fn child_set_bit(objs: Seq<ObjectRecord>, c: usize, i: int) -> bool {
    match objs[c as int].cpuset {
        Option::Some(cb) => cb.spec_bit(i),
        Option::None => false,
    }
}

/// Whether the CPU set of the record at position `o` is exactly the union of
/// its normal children's CPU sets. This holds of every Normal object but the
/// PUs, whose sets are the leaves: level by level, a CPU set thus holds
/// exactly the indexes of the PU objects below.
pub open spec fn children_union_ok(objs: Seq<ObjectRecord>, o: int) -> bool {
    let r = objs[o];
    r.object_type.spec_is_normal() && r.object_type != ObjectType::PU ==> match r.cpuset {
        Option::Some(b) => forall|i: int| #[trigger] b.spec_bit(i) <==> exists|k: int|
            0 <= k < r.children@.len() && #[trigger] child_set_bit(objs, r.children@[k], i),
        Option::None => false,
    }
}

/// How two records relate across the arena: all objects of one depth have
/// one type; a Normal type other than Group occupies a single depth; and no
/// Normal object sits deeper than a PU.
pub open spec fn level_consistent(objs: Seq<ObjectRecord>, t: int, o: int) -> bool {
    &&& (objs[t].depth == objs[o].depth ==> objs[t].object_type == objs[o].object_type)
    &&& (objs[t].object_type == objs[o].object_type && objs[o].object_type.spec_is_normal()
        && objs[o].object_type != ObjectType::Group ==> objs[t].depth == objs[o].depth)
    &&& (objs[t].object_type == ObjectType::PU && objs[o].object_type.spec_is_normal()
        ==> objs[o].depth <= objs[t].depth)
    &&& (objs[o].object_type == ObjectType::PU && objs[t].object_type.spec_is_normal()
        ==> objs[t].depth <= objs[o].depth)
}

/// Whether the record at position `o` is sound within the arena:
/// - the root, and only the root, has no parent; the parent of any other
///   object comes before it, and lists it among its children of the right
///   kind, at its sibling rank;
/// - only the root is a Machine;
/// - a Normal object sits one level below its Normal parent, the root at
///   depth `0`; any other object is at the virtual depth of its type;
/// - its logical index counts the earlier objects of its depth;
/// - its four children lists are sound ([`child_links_ok`]);
/// - its attributes belong to its type ([`attrs_wf`]), its CPU and node sets
///   are those its kind calls for ([`sets_wf`]), a non-PU Normal object's
///   CPU set is the union of its normal children's ([`children_union_ok`]),
///   and its level agrees with the records before it ([`level_consistent`]).
pub open spec fn object_wf(objs: Seq<ObjectRecord>, o: int) -> bool {
    let r = objs[o];
    &&& match r.parent {
        Option::None => o == 0,
        Option::Some(p) => {
            let lst = kind_list(objs[p as int], r.object_type);
            &&& 0 < o
            &&& (p as int) < o
            &&& (r.sibling_rank as int) < lst.len()
            &&& lst[r.sibling_rank as int] == o as usize
        },
    }
    &&& (o > 0 ==> r.object_type != ObjectType::Machine)
    &&& (if r.object_type.spec_is_normal() {
        match r.parent {
            Option::None => r.depth == 0,
            Option::Some(p) => objs[p as int].depth >= 0 && r.depth == objs[p as int].depth
                + 1,
        }
    } else {
        match TypeDepth::spec_of_type(r.object_type) {
            Option::Some(d) => r.depth == d.spec_code(),
            Option::None => false,
        }
    })
    &&& r.logical_index == count_at_depth(objs, r.depth as int, o)
    &&& child_links_ok(objs, o, r.children@, 0)
    &&& child_links_ok(objs, o, r.memory_children@, 1)
    &&& child_links_ok(objs, o, r.io_children@, 2)
    &&& child_links_ok(objs, o, r.misc_children@, 3)
    &&& attrs_wf(r)
    &&& sets_wf(objs, o)
    &&& children_union_ok(objs, o)
    &&& (forall|t: int| 0 <= t < o ==> #[trigger] level_consistent(objs, t, o))
}

/// Two records of one depth have one type.
pub proof fn lemma_same_depth_same_type(objs: Seq<ObjectRecord>, o1: int, o2: int)
    requires
        objects_wf(objs),
        0 <= o1 < objs.len(),
        0 <= o2 < objs.len(),
        objs[o1].depth == objs[o2].depth,
    ensures
        objs[o1].object_type == objs[o2].object_type,
{
    if o1 < o2 {
        assert(object_wf(objs, o2));
        assert(level_consistent(objs, o1, o2));
    } else if o2 < o1 {
        assert(object_wf(objs, o1));
        assert(level_consistent(objs, o2, o1));
    }
}

/// Two records of one Normal type other than Group sit at one depth.
pub proof fn lemma_single_level(objs: Seq<ObjectRecord>, o1: int, o2: int)
    requires
        objects_wf(objs),
        0 <= o1 < objs.len(),
        0 <= o2 < objs.len(),
        objs[o1].object_type == objs[o2].object_type,
        objs[o1].object_type.spec_is_normal(),
        objs[o1].object_type != ObjectType::Group,
    ensures
        objs[o1].depth == objs[o2].depth,
{
    if o1 < o2 {
        assert(object_wf(objs, o2));
        assert(level_consistent(objs, o1, o2));
    } else if o2 < o1 {
        assert(object_wf(objs, o1));
        assert(level_consistent(objs, o2, o1));
    }
}

/// No Normal record sits deeper than a PU.
pub proof fn lemma_pu_deepest(objs: Seq<ObjectRecord>, p: int, o: int)
    requires
        objects_wf(objs),
        0 <= p < objs.len(),
        0 <= o < objs.len(),
        objs[p].object_type == ObjectType::PU,
        objs[o].object_type.spec_is_normal(),
    ensures
        objs[o].depth <= objs[p].depth,
{
    if p < o {
        assert(object_wf(objs, o));
        assert(level_consistent(objs, p, o));
    } else if o < p {
        assert(object_wf(objs, p));
        assert(level_consistent(objs, o, p));
    }
}

/// Whether a sequence of records describes a topology: a nonempty arena,
/// small enough that depths and counts fit the native integer types, whose
/// first record is the Machine root, which holds a PU level and a NUMA node
/// level, and whose every record is sound ([`object_wf`]).
pub open spec fn objects_wf(objs: Seq<ObjectRecord>) -> bool {
    &&& 1 <= objs.len() <= 0x7FFF_FFFF
    &&& objs[0].object_type == ObjectType::Machine
    &&& (exists|o: int| 0 <= o < objs.len() && (#[trigger] objs[o]).object_type
        == ObjectType::PU)
    &&& (exists|o: int| 0 <= o < objs.len() && (#[trigger] objs[o]).object_type
        == ObjectType::NumaNode)
    &&& forall|o: int| 0 <= o < objs.len() ==> #[trigger] object_wf(objs, o)
}

/// Check one children list of object `o` against [`child_links_ok`].
fn check_child_list(objs: &Vec<ObjectRecord>, o: usize, lst: &Vec<usize>, kind: u8) -> (r: bool)
    requires
        o < objs@.len(),
    ensures
        r == child_links_ok(objs@, o as int, lst@, kind),
{
    if lst.len() > objs.len() {
        return false;
    }
    let mut k: usize = 0;
    while k < lst.len()
        invariant
            k <= lst@.len(),
            o < objs@.len(),
            forall|t: int| #![trigger lst@[t]] 0 <= t < k ==> {
                &&& o < lst@[t] < objs@.len()
                &&& objs@[lst@[t] as int].parent == Some(o)
                &&& objs@[lst@[t] as int].sibling_rank == t
                &&& kind_matches(objs@[lst@[t] as int].object_type, kind)
            },
        decreases lst@.len() - k,
    {
        let c = lst[k];
        if !(c > o && c < objs.len()) {
            return false;
        }
        let cr = &objs[c];
        let parent_ok = match cr.parent {
            Some(p) => p == o,
            None => false,
        };
        if !parent_ok {
            return false;
        }
        if !(cr.sibling_rank as usize == k) {
            return false;
        }
        let type_ok = if kind == 0 {
            cr.object_type.is_normal()
        } else if kind == 1 {
            cr.object_type.is_memory()
        } else if kind == 2 {
            cr.object_type.is_io()
        } else {
            matches!(cr.object_type, ObjectType::Misc)
        };
        if !type_ok {
            return false;
        }
        k = k + 1;
    }
    true
}

/// Check a record's attributes against [`attrs_wf`].
fn check_attrs(rec: &ObjectRecord) -> (r: bool)
    ensures
        r == attrs_wf(*rec),
{
    match &rec.attributes {
        None => true,
        Some(Attributes::NumaNode(a)) => {
            if !matches!(rec.object_type, ObjectType::NumaNode) {
                return false;
            }
            let n = a.page_types.len();
            let last = if n == 0 {
                0
            } else {
                n - 1
            };
            let mut k: usize = 0;
            while k < last
                invariant
                    k <= last,
                    last < a.page_types@.len() || last == 0,
                    last == if a.page_types@.len() == 0 {
                        0int
                    } else {
                        a.page_types@.len() - 1
                    },
                    rec.attributes == Some(Attributes::NumaNode(*a)),
                    rec.object_type == ObjectType::NumaNode,
                    forall|t: int| 0 <= t < k ==> (#[trigger] a.page_types@[t]).size
                        <= a.page_types@[t + 1].size,
                decreases last - k,
            {
                if a.page_types[k].size > a.page_types[k + 1].size {
                    proof {
                        assert(!page_types_sorted(a.page_types@));
                    }
                    return false;
                }
                k = k + 1;
            }
            proof {
                assert(page_types_sorted(a.page_types@));
            }
            true
        },
        Some(Attributes::Cache(_)) => rec.object_type.is_cache() || matches!(
            rec.object_type,
            ObjectType::MemCache,
        ),
        Some(Attributes::PciDev(_)) => matches!(rec.object_type, ObjectType::PciDevice),
        Some(Attributes::Bridge(_)) => matches!(rec.object_type, ObjectType::Bridge),
    }
}

/// Check that a set holds exactly the one index `id`.
fn check_singleton(b: &Bitmap, id: u32) -> (r: bool)
    ensures
        r == (forall|i: int| b.spec_bit(i) <==> i == id),
{
    let f = b.first();
    let l = b.last();
    match (f, l) {
        (Some(fv), Some(lv)) => {
            if fv == lv && fv >= 0 && (fv as u32) == id {
                proof {
                    b.lemma_frontier();
                    assert forall|i: int| b.spec_bit(i) <==> i == id by {
                        if i == id {
                            assert(b.spec_bit(fv as int));
                        }
                    }
                }
                true
            } else {
                proof {
                    assert(b.spec_bit(fv as int));
                    assert(b.spec_bit(lv as int));
                }
                false
            }
        },
        _ => {
            proof {
                b.lemma_frontier();
                if f is None {
                    // The set is empty, so it does not hold `id`.
                    assert(!b.spec_bit(id as int));
                } else {
                    // A first but no last index: the set is infinitely set,
                    // so it holds two distinct indexes.
                    assert(b.spec_bit(f.unwrap() as int));
                    assert(b.spec_bit(b.spec_bound()));
                    assert(b.spec_bit(b.spec_bound() + 1));
                }
            }
            false
        },
    }
}

/// Check the record's CPU and node sets against [`sets_wf`].
fn check_sets(objs: &Vec<ObjectRecord>, o: usize) -> (r: bool)
    requires
        o < objs@.len(),
    ensures
        r == sets_wf(objs@, o as int),
{
    let rec = &objs[o];
    if rec.object_type.is_io() || matches!(rec.object_type, ObjectType::Misc) {
        if rec.cpuset.is_some() || rec.nodeset.is_some() {
            return false;
        }
    } else {
        if rec.cpuset.is_none() || rec.nodeset.is_none() {
            return false;
        }
    }
    match (&rec.parent, &rec.cpuset) {
        (Some(p), Some(b)) => {
            if *p < objs.len() {
                match &objs[*p].cpuset {
                    Some(pb) => {
                        if !b.is_included(pb) {
                            return false;
                        }
                    },
                    None => {},
                }
            }
        },
        _ => {},
    }
    match (&rec.parent, &rec.nodeset) {
        (Some(p), Some(b)) => {
            if *p < objs.len() {
                match &objs[*p].nodeset {
                    Some(pb) => {
                        if !b.is_included(pb) {
                            return false;
                        }
                    },
                    None => {},
                }
            }
        },
        _ => {},
    }
    match (&rec.cpuset, &rec.complete_cpuset) {
        (Some(b), Some(cb)) => {
            if !b.is_included(cb) {
                return false;
            }
        },
        _ => {},
    }
    match (&rec.nodeset, &rec.complete_nodeset) {
        (Some(b), Some(cb)) => {
            if !b.is_included(cb) {
                return false;
            }
        },
        _ => {},
    }
    if matches!(rec.object_type, ObjectType::PU) {
        match &rec.cpuset {
            Some(b) => {
                if !check_singleton(b, rec.os_index) {
                    return false;
                }
            },
            None => {
                return false;
            },
        }
    }
    if matches!(rec.object_type, ObjectType::NumaNode) {
        match &rec.nodeset {
            Some(b) => {
                if !check_singleton(b, rec.os_index) {
                    return false;
                }
            },
            None => {
                return false;
            },
        }
    }
    true
}

/// Check the record's CPU set against [`children_union_ok`]: fold the normal
/// children's sets together and compare.
fn check_children_union(objs: &Vec<ObjectRecord>, o: usize) -> (r: bool)
    requires
        o < objs@.len(),
        child_links_ok(objs@, o as int, objs@[o as int].children@, 0),
    ensures
        r == children_union_ok(objs@, o as int),
{
    let rec = &objs[o];
    if !(rec.object_type.is_normal() && !matches!(rec.object_type, ObjectType::PU)) {
        return true;
    }
    match &rec.cpuset {
        None => false,
        Some(b) => {
            let mut acc = match Bitmap::try_new_empty() {
                Ok(x) => x,
                Err(_) => {
                    proof {
                        assert(false);
                    }
                    return false;
                },
            };
            let lst = &rec.children;
            let mut k: usize = 0;
            while k < lst.len()
                invariant
                    k <= lst@.len(),
                    lst@ == objs@[o as int].children@,
                    o < objs@.len(),
                    child_links_ok(objs@, o as int, lst@, 0),
                    forall|i: int| 0 <= i ==> #[trigger] acc.spec_bit(i) == exists|kk: int|
                        0 <= kk < k && #[trigger] child_set_bit(objs@, lst@[kk], i),
                decreases lst@.len() - k,
            {
                let ghost prev_acc = acc;
                let c = lst[k];
                let mut merged: bool = false;
                match &objs[c].cpuset {
                    Some(cb) => {
                        acc.bitor_assign(cb);
                        merged = true;
                    },
                    None => {},
                }
                proof {
                    assert forall|i: int| 0 <= i implies #[trigger] acc.spec_bit(i)
                        == exists|kk: int|
                        0 <= kk < k + 1 && #[trigger] child_set_bit(objs@, lst@[kk], i) by {
                        if acc.spec_bit(i) {
                            if prev_acc.spec_bit(i) {
                                let kk = choose|kk: int|
                                    0 <= kk < k && #[trigger] child_set_bit(
                                        objs@,
                                        lst@[kk],
                                        i,
                                    );
                                assert(0 <= kk < k + 1 && child_set_bit(objs@, lst@[kk], i));
                            } else {
                                assert(merged);
                                assert(child_set_bit(objs@, lst@[k as int], i));
                            }
                        } else {
                            if exists|kk: int|
                                0 <= kk < k + 1 && #[trigger] child_set_bit(
                                    objs@,
                                    lst@[kk],
                                    i,
                                ) {
                                let kk = choose|kk: int|
                                    0 <= kk < k + 1 && #[trigger] child_set_bit(
                                        objs@,
                                        lst@[kk],
                                        i,
                                    );
                                if kk < k {
                                    assert(prev_acc.spec_bit(i));
                                    assert(acc.spec_bit(i));
                                } else {
                                    assert(merged);
                                    assert(acc.spec_bit(i));
                                }
                            }
                        }
                    }
                }
                k = k + 1;
            }
            let equal = acc == *b;
            proof {
                if equal {
                    assert forall|i: int| #[trigger] b.spec_bit(i) <==> exists|kk: int|
                        0 <= kk < lst@.len() && #[trigger] child_set_bit(
                            objs@,
                            lst@[kk],
                            i,
                        ) by {
                        acc.lemma_frontier();
                        b.lemma_frontier();
                        if i >= 0 {
                            assert(acc.spec_bit(i) == b.spec_bit(i));
                        } else {
                            // No set holds a negative index.
                            if exists|kk: int|
                                0 <= kk < lst@.len() && #[trigger] child_set_bit(
                                    objs@,
                                    lst@[kk],
                                    i,
                                ) {
                                let kk = choose|kk: int|
                                    0 <= kk < lst@.len() && #[trigger] child_set_bit(
                                        objs@,
                                        lst@[kk],
                                        i,
                                    );
                                match objs@[lst@[kk] as int].cpuset {
                                    Option::Some(cb) => {
                                        cb.lemma_frontier();
                                    },
                                    Option::None => {},
                                }
                            }
                        }
                    }
                } else {
                    let w = choose|i: int| !(acc.spec_bit(i) <==> b.spec_bit(i));
                    acc.lemma_frontier();
                    b.lemma_frontier();
                    assert(w >= 0);
                    assert(!(b.spec_bit(w) <==> exists|kk: int|
                        0 <= kk < lst@.len() && #[trigger] child_set_bit(
                            objs@,
                            lst@[kk],
                            w,
                        )));
                }
            }
            equal
        },
    }
}

/// Check the record at position `o` against [`object_wf`].
fn check_object(objs: &Vec<ObjectRecord>, o: usize) -> (r: bool)
    requires
        o < objs@.len(),
        objs@.len() <= 0x7FFF_FFFF,
    ensures
        r == object_wf(objs@, o as int),
{
    let rec = &objs[o];
    match rec.parent {
        None => {
            if o != 0 {
                return false;
            }
        },
        Some(p) => {
            if !(o > 0 && p < o) {
                return false;
            }
            let pr = &objs[p];
            let lst: &Vec<usize> = if rec.object_type.is_memory() {
                &pr.memory_children
            } else if rec.object_type.is_io() {
                &pr.io_children
            } else if matches!(rec.object_type, ObjectType::Misc) {
                &pr.misc_children
            } else {
                &pr.children
            };
            proof {
                assert(lst@ == kind_list(objs@[p as int], rec.object_type));
            }
            if !((rec.sibling_rank as usize) < lst.len()) {
                return false;
            }
            if lst[rec.sibling_rank as usize] != o {
                return false;
            }
        },
    }
    if o > 0 && matches!(rec.object_type, ObjectType::Machine) {
        return false;
    }
    if rec.object_type.is_normal() {
        match rec.parent {
            None => {
                if rec.depth != 0 {
                    return false;
                }
            },
            Some(p) => {
                let pd = objs[p].depth;
                if pd < 0 {
                    return false;
                }
                if pd == i32::MAX {
                    // The parent's successor depth is not representable.
                    return false;
                }
                if rec.depth != pd + 1 {
                    return false;
                }
            },
        }
    } else {
        match TypeDepth::of_type(rec.object_type) {
            Some(d) => {
                if rec.depth != d.to_i32() {
                    return false;
                }
            },
            None => {
                return false;
            },
        }
    }
    let mut cnt: u32 = 0;
    let mut t: usize = 0;
    while t < o
        invariant
            t <= o,
            o < objs@.len() <= 0x7FFF_FFFF,
            cnt == count_at_depth(objs@, objs@[o as int].depth as int, t as int),
            cnt <= t,
            *rec == objs@[o as int],
            forall|u: int| 0 <= u < t ==> #[trigger] level_consistent(objs@, u, o as int),
        decreases o - t,
    {
        if objs[t].depth == objs[o].depth {
            cnt = cnt + 1;
            if objs[t].object_type != rec.object_type {
                proof {
                    assert(!level_consistent(objs@, t as int, o as int));
                }
                return false;
            }
        } else {
            if objs[t].object_type == rec.object_type && rec.object_type.is_normal()
                && !matches!(rec.object_type, ObjectType::Group) {
                proof {
                    assert(!level_consistent(objs@, t as int, o as int));
                }
                return false;
            }
        }
        if matches!(objs[t].object_type, ObjectType::PU) && rec.object_type.is_normal()
            && rec.depth > objs[t].depth {
            proof {
                assert(!level_consistent(objs@, t as int, o as int));
            }
            return false;
        }
        if matches!(rec.object_type, ObjectType::PU) && objs[t].object_type.is_normal()
            && objs[t].depth > rec.depth {
            proof {
                assert(!level_consistent(objs@, t as int, o as int));
            }
            return false;
        }
        proof {
            assert(count_at_depth(objs@, objs@[o as int].depth as int, t as int + 1)
                == count_at_depth(objs@, objs@[o as int].depth as int, t as int) + (
            if objs@[t as int].depth == objs@[o as int].depth {
                1int
            } else {
                0int
            }));
            assert(level_consistent(objs@, t as int, o as int));
        }
        t = t + 1;
    }
    if rec.logical_index != cnt {
        return false;
    }
    if !check_attrs(rec) {
        return false;
    }
    if !check_sets(objs, o) {
        return false;
    }
    if !check_child_list(objs, o, &rec.children, 0) {
        return false;
    }
    if !check_child_list(objs, o, &rec.memory_children, 1) {
        return false;
    }
    if !check_child_list(objs, o, &rec.io_children, 2) {
        return false;
    }
    if !check_child_list(objs, o, &rec.misc_children, 3) {
        return false;
    }
    if !check_children_union(objs, o) {
        return false;
    }
    true
}

/// Check a whole arena of records against [`objects_wf`].
pub(crate) fn check_objects(objs: &Vec<ObjectRecord>) -> (r: bool)
    ensures
        r == objects_wf(objs@),
{
    if objs.len() < 1 || objs.len() > 0x7FFF_FFFF {
        return false;
    }
    if !matches!(objs[0].object_type, ObjectType::Machine) {
        return false;
    }
    let mut has_pu: bool = false;
    let mut has_numa: bool = false;
    let mut o: usize = 0;
    while o < objs.len()
        invariant
            o <= objs@.len(),
            1 <= objs@.len() <= 0x7FFF_FFFF,
            forall|t: int| 0 <= t < o ==> #[trigger] object_wf(objs@, t),
            has_pu == exists|t: int| 0 <= t < o && (#[trigger] objs@[t]).object_type
                == ObjectType::PU,
            has_numa == exists|t: int| 0 <= t < o && (#[trigger] objs@[t]).object_type
                == ObjectType::NumaNode,
        decreases objs@.len() - o,
    {
        if !check_object(objs, o) {
            return false;
        }
        if matches!(objs[o].object_type, ObjectType::PU) {
            has_pu = true;
        }
        if matches!(objs[o].object_type, ObjectType::NumaNode) {
            has_numa = true;
        }
        o = o + 1;
    }
    // A topology always holds a PU level and a NUMA node level.
    if !has_pu || !has_numa {
        return false;
    }
    true
}

} // verus!
