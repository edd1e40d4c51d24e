use hwloc2::bitmap::Bitmap;
use hwloc2::object::attributes::{Attributes, CacheAttributes, NumaNodeAttributes, PageType};
use hwloc2::object::ObjectRecord;
use hwloc2::topology::filters::Filter;
use hwloc2::topology::flags::Flags;
use hwloc2::types::CacheType;
use hwloc2::Error;
use hwloc2::ObjectType;
use hwloc2::Topology;

fn record(
    object_type: ObjectType,
    depth: i32,
    logical_index: u32,
    parent: Option<usize>,
    sibling_rank: u32,
) -> ObjectRecord {
    ObjectRecord {
        object_type,
        subtype: None,
        name: None,
        os_index: 0xFFFF_FFFF,
        total_memory: 0,
        depth,
        logical_index,
        gp_index: 0,
        symmetric_subtree: false,
        parent,
        sibling_rank,
        children: vec![],
        memory_children: vec![],
        io_children: vec![],
        misc_children: vec![],
        cpuset: None,
        complete_cpuset: None,
        nodeset: None,
        complete_nodeset: None,
        attributes: None,
        infos_count: 0,
    }
}

fn cpus(ids: &[u32]) -> Bitmap {
    let mut b = Bitmap::try_new_empty().unwrap();
    for id in ids {
        b.set(*id).expect("failed to Bitmap::set()");
    }
    b
}

/// A machine with one package, one core, two PUs and one NUMA node.
fn small_machine() -> Vec<ObjectRecord> {
    let mut machine = record(ObjectType::Machine, 0, 0, None, 0);
    machine.children = vec![1];
    machine.memory_children = vec![5];
    machine.cpuset = Some(cpus(&[0, 1]));
    machine.nodeset = Some(cpus(&[0]));
    machine.total_memory = 4096;

    let mut package = record(ObjectType::Package, 1, 0, Some(0), 0);
    package.children = vec![2];
    package.cpuset = Some(cpus(&[0, 1]));
    package.nodeset = Some(cpus(&[0]));

    let mut core = record(ObjectType::Core, 2, 0, Some(1), 0);
    core.children = vec![3, 4];
    core.cpuset = Some(cpus(&[0, 1]));
    core.nodeset = Some(cpus(&[0]));

    let mut pu0 = record(ObjectType::PU, 3, 0, Some(2), 0);
    pu0.os_index = 0;
    pu0.cpuset = Some(cpus(&[0]));
    pu0.nodeset = Some(cpus(&[0]));

    let mut pu1 = record(ObjectType::PU, 3, 1, Some(2), 1);
    pu1.os_index = 1;
    pu1.cpuset = Some(cpus(&[1]));
    pu1.nodeset = Some(cpus(&[0]));

    let mut numa = record(ObjectType::NumaNode, -3, 0, Some(0), 0);
    numa.os_index = 0;
    numa.cpuset = Some(cpus(&[0, 1]));
    numa.nodeset = Some(cpus(&[0]));
    numa.attributes = Some(Attributes::NumaNode(NumaNodeAttributes {
        local_memory: 4096,
        page_types: vec![PageType { size: 4096, count: 1 }],
    }));

    vec![machine, package, core, pu0, pu1, numa]
}

#[test]
fn build_default_topology() {
    let topo = Topology::builder()
        .expect("failed to create the TopologyBuilder")
        .build(small_machine())
        .expect("failed to build the Topology");

    assert!(topo.abi_check().is_ok());
    assert!(!topo.is_this_system());
    assert!(topo.flags().is_empty());
    assert_eq!(topo.type_filter(ObjectType::PU), Ok(Filter::KeepAll));
    assert_eq!(topo.type_filter(ObjectType::Misc), Ok(Filter::KeepNone));
    assert_eq!(topo.type_filter(ObjectType::Die), Ok(Filter::KeepStructure));
    assert!(!topo.support().discovery().pu());
    assert!(!topo.support().cpubind().set_thisproc_cpubind());
    assert!(!topo.support().membind().alloc_membind());
    assert!(!topo.support().misc().imported_support());
}

#[test]
fn build_topology_flags() {
    let topo = Topology::builder()
        .expect("failed to create the TopologyBuilder")
        .flags(Flags::from_bits_truncate(
            Flags::IS_THISSYSTEM | Flags::RESTRICT_TO_CPUBINDING,
        ))
        .expect("failed to set IS_THISSYSTEM | RESTRICT_TO_CPUBINDING flags")
        .build(small_machine())
        .expect("failed to build the Topology");
    assert!(topo.is_this_system());
    assert_eq!(topo.flags().bits(), 0x12);
}

#[test]
fn build_rejects_broken_records() {
    let builder = Topology::builder().expect("failed to create the TopologyBuilder");
    // The logical index of the second PU is wrong.
    let mut objects = small_machine();
    objects[4].logical_index = 7;
    match builder.build(objects) {
        Err(Error::TopologyLoad) => {},
        _ => panic!("a broken description must be rejected"),
    }
}

#[test]
fn build_honors_keep_none() {
    // A PCI device under the default filters (PciDevice is KeepNone) is
    // rejected; the same records build once the I/O filter keeps them.
    let builder = Topology::builder().expect("failed to create the TopologyBuilder");
    match builder.build(machine_with_io()) {
        Err(Error::TopologyLoad) => {},
        _ => panic!("a filtered-out object type must be rejected"),
    }
}

#[test]
fn builder_filters() {
    let b = Topology::builder().expect("failed to create the TopologyBuilder");
    // Groups may not be kept whole.
    let b = match b.type_filter(ObjectType::Group, Filter::KeepAll) {
        Err(Error::TopologySetFilter(ObjectType::Group, Filter::KeepAll)) => {
            Topology::builder().unwrap()
        },
        _ => panic!("KeepAll on Group must be rejected"),
    };
    // PUs may not be ignored.
    assert!(b.type_filter(ObjectType::PU, Filter::KeepNone).is_err());

    let b = Topology::builder().unwrap();
    let b = b
        .io_types_filter(Filter::KeepAll)
        .expect("failed to set the I/O types filter");
    let topo = b.build(small_machine()).expect("failed to build the Topology");
    assert_eq!(topo.type_filter(ObjectType::PciDevice), Ok(Filter::KeepAll));
    assert_eq!(topo.type_filter(ObjectType::Bridge), Ok(Filter::KeepAll));
    assert_eq!(topo.type_filter(ObjectType::PU), Ok(Filter::KeepAll));

    let b = Topology::builder().unwrap();
    let b = b
        .icache_types_filter(Filter::KeepAll)
        .expect("failed to set the instruction cache filter");
    let topo = b.build(small_machine()).expect("failed to build the Topology");
    assert_eq!(topo.type_filter(ObjectType::L1ICache), Ok(Filter::KeepAll));
    assert_eq!(topo.type_filter(ObjectType::L1Cache), Ok(Filter::KeepAll));
    assert_eq!(topo.type_filter(ObjectType::Misc), Ok(Filter::KeepNone));
}

#[test]
fn get_root_obj() {
    let topo = Topology::builder()
        .expect("failed to create the TopologyBuilder")
        .build(small_machine())
        .expect("failed to build the Topology");

    let root_obj = topo.root_object().expect("failed retrieving root object!");
    assert_eq!(root_obj.object_type(), ObjectType::Machine);
    assert_eq!(root_obj.subtype(), None);
    assert!(!root_obj.symmetric_subtree());
    assert_eq!(root_obj.arity(), 1);
    assert_eq!(root_obj.memory_arity(), 1);
    assert_eq!(root_obj.io_arity(), 0);
    assert_eq!(root_obj.misc_arity(), 0);
    assert_eq!(root_obj.total_memory(), 4096);
    assert_eq!(root_obj.depth(), 0);
    assert!(root_obj.parent().is_none());
}

#[test]
fn root_and_children() {
    let topo = Topology::builder()
        .expect("failed to create the TopologyBuilder")
        .build(small_machine())
        .expect("failed to build the Topology");

    let root_obj = topo.root_object().expect("failed retrieving root object!");
    let kids = root_obj.children();
    assert_eq!(kids.len(), 1);
    assert_eq!(kids[0].object_type(), ObjectType::Package);
    assert_eq!(kids[0].parent().unwrap().object_type(), ObjectType::Machine);

    let mem = root_obj
        .memory_first_child()
        .expect("failed to retrieve first memory child");
    assert_eq!(mem.object_type(), ObjectType::NumaNode);
    assert_eq!(mem.depth(), -3);
    assert_eq!(mem.os_index(), 0);
}

#[test]
fn print_tree() {
    let topo = Topology::builder()
        .expect("failed to create the TopologyBuilder")
        .build(small_machine())
        .expect("failed to build the Topology");

    fn print_children(obj: hwloc2::Object, depth: usize) {
        let padding = " ".repeat(2 * depth);
        println!(
            "{}{} : #{}(L#{}) ({} mem children)",
            padding,
            obj.object_type().name(),
            obj.os_index(),
            obj.logical_index(),
            obj.memory_arity(),
        );
        for child in obj.children() {
            print_children(child, depth + 1);
        }
    }
    print_children(
        topo.root_object().expect("failed to get topology's root object"),
        0,
    );
}

#[test]
fn depths_and_levels() {
    let topo = Topology::builder()
        .expect("failed to create the TopologyBuilder")
        .build(small_machine())
        .expect("failed to build the Topology");

    assert_eq!(topo.depth(), 4);
    assert_eq!(topo.type_depth(ObjectType::Machine), 0);
    assert_eq!(topo.type_depth(ObjectType::Package), 1);
    assert_eq!(topo.type_depth(ObjectType::Core), 2);
    assert_eq!(topo.type_depth(ObjectType::PU), 3);
    assert_eq!(topo.type_depth(ObjectType::L2Cache), -1);
    assert_eq!(topo.type_depth(ObjectType::NumaNode), -3);
    assert_eq!(topo.memory_parents_depth(), 0);

    assert_eq!(topo.nbobjs_by_depth(3), 2);
    assert_eq!(topo.nbobjs_by_depth(0), 1);
    assert_eq!(topo.nbobjs_by_type(ObjectType::PU), 2);
    assert_eq!(topo.nbobjs_by_type(ObjectType::L2Cache), 0);

    assert_eq!(topo.depth_type(3), Ok(ObjectType::PU));
    assert_eq!(
        topo.depth_type(9),
        Err(Error::TopologyDepthDoesNotExist(9))
    );

    // A missing cache type resolves to the neighbouring levels: an L2 cache
    // would sit between the Package and the Core levels.
    assert_eq!(topo.type_or_below_depth(ObjectType::L2Cache), 2);
    assert_eq!(topo.type_or_above_depth(ObjectType::L2Cache), 1);
    assert_eq!(topo.type_or_below_depth(ObjectType::PU), 3);
    assert_eq!(topo.type_or_above_depth(ObjectType::Machine), 0);
}

#[test]
fn test_get_next_obj_by_depth() {
    let topo = Topology::builder()
        .expect("failed to create the TopologyBuilder")
        .build(small_machine())
        .expect("failed to build the Topology");

    let mut seen = 0;
    let mut o = None;
    while let Some(obj) = topo.next_object_by_depth(3, o) {
        assert_eq!(obj.depth(), 3);
        assert_eq!(obj.logical_index(), seen);
        seen += 1;
        let _prev = o.replace(obj);
    }
    assert_eq!(seen, 2);
}

#[test]
fn test_get_next_obj_by_type() {
    let topo = Topology::builder()
        .expect("failed to create the TopologyBuilder")
        .build(small_machine())
        .expect("failed to build the Topology");

    let mut seen = 0;
    let mut o = None;
    while let Some(obj) = topo.next_object_by_type(ObjectType::NumaNode, o) {
        assert_eq!(obj.object_type(), ObjectType::NumaNode);
        seen += 1;
        let _prev = o.replace(obj);
    }
    assert_eq!(seen, 1);
}

#[test]
fn siblings_and_cousins() {
    let topo = Topology::builder()
        .expect("failed to create the TopologyBuilder")
        .build(small_machine())
        .expect("failed to build the Topology");

    let pu0 = topo.pu_object_by_os_index(0).expect("PU #0 must exist");
    let pu1 = pu0.next_sibling().expect("PU #0 must have a next sibling");
    assert_eq!(pu1.os_index(), 1);
    assert_eq!(pu1.sibling_rank(), 1);
    assert!(pu1.next_sibling().is_none());
    assert_eq!(pu1.prev_sibling().expect("PU #1 has a previous sibling").os_index(), 0);

    let cousin = pu0.next_cousin().expect("PU #0 must have a next cousin");
    assert_eq!(cousin.os_index(), 1);
    assert!(cousin.next_cousin().is_none());
    assert_eq!(cousin.prev_cousin().expect("PU #1 has a previous cousin").os_index(), 0);
    assert!(pu0.prev_cousin().is_none());

    assert!(topo.pu_object_by_os_index(5).is_none());
    assert!(topo.numanode_object_by_os_index(0).is_some());
}

#[test]
fn covering_and_conversions() {
    let topo = Topology::builder()
        .expect("failed to create the TopologyBuilder")
        .build(small_machine())
        .expect("failed to build the Topology");

    let one_cpu = cpus(&[1]);
    let covering = topo
        .object_covering_cpuset(one_cpu.dup())
        .expect("some object covers CPU #1");
    assert_eq!(covering.object_type(), ObjectType::PU);
    assert_eq!(covering.os_index(), 1);

    let both = cpus(&[0, 1]);
    let covering = topo
        .object_covering_cpuset(both.dup())
        .expect("some object covers both CPUs");
    assert_eq!(covering.object_type(), ObjectType::Core);

    let ns = topo.cpuset_to_nodeset(one_cpu.dup()).expect("conversion must succeed");
    assert!(ns.is_set(0));
    assert_eq!(1, ns.weight());

    let cs = topo.cpuset_from_nodeset(ns).expect("conversion must succeed");
    assert!(cs.is_set(0));
    assert!(cs.is_set(1));
    assert_eq!(2, cs.weight());

    let sets = topo.topology_cpuset().expect("the root carries a CPU set");
    assert_eq!(2, sets.weight());
    let allowed = topo.allowed_cpuset().expect("the root carries a CPU set");
    assert_eq!(2, allowed.weight());
    assert!(topo.complete_cpuset().is_err());
    let nodes = topo.topology_nodeset().expect("the root carries a node set");
    assert_eq!(1, nodes.weight());
}

#[test]
fn attributes_access() {
    let topo = Topology::builder()
        .expect("failed to create the TopologyBuilder")
        .build(small_machine())
        .expect("failed to build the Topology");

    let numa = topo.numanode_object_by_os_index(0).expect("NUMA node #0 must exist");
    match numa.attributes() {
        Some(Attributes::NumaNode(a)) => {
            assert_eq!(a.local_memory(), 4096);
            assert_eq!(a.page_types_len(), 1);
            let pts = a.page_types().expect("one page type is recorded");
            assert_eq!(pts[0].size, 4096);
            assert_eq!(pts[0].count, 1);
        },
        _ => panic!("the NUMA node carries NUMA attributes"),
    }

    let cache = CacheAttributes {
        size: 32768,
        depth: 1,
        linesize: 64,
        associativity: 8,
        cache_type: CacheType::Data,
    };
    assert_eq!(cache.size(), 32768);
    assert_eq!(cache.cache_type(), CacheType::Data);
}

#[test]
fn non_io_ancestor() {
    // A machine with a PCI device below the root.
    let mut objects = small_machine();
    let mut pci = record(ObjectType::PciDevice, -5, 0, Some(0), 0);
    pci.attributes = Some(Attributes::PciDev(
        hwloc2::object::attributes::PciDevAttributes {
            domain: 0,
            bus: 1,
            dev: 2,
            func: 0,
            class_id: 0x0200,
            vendor_id: 0x8086,
            device_id: 0x10D3,
            subvendor_id: 0,
            subdevice_id: 0,
            revision: 1,
        },
    ));
    objects[0].io_children = vec![6];
    objects.push(pci);

    let topo = Topology::builder()
        .expect("failed to create the TopologyBuilder")
        .io_types_filter(Filter::KeepAll)
        .expect("failed to set the I/O types filter")
        .build(objects)
        .expect("failed to build the Topology");

    let mut o = None;
    let mut count = 0;
    while let Some(obj) = topo.next_pcidev(o) {
        count += 1;
        let anc = Topology::non_io_ancestor_object(obj).expect("the root has a CPU set");
        assert_eq!(anc.object_type(), ObjectType::Machine);
        let _prev = o.replace(obj);
    }
    assert_eq!(count, 1);

    let found = topo
        .pcidev_by_busid(0, 1, 2, 0)
        .expect("the PCI device is found by its bus id");
    assert_eq!(found.object_type(), ObjectType::PciDevice);
    assert!(topo.pcidev_by_busid(0, 1, 3, 0).is_none());
}

/// The small machine with a PCI bridge and a PCI device below the root.
fn machine_with_io() -> Vec<ObjectRecord> {
    let mut objects = small_machine();
    let mut bridge = record(ObjectType::Bridge, -4, 0, Some(0), 0);
    bridge.attributes = Some(Attributes::Bridge(
        hwloc2::object::attributes::BridgeAttributes {
            depth: 0,
            upstream_type: hwloc2::types::BridgeType::Host,
            upstream: hwloc2::object::attributes::PciDevAttributes {
                domain: 0,
                bus: 0,
                dev: 0,
                func: 0,
                class_id: 0x0604,
                vendor_id: 0x8086,
                device_id: 0x1901,
                subvendor_id: 0,
                subdevice_id: 0,
                revision: 1,
            },
            downstream_type: hwloc2::types::BridgeType::Pci,
            downstream_domain: 0,
            downstream_secondary_bus: 1,
            downstream_subordinate_bus: 2,
        },
    ));
    let mut pci = record(ObjectType::PciDevice, -5, 0, Some(0), 1);
    pci.attributes = Some(Attributes::PciDev(
        hwloc2::object::attributes::PciDevAttributes {
            domain: 0,
            bus: 1,
            dev: 2,
            func: 0,
            class_id: 0x0200,
            vendor_id: 0x8086,
            device_id: 0x10D3,
            subvendor_id: 0,
            subdevice_id: 0,
            revision: 1,
        },
    ));
    objects[0].io_children = vec![6, 7];
    objects.push(bridge);
    objects.push(pci);
    objects
}

#[test]
fn next_pci_1() {
    let topo = Topology::builder()
        .expect("failed to create the TopologyBuilder")
        .io_types_filter(Filter::KeepAll)
        .expect("failed to set the I/O types filter")
        .build(machine_with_io())
        .expect("failed to build the Topology");

    let mut count = 0;
    let mut o = None;
    while let Some(obj) = topo.next_object_by_type(ObjectType::PciDevice, o) {
        assert_eq!(obj.object_type(), ObjectType::PciDevice);
        assert!(obj.attributes().is_some());
        count += 1;
        let _prev = o.replace(obj);
    }
    assert_eq!(count, 1);
}

#[test]
fn next_pci_2() {
    let topo = Topology::builder()
        .expect("failed to create the TopologyBuilder")
        .io_types_filter(Filter::KeepAll)
        .expect("failed to set the I/O types filter")
        .build(machine_with_io())
        .expect("failed to build the Topology");

    let mut o = None;
    while let Some(obj) = topo.next_pcidev(o) {
        let anc = Topology::non_io_ancestor_object(obj)
            .expect("a non-I/O ancestor carries a CPU set");
        assert_eq!(anc.object_type(), ObjectType::Machine);
        let _prev = o.replace(obj);
    }
}

#[test]
fn next_bridge_1() {
    let topo = Topology::builder()
        .expect("failed to create the TopologyBuilder")
        .io_types_filter(Filter::KeepAll)
        .expect("failed to set the I/O types filter")
        .build(machine_with_io())
        .expect("failed to build the Topology");

    let mut count = 0;
    let mut o = None;
    while let Some(obj) = topo.next_object_by_type(ObjectType::Bridge, o) {
        assert_eq!(obj.object_type(), ObjectType::Bridge);
        assert!(Topology::bridge_covers_pcibus(obj, 0, 1));
        assert!(Topology::bridge_covers_pcibus(obj, 0, 2));
        assert!(!Topology::bridge_covers_pcibus(obj, 0, 3));
        assert!(!Topology::bridge_covers_pcibus(obj, 1, 1));
        count += 1;
        let _prev = o.replace(obj);
    }
    assert_eq!(count, 1);
}

#[test]
fn next_bridge_2() {
    let topo = Topology::builder()
        .expect("failed to create the TopologyBuilder")
        .io_types_filter(Filter::KeepAll)
        .expect("failed to set the I/O types filter")
        .build(machine_with_io())
        .expect("failed to build the Topology");

    let mut o = None;
    while let Some(obj) = topo.next_bridge(o) {
        let anc = Topology::non_io_ancestor_object(obj)
            .expect("a non-I/O ancestor carries a CPU set");
        assert_eq!(anc.object_type(), ObjectType::Machine);
        let _prev = o.replace(obj);
    }
}

#[test]
fn covering_iteration() {
    let topo = Topology::builder()
        .expect("failed to create the TopologyBuilder")
        .build(small_machine())
        .expect("failed to build the Topology");

    // Both PUs intersect the full set of both CPUs, in logical order.
    let both = cpus(&[0, 1]);
    let first = topo
        .next_object_covering_cpuset_by_depth(both.dup(), 3, None)
        .expect("PU #0 intersects");
    assert_eq!(first.logical_index(), 0);
    let second = topo
        .next_object_covering_cpuset_by_depth(both.dup(), 3, Some(first))
        .expect("PU #1 intersects");
    assert_eq!(second.logical_index(), 1);
    assert!(topo
        .next_object_covering_cpuset_by_depth(both.dup(), 3, Some(second))
        .is_none());

    // Only PU #1 intersects the set holding CPU #1 alone.
    let one = cpus(&[1]);
    let hit = topo
        .next_object_covering_cpuset_by_type(one.dup(), ObjectType::PU, None)
        .expect("PU #1 intersects");
    assert_eq!(hit.os_index(), 1);

    let root = topo.root_object().expect("failed retrieving root object!");
    let child = topo
        .child_covering_cpuset(one.dup(), root)
        .expect("the package covers CPU #1");
    assert_eq!(child.object_type(), ObjectType::Package);
    assert!(topo.child_covering_cpuset(Bitmap::try_new_empty().unwrap(), root).is_none());
}

#[test]
fn virtual_depths_and_lookup() {
    let topo = Topology::builder()
        .expect("failed to create the TopologyBuilder")
        .build(small_machine())
        .expect("failed to build the Topology");

    // Virtual levels answer with their own codes whatever the records hold.
    assert_eq!(topo.type_or_below_depth(ObjectType::Misc), -7);
    assert_eq!(topo.type_or_above_depth(ObjectType::Bridge), -4);
    assert_eq!(topo.nbobjs_by_type(ObjectType::NumaNode), 1);
    assert_eq!(topo.nbobjs_by_type(ObjectType::Bridge), 0);

    let pu1 = topo
        .object_by_type(ObjectType::PU, 1)
        .expect("PU at logical index 1 exists");
    assert_eq!(pu1.os_index(), 1);
    assert!(topo.object_by_type(ObjectType::PU, 2).is_none());
    assert!(topo.object_by_depth(3, 1).is_some());
    assert!(topo.object_by_depth(4, 0).is_none());
}

#[test]
fn memory_parents_at_multiple_depths() {
    // A second NUMA node attached one level deeper, below the package.
    let mut objects = small_machine();
    let mut numa2 = record(ObjectType::NumaNode, -3, 1, Some(1), 0);
    numa2.os_index = 1;
    numa2.cpuset = Some(cpus(&[0, 1]));
    numa2.nodeset = Some(cpus(&[1]));
    // Widen the node sets above it so that the new node nests within them.
    objects[0].nodeset = Some(cpus(&[0, 1]));
    objects[1].nodeset = Some(cpus(&[0, 1]));
    objects[1].memory_children = vec![6];
    objects.push(numa2);

    let topo = Topology::builder()
        .expect("failed to create the TopologyBuilder")
        .build(objects)
        .expect("failed to build the Topology");
    assert_eq!(topo.memory_parents_depth(), -2);
}
