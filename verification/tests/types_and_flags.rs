use core::cmp::Ordering;
use hwloc2::topology::filters::Filter;
use hwloc2::topology::flags::Flags;
use hwloc2::types::{BridgeType, CacheType, OsDevType};
use hwloc2::Error;
use hwloc2::ObjectType;
use hwloc2::TypeDepth;

#[test]
fn flags() {
    let f = Flags::default();
    assert!(f.is_empty());
}

#[test]
fn assert_type_depth_values() {
    assert_eq!(TypeDepth::Unknown.to_i32(), -1);
    assert_eq!(TypeDepth::Multiple.to_i32(), -2);
    assert_eq!(TypeDepth::NumaNode.to_i32(), -3);
    assert_eq!(TypeDepth::Bridge.to_i32(), -4);
    assert_eq!(TypeDepth::PciDevice.to_i32(), -5);
    assert_eq!(TypeDepth::OsDevice.to_i32(), -6);
    assert_eq!(TypeDepth::Misc.to_i32(), -7);
    assert_eq!(TypeDepth::MemCache.to_i32(), -8);
}

#[test]
fn object_type_codes_round_trip() {
    for code in 0..20u32 {
        let t = ObjectType::from_u32(code).expect("every code below 20 names a type");
        assert_eq!(t.to_u32(), code);
    }
    assert!(ObjectType::from_u32(20).is_none());
    assert_eq!(ObjectType::Machine.to_u32(), 0);
    assert_eq!(ObjectType::Die.to_u32(), 19);
}

#[test]
fn object_type_kinds() {
    assert!(ObjectType::Machine.is_normal());
    assert!(ObjectType::Group.is_normal());
    assert!(!ObjectType::NumaNode.is_normal());
    assert!(ObjectType::NumaNode.is_memory());
    assert!(ObjectType::MemCache.is_memory());
    assert!(ObjectType::Bridge.is_io());
    assert!(ObjectType::PciDevice.is_io());
    assert!(ObjectType::OsDevice.is_io());
    assert!(!ObjectType::Misc.is_normal());
    assert!(!ObjectType::Misc.is_io());
    assert!(ObjectType::L3Cache.is_cache());
    assert!(ObjectType::L3Cache.is_dcache());
    assert!(!ObjectType::L3Cache.is_icache());
    assert!(ObjectType::L2ICache.is_icache());
    assert!(ObjectType::L2ICache.is_cache());
    assert!(!ObjectType::MemCache.is_cache());
}

#[test]
fn object_type_compare() {
    assert_eq!(
        ObjectType::Machine.compare(ObjectType::Machine),
        Some(Ordering::Equal)
    );
    assert_eq!(ObjectType::Machine.compare(ObjectType::PU), Some(Ordering::Less));
    assert_eq!(ObjectType::PU.compare(ObjectType::Machine), Some(Ordering::Greater));
    assert_eq!(ObjectType::Package.compare(ObjectType::Core), Some(Ordering::Less));
    assert_eq!(
        ObjectType::L1Cache.compare(ObjectType::L2Cache),
        Some(Ordering::Greater)
    );
    // Memory and I/O types are comparable only with the Machine.
    assert_eq!(ObjectType::NumaNode.compare(ObjectType::Core), None);
    assert_eq!(
        ObjectType::Machine.compare(ObjectType::NumaNode),
        Some(Ordering::Less)
    );
    assert_eq!(
        ObjectType::Bridge.compare(ObjectType::Machine),
        Some(Ordering::Greater)
    );
}

#[test]
fn object_type_names() {
    assert_eq!(ObjectType::Machine.name(), "Machine");
    assert_eq!(ObjectType::PU.name(), "PU");
    assert_eq!(ObjectType::MemCache.name(), "MemCache");
}

#[test]
fn other_type_codes() {
    assert_eq!(CacheType::Unified.to_u32(), 0);
    assert_eq!(CacheType::from_u32(2), Some(CacheType::Instruction));
    assert_eq!(CacheType::from_u32(3), None);
    assert_eq!(BridgeType::Host.to_u32(), 0);
    assert_eq!(BridgeType::from_u32(1), Some(BridgeType::Pci));
    assert_eq!(OsDevType::CoProc.to_u32(), 5);
    assert_eq!(OsDevType::from_u32(6), None);
    assert_eq!(TypeDepth::from_i32(-3), Some(TypeDepth::NumaNode));
    assert_eq!(TypeDepth::from_i32(0), None);
}

#[test]
fn flag_operations() {
    let f = Flags::from_bits_truncate(Flags::IS_THISSYSTEM | Flags::RESTRICT_TO_CPUBINDING);
    assert_eq!(f.bits(), 0x12);
    assert!(f.contains(Flags::from_bits_truncate(Flags::IS_THISSYSTEM)));
    assert!(!f.contains(Flags::from_bits_truncate(Flags::IMPORT_SUPPORT)));

    // Unknown bits are dropped.
    let g = Flags::from_bits_truncate(0xFFFF);
    assert_eq!(g.bits(), Flags::ALL_BITS);
    assert_eq!(Flags::all().bits(), 0x7F);
    assert!(Flags::empty().is_empty());

    let u = f.union(Flags::from_bits_truncate(Flags::IMPORT_SUPPORT));
    assert_eq!(u.bits(), 0x1A);
    let i = u.intersection(f);
    assert_eq!(i.bits(), 0x12);
    let d = u.difference(f);
    assert_eq!(d.bits(), Flags::IMPORT_SUPPORT);
}

#[test]
fn filter_codes_and_names() {
    assert_eq!(Filter::KeepAll.to_u32(), 0);
    assert_eq!(Filter::KeepNone.to_u32(), 1);
    assert_eq!(Filter::KeepStructure.to_u32(), 2);
    assert_eq!(Filter::KeepImportant.to_u32(), 3);
    assert_eq!(Filter::from_u32(2), Some(Filter::KeepStructure));
    assert_eq!(Filter::from_u32(4), None);
    assert_eq!(Filter::KeepAll.name(), "Filter::KeepAll");
}

#[test]
fn error_messages() {
    assert_eq!(Error::BitmapAlloc.message(), "Failed to allocate a new Bitmap");
    assert_eq!(
        Error::TopologyLoad.message(),
        "Failed to load the actual topology object"
    );
    assert_eq!(
        Error::BitmapSetBit(7).message(),
        "Failed to set index in the Bitmap"
    );
    assert_eq!(Error::BitmapSetBit(7), Error::BitmapSetBit(7));
    assert_ne!(Error::BitmapSetBit(7), Error::BitmapClearBit(7));
}
