use hwloc2::bitmap::Bitmap;

const TEST_RANGE: u32 = 128;

fn set(b: &mut Bitmap, range: u32, step: u32) {
    for i in 0..range {
        if i % step == 0 {
            b.set(i).expect("failed to Bitmap::set()");
        }
    }
}

#[test]
fn bitmap_print() {
    let mut b1 = Bitmap::try_new_full().unwrap();
    println!(" b1 = {}\n!b1 = {}", b1.to_list_string(), b1.not().to_list_string());

    set(&mut b1, TEST_RANGE, 3);
    println!(" b1 = {}\n!b1 = {}", b1.to_list_string(), b1.not().to_list_string());
}

#[test]
fn bitmap_list_strings() {
    let mut b = Bitmap::try_new_empty().unwrap();
    assert_eq!(b.to_list_string(), "");
    b.set(0).expect("failed to Bitmap::set()");
    b.set(1).expect("failed to Bitmap::set()");
    b.set(2).expect("failed to Bitmap::set()");
    b.set(5).expect("failed to Bitmap::set()");
    b.set_range(9, -1).expect("failed to Bitmap::set_range()");
    assert_eq!(b.to_list_string(), "0-2,5,9-");

    let full = Bitmap::try_new_full().unwrap();
    assert_eq!(full.to_list_string(), "0-");

    let mut one = Bitmap::try_new_empty().unwrap();
    one.only(42).expect("failed to Bitmap::only()");
    assert_eq!(one.to_list_string(), "42");

    let ranges = b.ranges();
    assert_eq!(ranges, vec![(0, 2), (5, 5), (9, -1)]);
}

#[test]
fn bitmap_misc() {
    let mut b1 = Bitmap::try_new_full().unwrap();
    assert!(b1.is_full());
    assert_eq!(None, b1.first_unset());
    assert_eq!(-1, b1.weight());
    b1.clear_range(3, 8).expect("failed to Bitmap::clear_range");
    b1.clear_range(43, 48).expect("failed to B::clear_range()");

    b1.zero();
    assert!(b1.is_empty());
    assert_eq!(b1.is_zero(), b1.is_empty());
    assert_eq!(None, b1.first());

    let mut b2 = b1.clone();
    b2.only(42).expect("failed to Bitmap::only()");
    b1.set(42).expect("failed to Bitmap::set()");
    assert_eq!(b1, b2);
    assert_eq!(1, b2.weight());
    assert_eq!(b1.weight(), b2.weight());
    assert!(b2.is_included(&b1));

    assert_eq!(42, b1.first().expect("failed to Bitmap::first()"));
    assert_eq!(0, b1.first_unset().expect("failed to Bitmap::first_unset"));
    assert_eq!(42, b1.last().expect("failed to B::last()"));
    assert_eq!(None, b1.last_unset());

    b1 = b2.dup();
    assert_eq!(b1, b2);

    b1.set_range(40, 45).expect("failed to Bitmap::set_range()");
    assert!(b1.is_set(42));

    b1.clear(42).expect("failed to Bitmap::clear()");
    assert!(!b1.is_set(42));

    b1.allbut(24).expect("failed to Bitmap::allbut()");
    assert_eq!(0, b1.first().expect("failed to Bitmap::first()"));
    assert_eq!(24, b1.first_unset().expect("failed to Bitmap::first_unset"));
    assert_eq!(None, b1.last());
    assert_eq!(24, b1.last_unset().expect("failed to Bitmap::last_unset()"));
}

#[test]
fn bitmap_not() {
    let mut b1 = Bitmap::try_new_empty().unwrap();
    set(&mut b1, TEST_RANGE, 3);
    let b2 = b1.not();
    for i in 0..TEST_RANGE {
        assert!(
            (b1.is_set(i) && !b2.is_set(i)) || (!b1.is_set(i) && b2.is_set(i)),
            "Bitmap's bitwise negation failed"
        );
    }

    b1.invert().expect("failed to Bitmap::invert()");
    assert_eq!(b1, b2);
}

#[test]
fn bitmap_and() {
    let mut b1 = Bitmap::try_new_empty().unwrap();
    set(&mut b1, TEST_RANGE, 3);

    let mut b2 = b1.not();
    let b3 = b1.bitand(&b2);
    b2.bitand_assign(&b1);
    assert_eq!(b2, b3, "bitwise-AND and &= do not produce the same bitmap!");
}

#[test]
fn bitmap_or() {
    let mut b1 = Bitmap::try_new_empty().unwrap();
    set(&mut b1, TEST_RANGE, 3);

    let mut b2 = b1.not();
    let b3 = b1.bitor(&b2);
    b2.bitor_assign(&b1);
    assert_eq!(b2, b3, "bitwise-OR and |= do not produce the same bitmap!");
}

#[test]
fn bitmap_xor() {
    let mut b1 = Bitmap::try_new_empty().unwrap();
    set(&mut b1, TEST_RANGE, 3);

    let mut b2 = b1.not();
    let b3 = b1.bitxor(&b2);
    b2.bitxor_assign(&b1);
    assert_eq!(b2, b3, "bitwise-OR and |= do not produce the same bitmap!");
}

#[test]
fn bitmap_weight_and_ranges() {
    let mut b = Bitmap::try_new_empty().unwrap();
    assert_eq!(0, b.weight());
    b.set_range(10, 19).expect("failed to Bitmap::set_range()");
    assert_eq!(10, b.weight());
    assert_eq!(Some(10), b.first());
    assert_eq!(Some(19), b.last());
    b.clear_range(12, 13).expect("failed to Bitmap::clear_range()");
    assert_eq!(8, b.weight());
    assert!(!b.is_set(12));
    assert!(!b.is_set(13));
    assert!(b.is_set(11));
    assert!(b.is_set(14));

    // An empty range leaves the bitmap unchanged.
    b.set_range(30, 20).expect("failed on an empty range");
    assert_eq!(8, b.weight());
}

#[test]
fn bitmap_infinite_ranges() {
    let mut b = Bitmap::try_new_empty().unwrap();
    b.set_range(100, -1).expect("failed to set an endless range");
    assert_eq!(-1, b.weight());
    assert!(b.is_set(100));
    assert!(b.is_set(1_000_000));
    assert!(!b.is_set(99));
    assert_eq!(Some(100), b.first());
    assert_eq!(None, b.last());
    assert_eq!(Some(99), b.last_unset());

    b.clear_range(200, -1).expect("failed to clear an endless range");
    assert!(b.is_set(199));
    assert!(!b.is_set(200));
    assert!(!b.is_set(5_000_000));
    assert_eq!(100, b.weight());
}

#[test]
fn bitmap_singlify() {
    let mut b = Bitmap::try_new_empty().unwrap();
    b.set(7).expect("failed to Bitmap::set()");
    b.set(9).expect("failed to Bitmap::set()");
    b.set(12).expect("failed to Bitmap::set()");
    b.singlify().expect("failed to Bitmap::singlify()");
    assert_eq!(1, b.weight());
    assert!(b.is_set(7));

    let mut e = Bitmap::try_new_empty().unwrap();
    e.singlify().expect("failed to Bitmap::singlify()");
    assert!(e.is_empty());

    let mut f = Bitmap::try_new_full().unwrap();
    f.singlify().expect("failed to Bitmap::singlify()");
    assert_eq!(1, f.weight());
    assert!(f.is_set(0));
}

#[test]
fn bitmap_from_ulong_and_next() {
    let mut b = Bitmap::try_new_empty().unwrap();
    b.from_ulong(0b1010_0001);
    assert!(b.is_set(0));
    assert!(b.is_set(5));
    assert!(b.is_set(7));
    assert_eq!(3, b.weight());

    assert_eq!(Some(0), b.next(-1));
    assert_eq!(Some(5), b.next(0));
    assert_eq!(Some(7), b.next(5));
    assert_eq!(None, b.next(7));
}

#[test]
fn bitmap_intersects_and_limits() {
    let mut a = Bitmap::try_new_empty().unwrap();
    let mut b = Bitmap::try_new_empty().unwrap();
    a.set(3).expect("failed to Bitmap::set()");
    b.set(4).expect("failed to Bitmap::set()");
    assert!(!a.intersects(b.dup()));
    b.set(3).expect("failed to Bitmap::set()");
    assert!(a.intersects(b.dup()));

    // Indexes past the storable limit are reported, and the bitmap is
    // unchanged.
    let r = a.set(Bitmap::INDEX_LIMIT);
    assert!(r.is_err());
    assert_eq!(1, a.weight());
}

#[test]
fn bitmap_singlify_unstorable() {
    // A bitmap set only from the storable limit on: its single index cannot
    // be stored. The stored words are grown up to the limit first, so that
    // the endless range starts exactly at the frontier.
    let mut b = Bitmap::try_new_empty().unwrap();
    b.set(Bitmap::INDEX_LIMIT - 1).expect("failed to Bitmap::set()");
    b.clear(Bitmap::INDEX_LIMIT - 1).expect("failed to Bitmap::clear()");
    b.set_range(Bitmap::INDEX_LIMIT, -1)
        .expect("failed to set an endless range at the frontier");
    assert_eq!(Some(0), b.first_unset());
    assert_eq!(Some(Bitmap::INDEX_LIMIT as i32), b.first());
    assert!(b.singlify().is_err());

    // Clearing an index past the limit of an infinitely set bitmap is
    // reported too.
    let mut f = Bitmap::try_new_full().unwrap();
    assert!(f.clear(Bitmap::INDEX_LIMIT).is_err());
    // Setting one there is a silent success: it is already set.
    assert!(f.set(Bitmap::INDEX_LIMIT).is_ok());

    // The endless iteration steps right past the stored words.
    assert_eq!(Some(0), f.next(-1));
    assert_eq!(Some(123_456_790), f.next(123_456_789));
}
