use hyperloglog::HyperLogLog;

#[test]
fn test_scratch() {
    let mut obj = HyperLogLog::<String>::new(1);
    assert_eq!(obj.get_cardinality(), 0);
    obj.add_elem("Welcome to CMU DB (15-445/645)".to_string());

    obj.compute_cardinality();

    let ans = obj.get_cardinality();
    assert_eq!(ans, 2);
}

#[test]
fn basic_test1() {
    let mut obj = HyperLogLog::<String>::new(1);
    assert_eq!(obj.get_cardinality(), 0);
    obj.add_elem("Welcome to CMU DB (15-445/645)".to_string());

    obj.compute_cardinality();

    let ans = obj.get_cardinality();
    assert_eq!(ans, 2);

    for i in 0..10u64 {
        obj.add_elem("Andy".to_string());
        obj.add_elem("Connor".to_string());
        obj.add_elem("J-How".to_string());
        obj.add_elem("Kunle".to_string());
        obj.add_elem("Lan".to_string());
        obj.add_elem("Prashanth".to_string());
        obj.add_elem("William".to_string());
        obj.add_elem("Yash".to_string());
        obj.add_elem("Yuanxin".to_string());
        if i == 0 {
            obj.compute_cardinality();
            let ans = obj.get_cardinality();
            assert_eq!(ans, 6);
        }
    }

    obj.compute_cardinality();
    let ans = obj.get_cardinality();
    assert_eq!(ans, 6);
}

#[test]
fn basic_test2() {
    let mut obj = HyperLogLog::<i64>::new(3);

    assert_eq!(obj.get_cardinality(), 0);

    obj.add_elem(0);

    obj.compute_cardinality();
    let ans = obj.get_cardinality();

    assert_eq!(ans, 7);

    for i in 0..10u64 {
        obj.add_elem(10);
        obj.add_elem(122);
        obj.add_elem(200);
        obj.add_elem(911);
        obj.add_elem(999);
        obj.add_elem(1402);
        obj.add_elem(15445);
        obj.add_elem(15645);
        obj.add_elem(123456);
        obj.add_elem(312457);
        if i == 0 {
            obj.compute_cardinality();
            let ans = obj.get_cardinality();
            assert_eq!(ans, 10);
        }
    }

    for i in 0..10u64 {
        obj.add_elem(-1);
        obj.add_elem(-2);
        obj.add_elem(-3);
        obj.add_elem(-4);
        obj.add_elem(-5);
        obj.add_elem(-6);
        obj.add_elem(-7);
        obj.add_elem(-8);
        obj.add_elem(-9);
        obj.add_elem(-27);
        if i == 0 {
            obj.compute_cardinality();
            let ans = obj.get_cardinality();
            assert_eq!(ans, 10);
        }
    }
    obj.compute_cardinality();
    let ans = obj.get_cardinality();
    assert_eq!(ans, 10);
}

#[test]
fn edge_test1() {
    let mut obj = HyperLogLog::<i64>::new(-2);
    obj.compute_cardinality();
    assert_eq!(obj.get_cardinality(), 0);
}

#[test]
fn edge_test2() {
    let mut obj = HyperLogLog::<i64>::new(0);
    obj.compute_cardinality();
    assert_eq!(obj.get_cardinality(), 0);

    obj.add_elem(1);
    obj.compute_cardinality();
    assert_eq!(obj.get_cardinality(), 1665180);

    obj.add_elem(-1);
    obj.compute_cardinality();
    assert_eq!(obj.get_cardinality(), 1665180);
}

// The estimate is only cached: it stays 0 after insertions until an
// explicit recomputation.
#[test]
fn cardinality_stays_cached_until_computed() {
    let mut obj = HyperLogLog::<i64>::new(2);
    obj.add_elem(42);
    obj.add_elem(-7);
    assert_eq!(obj.get_cardinality(), 0);
    obj.compute_cardinality();
    let first = obj.get_cardinality();
    obj.add_elem(123456789);
    assert_eq!(obj.get_cardinality(), first);
}

// Re-ordering a batch of insertions leaves the same estimate.
#[test]
fn insertion_order_does_not_matter() {
    let keys = [3i64, 1402, -9, 15445, 122, 0, -1];
    let mut forward = HyperLogLog::<i64>::new(3);
    for k in keys {
        forward.add_elem(k);
    }
    let mut backward = HyperLogLog::<i64>::new(3);
    for k in keys.into_iter().rev() {
        backward.add_elem(k);
    }
    forward.compute_cardinality();
    backward.compute_cardinality();
    assert_eq!(forward.get_cardinality(), backward.get_cardinality());
}

// A negative exponent is a degenerate but valid configuration: the
// estimate is 0 no matter what is inserted.
#[test]
fn negative_exponent_is_always_zero() {
    let mut obj = HyperLogLog::<String>::new(-5);
    obj.compute_cardinality();
    assert_eq!(obj.get_cardinality(), 0);
    obj.add_elem("Andy".to_string());
    obj.add_elem("Connor".to_string());
    obj.compute_cardinality();
    assert_eq!(obj.get_cardinality(), 0);
}

// Inserting one key many times gives the estimate of inserting it once.
#[test]
fn repeated_insert_matches_single_insert() {
    let mut once = HyperLogLog::<String>::new(3);
    once.add_elem("Lan".to_string());
    once.compute_cardinality();

    let mut many = HyperLogLog::<String>::new(3);
    for _ in 0..25 {
        many.add_elem("Lan".to_string());
    }
    many.compute_cardinality();

    assert_eq!(once.get_cardinality(), many.get_cardinality());
}

// Ten insertions of the same string, serialized as an external lock
// would serialize ten concurrent writers, land in the same registers as
// a single insertion.
#[test]
fn serialized_writers_collapse_to_one_key() {
    let mut obj = HyperLogLog::<String>::new(1);
    for _ in 0..10 {
        obj.add_elem("Welcome to CMU DB (15-445/645)".to_string());
    }
    obj.compute_cardinality();
    assert_eq!(obj.get_cardinality(), 2);
}

// A large register array: ten equal strings touch one bucket, and
// 3000 repeated rounds of four names touch only four more, however
// often they repeat.
#[test]
fn large_register_array_serialized_inserts() {
    let mut obj = HyperLogLog::<String>::new(14);
    for _ in 0..10 {
        obj.add_elem("Welcome to CMU DB (15-445/645)".to_string());
    }
    obj.compute_cardinality();
    assert_eq!(obj.get_cardinality(), 13009);

    for _ in 0..3000 {
        for name in ["Andy", "Connor", "J-How", "Kunle"] {
            obj.add_elem(name.to_string());
        }
    }
    obj.compute_cardinality();
    assert_eq!(obj.get_cardinality(), 13012);
}

// Keys of every supported primitive type can be inserted, and equal
// streams give equal estimates.
#[test]
fn all_key_types_insert_deterministically() {
    let mut first = HyperLogLog::<i8>::new(2);
    first.add_elem(-3i8);
    first.add_elem(100i8);
    first.compute_cardinality();

    let mut second = HyperLogLog::<i8>::new(2);
    second.add_elem(-3i8);
    second.add_elem(100i8);
    second.compute_cardinality();
    assert_eq!(first.get_cardinality(), second.get_cardinality());

    let mut small = HyperLogLog::<i16>::new(2);
    small.add_elem(-300i16);
    let mut ints = HyperLogLog::<i32>::new(2);
    ints.add_elem(70000i32);
    let mut flags = HyperLogLog::<bool>::new(2);
    flags.add_elem(true);
    flags.add_elem(false);
    let mut stamps = HyperLogLog::<u64>::new(2);
    stamps.add_elem(1700000000u64);
    small.compute_cardinality();
    ints.compute_cardinality();
    flags.compute_cardinality();
    stamps.compute_cardinality();
}

// A narrow integer key hashes like the same value widened to 64 bits:
// the byte serialization is the widened two's-complement pattern.
#[test]
fn narrow_keys_hash_as_widened() {
    let mut narrow = HyperLogLog::<i8>::new(4);
    narrow.add_elem(-27i8);
    narrow.compute_cardinality();

    let mut wide = HyperLogLog::<i64>::new(4);
    wide.add_elem(-27i64);
    wide.compute_cardinality();

    assert_eq!(narrow.get_cardinality(), wide.get_cardinality());
}
