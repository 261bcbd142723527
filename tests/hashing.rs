use projection_pushdown::hashing::{_boost_hash_combine, folded_multiply, hash_to_partition, BytesHash, DirtyHash, HashPartitioner, RANDOM_ODD};

#[test]
fn folded_multiply_values() {
    assert_eq!(folded_multiply(0, 12345), 0);
    assert_eq!(folded_multiply(3, 5), 15);
    // 2^63 * 4 = 2^65: low half 0, high half 2.
    assert_eq!(folded_multiply(1u64 << 63, 4), 2);
}

#[test]
fn hash_to_partition_values() {
    assert_eq!(hash_to_partition(0, 8), 0);
    assert_eq!(hash_to_partition(u64::MAX, 8), 7);
    assert_eq!(hash_to_partition(1u64 << 63, 8), 4);
    assert_eq!(hash_to_partition(12345, 0), 0);
}

#[test]
fn partitioner_is_deterministic_and_in_range() {
    let p = HashPartitioner::new(16, 42);
    let q = HashPartitioner::new(16, 42);
    assert_eq!(p.num_partitions(), 16);
    assert_eq!(p.null_partition(), 0);
    for h in [0u64, 1, 999, u64::MAX, 1 << 40] {
        let a = p.hash_to_partition(h);
        assert!(a < 16);
        assert_eq!(a, q.hash_to_partition(h));
    }
}

#[test]
fn boost_combine_value() {
    // r + 0x9e3779b9 + (l << 6) + (r >> 2) with l = 1, r = 4: 4 + 0x9e3779b9 + 64 + 1
    assert_eq!(_boost_hash_combine(1, 4), 1 ^ (0x9e3779b9u64 + 69));
}

#[test]
fn dirty_hash_values() {
    assert_eq!(1u8.dirty_hash(), RANDOM_ODD);
    assert_eq!(0u64.dirty_hash(), 0);
    assert_eq!((-1i8).dirty_hash(), u64::MAX.wrapping_mul(RANDOM_ODD));
    assert_eq!((2i32).dirty_hash(), 2u64.wrapping_mul(RANDOM_ODD));
    assert_eq!((1i128 << 64).dirty_hash(), 1);
    assert_eq!(Some(3u16).dirty_hash(), 3u64.wrapping_mul(RANDOM_ODD));
    assert_eq!(None::<u32>.dirty_hash(), 0);
    let b = BytesHash::new(Some(&[1u8, 2][..]), 77);
    assert_eq!(b.dirty_hash(), 77);
    assert_eq!(b.hash(), 77);
    assert!(!b.is_null());
    assert!(BytesHash::new(None, 5).is_null());
}

#[test]
fn bytes_hash_equality() {
    let a = BytesHash::new(Some(&[1u8, 2][..]), 7);
    let b = BytesHash::new(Some(&[1u8, 2][..]), 7);
    let c = BytesHash::new(Some(&[1u8, 3][..]), 7);
    let d = BytesHash::new(Some(&[1u8, 2][..]), 8);
    assert!(a == b);
    assert!(a != c);
    assert!(a != d);
    assert!(BytesHash::new(None, 1) == BytesHash::new(None, 1));
    assert!(BytesHash::new(None, 1) != BytesHash::new(Some(&[][..]), 1));
}
