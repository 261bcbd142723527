//! Hash combining, hash-to-partition mapping and the quick "dirty" hash.
use vstd::prelude::*;

verus! {

/// 2^64, the modulus of `u64` arithmetic.
pub open spec fn two_pow_64() -> int {
    0x1_0000_0000_0000_0000
}

/// Boost's hash combine, `l ^ (r + 0x9e3779b9 + (l << 6) + (r >> 2))` in
/// wrapping `u64` arithmetic.
pub open spec fn boost_hash_combine_spec(l: u64, r: u64) -> u64 {
    let inner = vstd::wrapping::u64_specs::wrapping_add(0x9e3779b9u64, (l << 6u64) as u64);
    let inner = vstd::wrapping::u64_specs::wrapping_add(inner, r >> 2u64);
    l ^ vstd::wrapping::u64_specs::wrapping_add(r, inner)
}

/// Combines two hashes the way C++'s boost does.
pub fn _boost_hash_combine(l: u64, r: u64) -> (res: u64)
    ensures
        res == boost_hash_combine_spec(l, r),
{
    l ^ r.wrapping_add(0x9e3779b9u64.wrapping_add(l << 6).wrapping_add(r >> 2))
}

/// The full 128-bit product of `a` and `b`, folded: its low half xor its high half.
pub open spec fn folded_multiply_spec(a: u64, b: u64) -> u64 {
    let full = a as int * b as int;
    ((full % two_pow_64()) as u64) ^ ((full / two_pow_64()) as u64)
}

/// Multiplies `a` by `b` in 128 bits and xors the two 64-bit halves.
pub fn folded_multiply(a: u64, b: u64) -> (res: u64)
    ensures
        res == folded_multiply_spec(a, b),
{
    assert(a as int * b as int <= 0xffff_ffff_ffff_ffff * 0xffff_ffff_ffff_ffff) by (nonlinear_arith)
        requires
            a <= 0xffff_ffff_ffff_ffff,
            b <= 0xffff_ffff_ffff_ffff,
    ;
    let full: u128 = (a as u128) * (b as u128);
    let lo: u64 = (full % 0x1_0000_0000_0000_0000u128) as u64;
    let hi: u64 = (full / 0x1_0000_0000_0000_0000u128) as u64;
    assert(full as u64 == lo) by (bit_vector)
        requires
            lo == (full % 0x1_0000_0000_0000_0000u128) as u64,
    ;
    assert(full >> 64u128 == full / 0x1_0000_0000_0000_0000u128) by (bit_vector);
    (full as u64) ^ ((full >> 64) as u64)
}

/// The partition of `h` among `n` partitions: `floor(h * n / 2^64)`.
pub open spec fn partition_of(h: u64, n: usize) -> int {
    (h as int * n as int) / two_pow_64()
}

proof fn lemma_partition_bound(h: u64, n: usize)
    requires
        n > 0,
    ensures
        0 <= partition_of(h, n) < n,
{
    assert(h as int * n as int >= 0) by (nonlinear_arith);
    assert((h as int * n as int) < two_pow_64() * (n as int)) by (nonlinear_arith)
        requires
            h < two_pow_64(),
            n > 0,
    ;
    assert((h as int * n as int) / two_pow_64() < (n as int)) by (nonlinear_arith)
        requires
            (h as int * n as int) < two_pow_64() * (n as int),
            two_pow_64() > 0,
    ;
    assert(0 <= (h as int * n as int) / two_pow_64()) by (nonlinear_arith)
        requires
            h as int * n as int >= 0,
            two_pow_64() > 0,
    ;
}

fn scale_to_partition(h: u64, n: usize) -> (res: usize)
    requires
        n > 0,
    ensures
        res == partition_of(h, n),
        res < n,
{
    proof {
        lemma_partition_bound(h, n);
    }
    assert(h as int * n as int <= 0xffff_ffff_ffff_ffff * 0xffff_ffff_ffff_ffff) by (nonlinear_arith)
        requires
            h <= 0xffff_ffff_ffff_ffff,
            n <= 0xffff_ffff_ffff_ffff,
    ;
    let full: u128 = (h as u128) * (n as u128);
    assert(full >> 64u128 == full / 0x1_0000_0000_0000_0000u128) by (bit_vector);
    (full >> 64) as usize
}

/// Maps a (roughly uniform) 64-bit hash onto `[0, n_partitions)` by
/// multiply-high.
pub fn hash_to_partition(h: u64, n_partitions: usize) -> (res: usize)
    ensures
        res == partition_of(h, n_partitions),
        n_partitions > 0 ==> res < n_partitions,
        n_partitions == 0 ==> res == 0,
{
    if n_partitions == 0 {
        assert(h as int * 0 == 0);
        0
    } else {
        scale_to_partition(h, n_partitions)
    }
}

pub const ARBITRARY1: u64 = 0x85921e81c41226a0;

pub const ARBITRARY2: u64 = 0x3bc1d0faba166294;

pub const ARBITRARY3: u64 = 0xfbde893e21a73756;

/// The seed a partitioner actually multiplies by: the user's seed mixed twice
/// and made odd.
pub open spec fn mixed_seed(seed: u64) -> u64 {
    folded_multiply_spec(folded_multiply_spec(seed ^ ARBITRARY1, ARBITRARY2), ARBITRARY3) | 1u64
}

/// Spreads hashes over a fixed number of partitions, after shuffling them with
/// a seed.
#[derive(Clone)]
pub struct HashPartitioner {
    num_partitions: usize,
    seed: u64,
}

impl HashPartitioner {
    pub closed spec fn spec_num_partitions(&self) -> usize {
        self.num_partitions
    }

    pub closed spec fn spec_seed(&self) -> u64 {
        self.seed
    }

    /// At least one partition.
    pub open spec fn wf(&self) -> bool {
        self.spec_num_partitions() > 0
    }

    /// Creates a partitioner over `num_partitions` partitions; equal
    /// arguments give equal partitioners.
    pub fn new(num_partitions: usize, seed: u64) -> (res: Self)
        requires
            num_partitions > 0,
        ensures
            res.wf(),
            res.spec_num_partitions() == num_partitions,
            res.spec_seed() == mixed_seed(seed),
    {
        let mut seed = seed;
        seed = folded_multiply(seed ^ ARBITRARY1, ARBITRARY2);
        seed = folded_multiply(seed, ARBITRARY3);
        seed = seed | 1;
        HashPartitioner { num_partitions, seed }
    }

    /// The partition of `hash`: the hash times the seed (wrapping), scaled onto
    /// `[0, num_partitions)`.
    pub fn hash_to_partition(&self, hash: u64) -> (res: usize)
        requires
            self.wf(),
        ensures
            res == partition_of(
                vstd::wrapping::u64_specs::wrapping_mul(hash, self.spec_seed()),
                self.spec_num_partitions(),
            ),
            res < self.spec_num_partitions(),
    {
        let shuffled = hash.wrapping_mul(self.seed);
        scale_to_partition(shuffled, self.num_partitions)
    }

    /// The partition nulls are put into.
    pub fn null_partition(&self) -> (res: usize)
        ensures
            res == 0,
    {
        0
    }

    pub fn num_partitions(&self) -> (res: usize)
        ensures
            res == self.spec_num_partitions(),
    {
        self.num_partitions
    }
}

/// A byte string (or null) together with a hash computed for it once, so
/// that rehashing only rehashes the hash.
#[derive(Clone, Copy, Debug)]
pub struct BytesHash<'a> {
    payload: Option<&'a [u8]>,
    hash: u64,
}

impl<'a> BytesHash<'a> {
    pub closed spec fn spec_payload(&self) -> Option<Seq<u8>> {
        match self.payload {
            Some(p) => Some(p@),
            None => None,
        }
    }

    pub closed spec fn spec_hash(&self) -> u64 {
        self.hash
    }

    pub fn new(s: Option<&'a [u8]>, hash: u64) -> (res: Self)
        ensures
            res.spec_hash() == hash,
            res.spec_payload() == match s {
                Some(p) => Some(p@),
                None => None::<Seq<u8>>,
            },
    {
        BytesHash { payload: s, hash }
    }

    pub fn is_null(&self) -> (res: bool)
        ensures
            res == self.spec_payload().is_none(),
    {
        self.payload.is_none()
    }

    pub fn hash(&self) -> (res: u64)
        ensures
            res == self.spec_hash(),
    {
        self.hash
    }
}

pub(crate) fn bytes_equal(a: &[u8], b: &[u8]) -> (res: bool)
    ensures
        res == (a@ == b@),
{
    if a.len() != b.len() {
        return false;
    }
    let mut i: usize = 0;
    while i < a.len()
        invariant
            a@.len() == b@.len(),
            i <= a@.len(),
            forall|j: int| 0 <= j < i ==> a@[j] == b@[j],
        decreases a@.len() - i,
    {
        if a[i] != b[i] {
            return false;
        }
        i = i + 1;
    }
    assert(a@ =~= b@);
    true
}

impl<'a> PartialEq for BytesHash<'a> {
    fn eq(&self, other: &Self) -> (res: bool) {
        if self.hash != other.hash {
            return false;
        }
        match (self.payload, other.payload) {
            (Some(a), Some(b)) => bytes_equal(a, b),
            (None, None) => true,
            _ => false,
        }
    }
}

impl<'a> vstd::std_specs::cmp::PartialEqSpecImpl for BytesHash<'a> {
    open spec fn obeys_eq_spec() -> bool {
        true
    }

    open spec fn eq_spec(&self, other: &Self) -> bool {
        self.spec_hash() == other.spec_hash() && self.spec_payload() == other.spec_payload()
    }
}

/// Multiplying by this odd constant makes the top bits a universal hash.
pub const RANDOM_ODD: u64 = 0x55fbfd6bfc5458e9;

/// A quick hash whose top bits are good enough for [`hash_to_partition`].
pub trait DirtyHash {
    spec fn spec_dirty_hash(&self) -> u64;

    fn dirty_hash(&self) -> (res: u64)
        ensures
            res == self.spec_dirty_hash(),
    ;
}

impl DirtyHash for u8 {
    open spec fn spec_dirty_hash(&self) -> u64 {
        vstd::wrapping::u64_specs::wrapping_mul(*self as u64, RANDOM_ODD)
    }

    fn dirty_hash(&self) -> (res: u64) {
        (*self as u64).wrapping_mul(RANDOM_ODD)
    }
}

impl DirtyHash for u16 {
    open spec fn spec_dirty_hash(&self) -> u64 {
        vstd::wrapping::u64_specs::wrapping_mul(*self as u64, RANDOM_ODD)
    }

    fn dirty_hash(&self) -> (res: u64) {
        (*self as u64).wrapping_mul(RANDOM_ODD)
    }
}

impl DirtyHash for u32 {
    open spec fn spec_dirty_hash(&self) -> u64 {
        vstd::wrapping::u64_specs::wrapping_mul(*self as u64, RANDOM_ODD)
    }

    fn dirty_hash(&self) -> (res: u64) {
        (*self as u64).wrapping_mul(RANDOM_ODD)
    }
}

impl DirtyHash for u64 {
    open spec fn spec_dirty_hash(&self) -> u64 {
        vstd::wrapping::u64_specs::wrapping_mul(*self as u64, RANDOM_ODD)
    }

    fn dirty_hash(&self) -> (res: u64) {
        (*self as u64).wrapping_mul(RANDOM_ODD)
    }
}

impl DirtyHash for i8 {
    open spec fn spec_dirty_hash(&self) -> u64 {
        vstd::wrapping::u64_specs::wrapping_mul(*self as u64, RANDOM_ODD)
    }

    fn dirty_hash(&self) -> (res: u64) {
        (*self as u64).wrapping_mul(RANDOM_ODD)
    }
}

impl DirtyHash for i16 {
    open spec fn spec_dirty_hash(&self) -> u64 {
        vstd::wrapping::u64_specs::wrapping_mul(*self as u64, RANDOM_ODD)
    }

    fn dirty_hash(&self) -> (res: u64) {
        (*self as u64).wrapping_mul(RANDOM_ODD)
    }
}

impl DirtyHash for i32 {
    open spec fn spec_dirty_hash(&self) -> u64 {
        vstd::wrapping::u64_specs::wrapping_mul(*self as u64, RANDOM_ODD)
    }

    fn dirty_hash(&self) -> (res: u64) {
        (*self as u64).wrapping_mul(RANDOM_ODD)
    }
}

impl DirtyHash for i64 {
    open spec fn spec_dirty_hash(&self) -> u64 {
        vstd::wrapping::u64_specs::wrapping_mul(*self as u64, RANDOM_ODD)
    }

    fn dirty_hash(&self) -> (res: u64) {
        (*self as u64).wrapping_mul(RANDOM_ODD)
    }
}

impl DirtyHash for i128 {
    open spec fn spec_dirty_hash(&self) -> u64 {
        vstd::wrapping::u64_specs::wrapping_add(
            vstd::wrapping::u64_specs::wrapping_mul(*self as u64, RANDOM_ODD),
            (*self >> 64u32) as u64,
        )
    }

    fn dirty_hash(&self) -> (res: u64) {
        (*self as u64).wrapping_mul(RANDOM_ODD).wrapping_add((*self >> 64u32) as u64)
    }
}

impl<'a> DirtyHash for BytesHash<'a> {
    /// The precomputed hash.
    open spec fn spec_dirty_hash(&self) -> u64 {
        self.spec_hash()
    }

    fn dirty_hash(&self) -> (res: u64) {
        self.hash
    }
}

impl<T: DirtyHash> DirtyHash for Option<T> {
    /// Null hashes to zero.
    open spec fn spec_dirty_hash(&self) -> u64 {
        match self {
            Some(v) => v.spec_dirty_hash(),
            None => 0,
        }
    }

    fn dirty_hash(&self) -> (res: u64) {
        match self {
            Some(v) => v.dirty_hash(),
            None => 0,
        }
    }
}

} // verus!
