//! Row indices with a null marker, and (chunk, row) addresses packed into one
//! `u64`.
use vstd::prelude::*;
use vstd::string::StringExecFns;
use crate::fmt::{digits, push_digits};

verus! {

pub type IdxSize = u32;

/// An index where `IdxSize::MAX` stands for null.
#[derive(Clone, Copy, PartialEq, Eq, Structural, Debug)]
pub struct NullableIdxSize {
    pub inner: IdxSize,
}

impl NullableIdxSize {
    pub fn is_null_idx(&self) -> (res: bool)
        ensures
            res == (self.inner == IdxSize::MAX),
    {
        self.inner == IdxSize::MAX
    }

    pub fn null() -> (res: Self)
        ensures
            res.inner == IdxSize::MAX,
    {
        NullableIdxSize { inner: IdxSize::MAX }
    }

    pub fn idx(&self) -> (res: IdxSize)
        ensures
            res == self.inner,
    {
        self.inner
    }

    /// `None` for the null marker, the index otherwise.
    pub fn to_opt(&self) -> (res: Option<IdxSize>)
        ensures
            self.inner == IdxSize::MAX ==> res.is_none(),
            self.inner != IdxSize::MAX ==> res == Some(self.inner),
    {
        if self.is_null_idx() {
            None
        } else {
            Some(self.idx())
        }
    }
}

impl From<IdxSize> for NullableIdxSize {
    fn from(value: IdxSize) -> (res: Self) {
        NullableIdxSize { inner: value }
    }
}

impl vstd::std_specs::convert::FromSpecImpl<IdxSize> for NullableIdxSize {
    open spec fn obeys_from_spec() -> bool {
        true
    }

    open spec fn from_spec(v: IdxSize) -> Self {
        NullableIdxSize { inner: v }
    }
}

/// A collection with a length.
pub trait Bounded {
    spec fn spec_len(&self) -> nat;

    fn len(&self) -> (res: usize)
        ensures
            res == self.spec_len(),
    ;

    fn is_empty(&self) -> (res: bool)
        ensures
            res == (self.spec_len() == 0),
    ;
}

/// A collection that knows how many of its values are null.
pub trait NullCount {
    fn null_count(&self) -> usize;
}

impl<T> Bounded for &[T] {
    open spec fn spec_len(&self) -> nat {
        self@.len()
    }

    fn len(&self) -> (res: usize) {
        <[T]>::len(self)
    }

    fn is_empty(&self) -> (res: bool) {
        <[T]>::len(self) == 0
    }
}

impl<T> NullCount for &[T] {
    /// A plain slice holds no nulls.
    fn null_count(&self) -> (res: usize)
        ensures
            res == 0,
    {
        0
    }
}

/// Random access by position.
pub trait Indexable {
    type Item;

    spec fn spec_len(&self) -> nat;

    spec fn spec_get(&self, i: int) -> Self::Item;

    fn get(&self, i: usize) -> (res: Self::Item)
        requires
            i < self.spec_len(),
        ensures
            res == self.spec_get(i as int),
    ;
}

impl<T: Copy> Indexable for &[T] {
    type Item = T;

    open spec fn spec_len(&self) -> nat {
        self@.len()
    }

    open spec fn spec_get(&self, i: int) -> T {
        self@[i]
    }

    fn get(&self, i: usize) -> (res: T) {
        self[i]
    }
}

/// Checks that every index is below `len`.
pub fn check_bounds(idx: &[IdxSize], len: IdxSize) -> (res: Result<(), IndexError>)
    ensures
        res.is_ok() <==> forall|i: int| 0 <= i < idx@.len() ==> #[trigger] idx@[i] < len,
{
    let mut i: usize = 0;
    while i < idx.len()
        invariant
            i <= idx@.len(),
            forall|j: int| 0 <= j < i ==> #[trigger] idx@[j] < len,
        decreases idx@.len() - i,
    {
        if idx[i] >= len {
            return Err(IndexError::OutOfBounds);
        }
        i = i + 1;
    }
    Ok(())
}

/// Why a list of indices was rejected.
#[derive(Clone, Copy, PartialEq, Eq, Structural, Debug)]
pub enum IndexError {
    /// Some index is not below the length.
    OutOfBounds,
}

/// Conversion of a (possibly negative, counted from the end) position into an
/// index.
pub trait ToIdx: Sized {
    /// The conversion stays within the arithmetic of the type.
    spec fn to_idx_ok(self, len: u64) -> bool;

    spec fn spec_to_idx(self, len: u64) -> IdxSize;

    fn to_idx(self, len: u64) -> (res: IdxSize)
        requires
            self.to_idx_ok(len),
        ensures
            res == self.spec_to_idx(len),
    ;
}

impl ToIdx for u8 {
    open spec fn to_idx_ok(self, len: u64) -> bool {
        true
    }

    open spec fn spec_to_idx(self, len: u64) -> IdxSize {
        self as IdxSize
    }

    fn to_idx(self, len: u64) -> (res: IdxSize) {
        self as IdxSize
    }
}

impl ToIdx for u16 {
    open spec fn to_idx_ok(self, len: u64) -> bool {
        true
    }

    open spec fn spec_to_idx(self, len: u64) -> IdxSize {
        self as IdxSize
    }

    fn to_idx(self, len: u64) -> (res: IdxSize) {
        self as IdxSize
    }
}

impl ToIdx for u32 {
    open spec fn to_idx_ok(self, len: u64) -> bool {
        true
    }

    open spec fn spec_to_idx(self, len: u64) -> IdxSize {
        self as IdxSize
    }

    fn to_idx(self, len: u64) -> (res: IdxSize) {
        self as IdxSize
    }
}

impl ToIdx for u64 {
    open spec fn to_idx_ok(self, len: u64) -> bool {
        true
    }

    open spec fn spec_to_idx(self, len: u64) -> IdxSize {
        self as IdxSize
    }

    fn to_idx(self, len: u64) -> (res: IdxSize) {
        self as IdxSize
    }
}

impl ToIdx for i8 {
    open spec fn to_idx_ok(self, len: u64) -> bool {
        self < 0 ==> i16::MIN <= self + (len as i16) <= i16::MAX
    }

    open spec fn spec_to_idx(self, len: u64) -> IdxSize {
        if self < 0 {
            (self + (len as i16)) as IdxSize
        } else {
            self as IdxSize
        }
    }

    fn to_idx(self, len: u64) -> (res: IdxSize) {
        let idx = self as i16;
        if idx < 0 {
            (idx + len as i16) as IdxSize
        } else {
            idx as IdxSize
        }
    }
}

impl ToIdx for i16 {
    open spec fn to_idx_ok(self, len: u64) -> bool {
        self < 0 ==> i32::MIN <= self + (len as i32) <= i32::MAX
    }

    open spec fn spec_to_idx(self, len: u64) -> IdxSize {
        if self < 0 {
            (self + (len as i32)) as IdxSize
        } else {
            self as IdxSize
        }
    }

    fn to_idx(self, len: u64) -> (res: IdxSize) {
        let idx = self as i32;
        if idx < 0 {
            (idx + len as i32) as IdxSize
        } else {
            idx as IdxSize
        }
    }
}

impl ToIdx for i32 {
    open spec fn to_idx_ok(self, len: u64) -> bool {
        self < 0 ==> i64::MIN <= self + (len as i64) <= i64::MAX
    }

    open spec fn spec_to_idx(self, len: u64) -> IdxSize {
        if self < 0 {
            (self + (len as i64)) as IdxSize
        } else {
            self as IdxSize
        }
    }

    fn to_idx(self, len: u64) -> (res: IdxSize) {
        let idx = self as i64;
        if idx < 0 {
            (idx + len as i64) as IdxSize
        } else {
            idx as IdxSize
        }
    }
}

impl ToIdx for i64 {
    open spec fn to_idx_ok(self, len: u64) -> bool {
        self < 0 ==> i64::MIN <= self + (len as i64) <= i64::MAX
    }

    open spec fn spec_to_idx(self, len: u64) -> IdxSize {
        if self < 0 {
            (self + (len as i64)) as IdxSize
        } else {
            self as IdxSize
        }
    }

    fn to_idx(self, len: u64) -> (res: IdxSize) {
        let idx = self as i64;
        if idx < 0 {
            (idx + len as i64) as IdxSize
        } else {
            idx as IdxSize
        }
    }
}

/// Leaves 2^24 chunks and 2^40 rows per chunk.
pub const DEFAULT_CHUNK_BITS: u64 = 24;

/// A (chunk, row) address: the row in the high bits, the chunk in the low
/// `CHUNK_BITS` bits; all ones is null.
#[derive(Clone, Copy)]
pub struct ChunkId<const CHUNK_BITS: u64> {
    swizzled: u64,
}

proof fn lemma_shift_positive(bits: u64)
    requires
        bits < 64,
    ensures
        1u64 << bits >= 1u64,
{
    assert(1u64 << bits >= 1u64) by (bit_vector)
        requires
            bits < 64,
    ;
}

/// The low `bits` bits set.
pub open spec fn chunk_mask(bits: u64) -> u64 {
    ((1u64 << bits) - 1u64) as u64
}

/// The packed form of (`chunk`, `row`).
pub open spec fn swizzle(chunk: IdxSize, row: IdxSize, bits: u64) -> u64 {
    ((row as u64) << bits) | (chunk as u64)
}

impl<const CHUNK_BITS: u64> ChunkId<CHUNK_BITS> {
    pub closed spec fn spec_swizzled(&self) -> u64 {
        self.swizzled
    }

    pub fn null() -> (res: Self)
        ensures
            res.spec_swizzled() == u64::MAX,
    {
        ChunkId { swizzled: u64::MAX }
    }

    pub fn is_null(&self) -> (res: bool)
        ensures
            res == (self.spec_swizzled() == u64::MAX),
    {
        self.swizzled == u64::MAX
    }

    /// Packs `chunk` and `row`; `chunk` must fit in the chunk bits.
    pub fn store(chunk: IdxSize, row: IdxSize) -> (res: Self)
        requires
            CHUNK_BITS < 64,
            (chunk as u64) < (1u64 << CHUNK_BITS),
        ensures
            res.spec_swizzled() == swizzle(chunk, row, CHUNK_BITS),
    {
        let swizzled = ((row as u64) << CHUNK_BITS) | chunk as u64;
        ChunkId { swizzled }
    }

    /// Unpacks into (chunk, row).
    pub fn extract(self) -> (res: (IdxSize, IdxSize))
        requires
            CHUNK_BITS < 64,
        ensures
            res.0 == (self.spec_swizzled() & chunk_mask(CHUNK_BITS)) as IdxSize,
            res.1 == (self.spec_swizzled() >> CHUNK_BITS) as IdxSize,
    {
        let row = (self.swizzled >> CHUNK_BITS) as IdxSize;
        proof {
            lemma_shift_positive(CHUNK_BITS);
        }
        let mask = (1u64 << CHUNK_BITS) - 1;
        let chunk = (self.swizzled & mask) as IdxSize;
        (chunk, row)
    }

    /// `NULL`, or `(chunk, row)`.
    pub fn debug_text(&self) -> (res: String)
        requires
            CHUNK_BITS < 64,
        ensures
            self.spec_swizzled() == u64::MAX ==> res@ == seq!['N', 'U', 'L', 'L'],
            self.spec_swizzled() != u64::MAX ==> res@ == seq!['('] + digits(
                ((self.spec_swizzled() & chunk_mask(CHUNK_BITS)) as IdxSize) as nat,
            ) + seq![',', ' '] + digits(((self.spec_swizzled() >> CHUNK_BITS) as IdxSize) as nat)
                + seq![')'],
    {
        proof {
            reveal_strlit("NULL");
            reveal_strlit("(");
            reveal_strlit(", ");
            reveal_strlit(")");
        }
        let mut s = String::new();
        if self.is_null() {
            s.append("NULL");
            assert(s@ =~= seq!['N', 'U', 'L', 'L']);
        } else {
            let (chunk, row) = self.extract();
            s.append("(");
            push_digits(&mut s, chunk as u64);
            s.append(", ");
            push_digits(&mut s, row as u64);
            s.append(")");
            assert(s@ =~= seq!['('] + digits(chunk as nat) + seq![',', ' '] + digits(row as nat) + seq![')']);
        }
        s
    }

    pub fn set_inner(&mut self, inner: u64)
        ensures
            final(self).spec_swizzled() == inner,
    {
        self.swizzled = inner;
    }

    pub fn from_inner(inner: u64) -> (res: Self)
        ensures
            res.spec_swizzled() == inner,
    {
        ChunkId { swizzled: inner }
    }

    pub fn into_inner(self) -> (res: u64)
        ensures
            res == self.spec_swizzled(),
    {
        self.swizzled
    }
}

/// Unpacking a stored address gives back its chunk and row, as long as the
/// chunk fits in the chunk bits and the row in the rest.
pub proof fn law_store_extract(chunk: IdxSize, row: IdxSize, bits: u64)
    requires
        bits <= 32,
        (chunk as u64) < (1u64 << bits),
    ensures
        (swizzle(chunk, row, bits) & chunk_mask(bits)) as IdxSize == chunk,
        (swizzle(chunk, row, bits) >> bits) as IdxSize == row,
{
    let c = chunk as u64;
    let r = row as u64;
    assert((((r << bits) | c) & (((1u64 << bits) - 1u64) as u64)) == c) by (bit_vector)
        requires
            bits <= 32,
            c < (1u64 << bits),
    ;
    assert((((r << bits) | c) >> bits) == r) by (bit_vector)
        requires
            bits <= 32,
            c < (1u64 << bits),
            r < 0x1_0000_0000,
    ;
}

} // verus!
