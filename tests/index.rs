use projection_pushdown::index::{check_bounds, ChunkId, IndexError, NullableIdxSize, ToIdx, DEFAULT_CHUNK_BITS};

#[test]
fn test_chunk_idx() {
    let chunk = 213908;
    let row = 813457;

    let ci: ChunkId<DEFAULT_CHUNK_BITS> = ChunkId::store(chunk, row);
    let (c, r) = ci.extract();

    assert_eq!(c, chunk);
    assert_eq!(r, row);
}

#[test]
fn chunk_id_null_and_raw() {
    let n: ChunkId<DEFAULT_CHUNK_BITS> = ChunkId::null();
    assert!(n.is_null());
    let ci: ChunkId<DEFAULT_CHUNK_BITS> = ChunkId::store(3, 5);
    assert_eq!(ci.into_inner(), (5u64 << 24) | 3);
    let back: ChunkId<DEFAULT_CHUNK_BITS> = ChunkId::from_inner((5u64 << 24) | 3);
    assert_eq!(back.extract(), (3, 5));
    let mut m = back;
    m.set_inner(u64::MAX);
    assert!(m.is_null());
}

#[test]
fn nullable_idx() {
    assert_eq!(NullableIdxSize::null().to_opt(), None);
    assert!(NullableIdxSize::null().is_null_idx());
    let i = NullableIdxSize::from(7u32);
    assert_eq!(i.idx(), 7);
    assert_eq!(i.to_opt(), Some(7));
}

#[test]
fn bounds_and_negative_indices() {
    assert_eq!(check_bounds(&[0, 4, 2], 5), Ok(()));
    assert_eq!(check_bounds(&[0, 5, 2], 5), Err(IndexError::OutOfBounds));
    assert_eq!(check_bounds(&[], 0), Ok(()));
    assert_eq!((-1i32).to_idx(10), 9);
    assert_eq!((-3i8).to_idx(3), 0);
    assert_eq!(4u16.to_idx(10), 4);
}

#[test]
fn chunk_id_text() {
    let n: ChunkId<DEFAULT_CHUNK_BITS> = ChunkId::null();
    assert_eq!(n.debug_text(), "NULL");
    let ci: ChunkId<DEFAULT_CHUNK_BITS> = ChunkId::store(12, 345);
    assert_eq!(ci.debug_text(), "(12, 345)");
}
