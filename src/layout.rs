//! The byte layout of a page, as spec functions over its bytes.
//!
//! ```text
//! | type | n_keys |   pointers   |   offsets   | k-v records |
//! |  2B  |   2B   |  n_keys * 8B | n_keys * 2B |  ...        |
//!
//! record: | k_len | v_len | key | val |
//!         |   2B  |   2B  | ... | ... |
//! ```
//!
//! All integers are little-endian. The offset of record 0 is implicitly 0; the
//! table holds the offsets of records 1 to n_keys, the last one being the end of
//! the final record.
use vstd::prelude::*;

verus! {

/// Size in bytes of a page.
pub const BTREE_PAGE_SIZE: usize = 4096;

/// Size in bytes of the fixed header (type and key count).
pub const HEADER: usize = 4;

/// Largest key a record may hold.
pub const BTREE_MAX_KEY_SIZE: usize = 1000;

/// Largest value a record may hold.
pub const BTREE_MAX_VAL_SIZE: usize = 3000;

/// Tag of an internal node.
pub const INTERNAL_TAG: u16 = 1;

/// Tag of a leaf node.
pub const LEAF_TAG: u16 = 2;

/// Little-endian 16-bit integer at byte `p`.
pub open spec fn u16_at(s: Seq<u8>, p: int) -> int {
    s[p] as int + 256 * (s[p + 1] as int)
}

/// The 64-bit integer whose little-endian bytes are `b0` .. `b7`.
pub open spec fn u64_from_bytes(
    b0: u8,
    b1: u8,
    b2: u8,
    b3: u8,
    b4: u8,
    b5: u8,
    b6: u8,
    b7: u8,
) -> u64 {
    (b0 as u64) | ((b1 as u64) << 8u64) | ((b2 as u64) << 16u64) | ((b3 as u64) << 24u64) | ((
    b4 as u64) << 32u64) | ((b5 as u64) << 40u64) | ((b6 as u64) << 48u64) | ((b7 as u64)
        << 56u64)
}

/// Little-endian 64-bit integer at byte `p`.
pub open spec fn u64_at(s: Seq<u8>, p: int) -> u64 {
    u64_from_bytes(s[p], s[p + 1], s[p + 2], s[p + 3], s[p + 4], s[p + 5], s[p + 6], s[p + 7])
}

/// The node type tag.
pub open spec fn tag(s: Seq<u8>) -> int {
    u16_at(s, 0)
}

/// The number of keys.
pub open spec fn nkeys(s: Seq<u8>) -> int {
    u16_at(s, 2)
}

/// Byte position of child pointer `i`.
pub open spec fn ptr_pos(s: Seq<u8>, i: int) -> int {
    HEADER + 8 * i
}

/// Child pointer `i`.
pub open spec fn ptr(s: Seq<u8>, i: int) -> u64 {
    u64_at(s, ptr_pos(s, i))
}

/// Byte position of the offset-table entry for slot `i` (`1 <= i <= n_keys`).
pub open spec fn offset_pos(s: Seq<u8>, i: int) -> int {
    HEADER + 8 * nkeys(s) + 2 * (i - 1)
}

/// Offset of record `i` from the start of the record area.
pub open spec fn offset(s: Seq<u8>, i: int) -> int {
    if i == 0 {
        0
    } else {
        u16_at(s, offset_pos(s, i))
    }
}

/// First byte of the record area.
pub open spec fn records_start(s: Seq<u8>) -> int {
    HEADER + 10 * nkeys(s)
}

/// Byte position of record `i`; for `i == n_keys`, the end of the last record.
pub open spec fn kv_pos(s: Seq<u8>, i: int) -> int {
    records_start(s) + offset(s, i)
}

/// Key length of record `i`.
pub open spec fn key_len(s: Seq<u8>, i: int) -> int {
    u16_at(s, kv_pos(s, i))
}

/// Value length of record `i`.
pub open spec fn val_len(s: Seq<u8>, i: int) -> int {
    u16_at(s, kv_pos(s, i) + 2)
}

/// Key bytes of record `i`.
pub open spec fn key(s: Seq<u8>, i: int) -> Seq<u8> {
    s.subrange(kv_pos(s, i) + 4, kv_pos(s, i) + 4 + key_len(s, i))
}

/// Value bytes of record `i`.
pub open spec fn value(s: Seq<u8>, i: int) -> Seq<u8> {
    let start = kv_pos(s, i) + 4 + key_len(s, i);
    s.subrange(start, start + val_len(s, i))
}

/// Encoded length of record `i`.
pub open spec fn record_len(s: Seq<u8>, i: int) -> int {
    4 + key_len(s, i) + val_len(s, i)
}

/// Sum of the encoded lengths of records `0 .. m`.
pub open spec fn stored_size(s: Seq<u8>, m: int) -> int
    decreases m,
{
    if m <= 0 {
        0
    } else {
        stored_size(s, m - 1) + record_len(s, m - 1)
    }
}

/// Header, pointer array and offset table lie inside the page.
pub open spec fn table_fits(s: Seq<u8>) -> bool {
    records_start(s) <= BTREE_PAGE_SIZE
}

/// The 4-byte length prefix of record `i` lies inside the page.
pub open spec fn record_head_fits(s: Seq<u8>, i: int) -> bool {
    table_fits(s) && kv_pos(s, i) + 4 <= BTREE_PAGE_SIZE
}

/// Record `i`, prefix, key and value, lies inside the page.
pub open spec fn record_fits(s: Seq<u8>, i: int) -> bool {
    record_head_fits(s, i) && kv_pos(s, i) + record_len(s, i) <= BTREE_PAGE_SIZE
}

/// A well-formed page: a valid tag, each offset-table entry the end of the
/// record before it, and every record inside the page.
pub open spec fn well_formed(s: Seq<u8>) -> bool {
    &&& s.len() == BTREE_PAGE_SIZE
    &&& (tag(s) == INTERNAL_TAG || tag(s) == LEAF_TAG)
    &&& table_fits(s)
    &&& forall|i: int| 0 <= i < nkeys(s) ==> #[trigger] offset(s, i + 1) == offset(s, i) + record_len(s, i)
    &&& kv_pos(s, nkeys(s)) <= BTREE_PAGE_SIZE
}

/// In a well-formed page, the offset of record `m` is the sum of the lengths of
/// the records before it.
proof fn lemma_offset_is_stored(s: Seq<u8>, m: int)
    requires
        well_formed(s),
        0 <= m <= nkeys(s),
    ensures
        offset(s, m) == stored_size(s, m),
    decreases m,
{
    if m > 0 {
        lemma_offset_is_stored(s, m - 1);
        assert(offset(s, (m - 1) + 1) == offset(s, m - 1) + record_len(s, m - 1));
    }
}

/// `stored_size` grows strictly: every record takes at least its 4-byte prefix.
proof fn lemma_stored_increases(s: Seq<u8>, a: int, b: int)
    requires
        0 <= a < b,
    ensures
        stored_size(s, a) + 4 <= stored_size(s, b),
    decreases b - a,
{
    if a + 1 < b {
        lemma_stored_increases(s, a, b - 1);
    }
}

/// Record positions of a well-formed page increase strictly with the slot, the
/// end of the last record is the start of the first plus the lengths of all
/// records, and every record lies inside the page.
pub proof fn lemma_offsets_increase(s: Seq<u8>)
    requires
        well_formed(s),
    ensures
        forall|i: int, j: int|
            0 <= i < j <= nkeys(s) ==> #[trigger] kv_pos(s, i) < #[trigger] kv_pos(s, j),
        kv_pos(s, nkeys(s)) == kv_pos(s, 0) + stored_size(s, nkeys(s)),
        forall|i: int| 0 <= i < nkeys(s) ==> #[trigger] record_fits(s, i),
{
    let n = nkeys(s);
    assert forall|i: int, j: int| 0 <= i < j <= n implies #[trigger] kv_pos(s, i) < #[trigger] kv_pos(
        s,
        j,
    ) by {
        lemma_offset_is_stored(s, i);
        lemma_offset_is_stored(s, j);
        lemma_stored_increases(s, i, j);
    }
    lemma_offset_is_stored(s, n);
    assert forall|i: int| 0 <= i < n implies #[trigger] record_fits(s, i) by {
        assert(offset(s, i + 1) == offset(s, i) + record_len(s, i));
        if i + 1 < n {
            assert(kv_pos(s, i + 1) < kv_pos(s, n));
        }
    }
}

/// The bytes of a `u64`, in little-endian order, make it up again.
pub proof fn lemma_u64_bytes(v: u64)
    ensures
        u64_from_bytes(
            (v & 0xff) as u8,
            ((v >> 8u64) & 0xff) as u8,
            ((v >> 16u64) & 0xff) as u8,
            ((v >> 24u64) & 0xff) as u8,
            ((v >> 32u64) & 0xff) as u8,
            ((v >> 40u64) & 0xff) as u8,
            ((v >> 48u64) & 0xff) as u8,
            ((v >> 56u64) & 0xff) as u8,
        ) == v,
{
    assert(u64_from_bytes(
        (v & 0xff) as u8,
        ((v >> 8u64) & 0xff) as u8,
        ((v >> 16u64) & 0xff) as u8,
        ((v >> 24u64) & 0xff) as u8,
        ((v >> 32u64) & 0xff) as u8,
        ((v >> 40u64) & 0xff) as u8,
        ((v >> 48u64) & 0xff) as u8,
        ((v >> 56u64) & 0xff) as u8,
    ) == v) by (bit_vector);
}

} // verus!
