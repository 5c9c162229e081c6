//! Encoding a whole node from its logical content.
use vstd::prelude::*;

use vstd::slice::slice_to_vec;

use crate::layout::{
    key, key_len, kv_pos, lemma_offsets_increase, nkeys, offset, offset_pos, ptr, ptr_pos,
    record_fits, record_len, tag, val_len, value, well_formed, BTREE_MAX_KEY_SIZE,
    BTREE_MAX_VAL_SIZE, BTREE_PAGE_SIZE, HEADER,
};
use crate::node::{BNode, BNodeType};

verus! {

/// Why a node could not be encoded.
#[derive(Clone, Copy, Debug, PartialEq, Eq, Structural)]
pub enum BuildError {
    /// The pointer, key and value lists differ in length.
    CountMismatch,
    /// A key is longer than `BTREE_MAX_KEY_SIZE`.
    KeyTooLarge,
    /// A value is longer than `BTREE_MAX_VAL_SIZE`.
    ValueTooLarge,
    /// The encoded node would not fit in one page.
    PageOverflow,
}

/// Encoded length of entry `i`: two length fields, the key and the value.
pub open spec fn entry_len(keys: Seq<Vec<u8>>, vals: Seq<Vec<u8>>, i: int) -> nat {
    4 + keys[i]@.len() + vals[i]@.len()
}

/// Sum of the encoded lengths of entries `lo .. hi`.
pub open spec fn span(keys: Seq<Vec<u8>>, vals: Seq<Vec<u8>>, lo: int, hi: int) -> nat
    decreases hi - lo,
{
    if hi <= lo {
        0
    } else {
        span(keys, vals, lo, hi - 1) + entry_len(keys, vals, hi - 1)
    }
}

/// Bytes used by a node that holds entries `lo .. hi`: header, one pointer and
/// one offset per entry, and the records.
pub open spec fn node_size(keys: Seq<Vec<u8>>, vals: Seq<Vec<u8>>, lo: int, hi: int) -> int {
    HEADER + 10 * (hi - lo) + span(keys, vals, lo, hi)
}

/// Some key of the list is longer than `BTREE_MAX_KEY_SIZE`.
pub open spec fn has_large_key(keys: Seq<Vec<u8>>) -> bool {
    exists|i: int| 0 <= i < keys.len() && #[trigger] keys[i]@.len() > BTREE_MAX_KEY_SIZE
}

/// Some value of the list is longer than `BTREE_MAX_VAL_SIZE`.
pub open spec fn has_large_value(vals: Seq<Vec<u8>>) -> bool {
    exists|i: int| 0 <= i < vals.len() && #[trigger] vals[i]@.len() > BTREE_MAX_VAL_SIZE
}

/// The error that encoding these lists gives, checked in this order; `None`
/// when they can be encoded.
pub open spec fn build_error(ptrs: Seq<u64>, keys: Seq<Vec<u8>>, vals: Seq<Vec<u8>>) -> Option<
    BuildError,
> {
    if ptrs.len() != keys.len() || vals.len() != keys.len() {
        Some(BuildError::CountMismatch)
    } else if has_large_key(keys) {
        Some(BuildError::KeyTooLarge)
    } else if has_large_value(vals) {
        Some(BuildError::ValueTooLarge)
    } else if node_size(keys, vals, 0, keys.len() as int) > BTREE_PAGE_SIZE {
        Some(BuildError::PageOverflow)
    } else {
        None
    }
}

/// Page `s` is a well-formed node of kind `kind` whose entry `i` is
/// `(ptrs[i], keys[i], vals[i])`, and whose records end at the node's size.
pub open spec fn encodes(
    s: Seq<u8>,
    kind: BNodeType,
    ptrs: Seq<u64>,
    keys: Seq<Vec<u8>>,
    vals: Seq<Vec<u8>>,
) -> bool {
    &&& well_formed(s)
    &&& ptrs.len() == keys.len()
    &&& vals.len() == keys.len()
    &&& tag(s) == kind.code()
    &&& nkeys(s) == keys.len()
    &&& forall|i: int| 0 <= i < keys.len() ==> #[trigger] ptr(s, i) == ptrs[i]
    &&& forall|i: int| 0 <= i < keys.len() ==> #[trigger] key(s, i) == keys[i]@
    &&& forall|i: int| 0 <= i < keys.len() ==> #[trigger] value(s, i) == vals[i]@
    &&& kv_pos(s, nkeys(s)) == node_size(keys, vals, 0, keys.len() as int)
}

/// `span` grows with its upper end.
pub proof fn lemma_span_mono(keys: Seq<Vec<u8>>, vals: Seq<Vec<u8>>, lo: int, a: int, b: int)
    requires
        lo <= a <= b,
    ensures
        span(keys, vals, lo, a) <= span(keys, vals, lo, b),
    decreases b - a,
{
    if a < b {
        lemma_span_mono(keys, vals, lo, a, b - 1);
    }
}

/// Entries `0 .. i` of the lists are written to page `s`: header, pointers,
/// offsets up to slot `i`, and records.
pub open spec fn prefix_encoded(
    s: Seq<u8>,
    kind: BNodeType,
    ptrs: Seq<u64>,
    keys: Seq<Vec<u8>>,
    vals: Seq<Vec<u8>>,
    i: int,
) -> bool {
    &&& s.len() == BTREE_PAGE_SIZE
    &&& tag(s) == kind.code()
    &&& nkeys(s) == keys.len()
    &&& forall|j: int| 0 <= j <= i ==> #[trigger] offset(s, j) == span(keys, vals, 0, j)
    &&& forall|j: int| 0 <= j < i ==> #[trigger] ptr(s, j) == ptrs[j]
    &&& forall|j: int| 0 <= j < i ==> #[trigger] key_len(s, j) == keys[j]@.len()
    &&& forall|j: int| 0 <= j < i ==> #[trigger] val_len(s, j) == vals[j]@.len()
    &&& forall|j: int| 0 <= j < i ==> #[trigger] key(s, j) == keys[j]@
    &&& forall|j: int| 0 <= j < i ==> #[trigger] value(s, j) == vals[j]@
}

/// Writing entry `i` of the lists at its place keeps entries `0 .. i`.
proof fn lemma_append_step(
    s: Seq<u8>,
    t: Seq<u8>,
    kind: BNodeType,
    ptrs: Seq<u64>,
    keys: Seq<Vec<u8>>,
    vals: Seq<Vec<u8>>,
    i: int,
)
    requires
        prefix_encoded(s, kind, ptrs, keys, vals, i),
        0 <= i < keys.len(),
        ptrs.len() == keys.len(),
        vals.len() == keys.len(),
        node_size(keys, vals, 0, keys.len() as int) <= BTREE_PAGE_SIZE,
        t.len() == s.len(),
        tag(t) == tag(s),
        nkeys(t) == nkeys(s),
        ptr(t, i) == ptrs[i],
        offset(t, i) == offset(s, i),
        offset(t, i + 1) == offset(s, i) + 4 + keys[i]@.len() + vals[i]@.len(),
        key_len(t, i) == keys[i]@.len(),
        val_len(t, i) == vals[i]@.len(),
        key(t, i) == keys[i]@,
        value(t, i) == vals[i]@,
        forall|q: int|
            0 <= q < s.len() && !(ptr_pos(s, i) <= q < ptr_pos(s, i) + 8) && !(offset_pos(s, i + 1)
                <= q < offset_pos(s, i + 1) + 2) && !(kv_pos(s, i) <= q < kv_pos(s, i) + 4
                + keys[i]@.len() + vals[i]@.len()) ==> t[q] == s[q],
    ensures
        prefix_encoded(t, kind, ptrs, keys, vals, i + 1),
{
    assert(span(keys, vals, 0, i + 1) == span(keys, vals, 0, i) + entry_len(keys, vals, i));
    lemma_span_mono(keys, vals, 0, i + 1, keys.len() as int);
    assert(offset(s, i) == span(keys, vals, 0, i));
    assert forall|j: int| 0 <= j <= i + 1 implies #[trigger] offset(t, j) == span(
        keys,
        vals,
        0,
        j,
    ) by {
        if j == i + 1 {
        } else if j == i {
        } else if 0 < j {
            assert(offset(s, j) == span(keys, vals, 0, j));
            let p = offset_pos(s, j);
            assert(t[p] == s[p] && t[p + 1] == s[p + 1]);
        }
    }
    assert forall|j: int| 0 <= j < i implies #[trigger] ptr(t, j) == ptrs[j] by {
        let p = ptr_pos(s, j);
        assert(t[p] == s[p] && t[p + 1] == s[p + 1] && t[p + 2] == s[p + 2] && t[p + 3] == s[p
            + 3]);
        assert(t[p + 4] == s[p + 4] && t[p + 5] == s[p + 5] && t[p + 6] == s[p + 6] && t[p + 7]
            == s[p + 7]);
        assert(ptr(t, j) == ptr(s, j));
    }
    assert forall|j: int| 0 <= j < i implies {
        &&& key_len(t, j) == keys[j]@.len()
        &&& val_len(t, j) == vals[j]@.len()
        &&& key(t, j) == keys[j]@
        &&& value(t, j) == vals[j]@
    } by {
        lemma_span_mono(keys, vals, 0, j + 1, i);
        assert(span(keys, vals, 0, j + 1) == span(keys, vals, 0, j) + entry_len(keys, vals, j));
        let p = kv_pos(s, j);
        if j > 0 {
            let o = offset_pos(s, j);
            assert(t[o] == s[o] && t[o + 1] == s[o + 1]);
        }
        assert(kv_pos(t, j) == p);
        assert(t[p] == s[p] && t[p + 1] == s[p + 1] && t[p + 2] == s[p + 2] && t[p + 3] == s[p
            + 3]);
        assert(key(t, j) =~= key(s, j));
        assert(value(t, j) =~= value(s, j));
    }
    assert forall|j: int| 0 <= j < i + 1 implies #[trigger] key_len(t, j) == keys[j]@.len() by {}
    assert forall|j: int| 0 <= j < i + 1 implies #[trigger] val_len(t, j) == vals[j]@.len() by {}
    assert forall|j: int| 0 <= j < i + 1 implies #[trigger] key(t, j) == keys[j]@ by {}
    assert forall|j: int| 0 <= j < i + 1 implies #[trigger] value(t, j) == vals[j]@ by {}
}

/// Encodes a node of kind `kind` whose entry `i` is `(ptrs[i], keys[i],
/// vals[i])`: the header, then the pointers, the offset table and the records.
pub fn build(kind: BNodeType, ptrs: &Vec<u64>, keys: &Vec<Vec<u8>>, vals: &Vec<Vec<u8>>) -> (r:
    Result<BNode, BuildError>)
    ensures
        match build_error(ptrs@, keys@, vals@) {
            Some(e) => r == Err::<BNode, BuildError>(e),
            None => r is Ok && encodes(r->Ok_0@, kind, ptrs@, keys@, vals@),
        },
{
    let n = keys.len();
    if ptrs.len() != n || vals.len() != n {
        return Err(BuildError::CountMismatch);
    }
    let mut i: usize = 0;
    while i < n
        invariant
            n == keys@.len(),
            n == ptrs@.len(),
            n == vals@.len(),
            i <= n,
            forall|j: int| 0 <= j < i ==> #[trigger] keys@[j]@.len() <= BTREE_MAX_KEY_SIZE,
        decreases n - i,
    {
        if keys[i].len() > BTREE_MAX_KEY_SIZE {
            assert(keys@[i as int]@.len() > BTREE_MAX_KEY_SIZE);
            return Err(BuildError::KeyTooLarge);
        }
        i = i + 1;
    }
    assert(!has_large_key(keys@));
    let mut i: usize = 0;
    while i < n
        invariant
            n == vals@.len(),
            n == ptrs@.len(),
            n == keys@.len(),
            !has_large_key(keys@),
            i <= n,
            forall|j: int| 0 <= j < i ==> #[trigger] vals@[j]@.len() <= BTREE_MAX_VAL_SIZE,
        decreases n - i,
    {
        if vals[i].len() > BTREE_MAX_VAL_SIZE {
            assert(vals@[i as int]@.len() > BTREE_MAX_VAL_SIZE);
            return Err(BuildError::ValueTooLarge);
        }
        i = i + 1;
    }
    assert(!has_large_value(vals@));
    // each entry takes a pointer (8), an offset (2) and its record (4 + key + value)
    let mut total: usize = HEADER;
    let mut i: usize = 0;
    while i < n
        invariant
            n == keys@.len(),
            n == vals@.len(),
            n == ptrs@.len(),
            !has_large_key(keys@),
            !has_large_value(vals@),
            i <= n,
            total == node_size(keys@, vals@, 0, i as int),
            total <= BTREE_PAGE_SIZE,
        decreases n - i,
    {
        assert(keys@[i as int]@.len() <= BTREE_MAX_KEY_SIZE);
        assert(vals@[i as int]@.len() <= BTREE_MAX_VAL_SIZE);
        total = total + 14 + keys[i].len() + vals[i].len();
        assert(span(keys@, vals@, 0, i + 1) == span(keys@, vals@, 0, i as int) + entry_len(
            keys@,
            vals@,
            i as int,
        ));
        if total > BTREE_PAGE_SIZE {
            proof {
                lemma_span_mono(keys@, vals@, 0, i + 1, n as int);
            }
            return Err(BuildError::PageOverflow);
        }
        i = i + 1;
    }
    let mut node = BNode::new();
    node.set_header(kind.to_u16(), n as u16);
    let mut i: usize = 0;
    while i < n
        invariant
            n == keys@.len(),
            n == vals@.len(),
            n == ptrs@.len(),
            i <= n,
            node_size(keys@, vals@, 0, n as int) <= BTREE_PAGE_SIZE,
            node@.len() == BTREE_PAGE_SIZE,
            prefix_encoded(node@, kind, ptrs@, keys@, vals@, i as int),
        decreases n - i,
    {
        let ghost s = node@;
        proof {
            lemma_span_mono(keys@, vals@, 0, i + 1, n as int);
            assert(offset(s, i as int) == span(keys@, vals@, 0, i as int));
        }
        node.append_kv(i as u16, ptrs[i], keys[i].as_slice(), vals[i].as_slice());
        proof {
            lemma_append_step(s, node@, kind, ptrs@, keys@, vals@, i as int);
        }
        i = i + 1;
    }
    proof {
        let s = node@;
        assert(offset(s, n as int) == span(keys@, vals@, 0, n as int));
        assert forall|j: int| 0 <= j < n implies #[trigger] offset(s, j + 1) == offset(s, j)
            + record_len(s, j) by {
            assert(offset(s, j + 1) == span(keys@, vals@, 0, j + 1));
            assert(offset(s, j) == span(keys@, vals@, 0, j));
        }
    }
    Ok(node)
}

/// Decoding an encoded page gives back what was encoded: its kind, its key
/// count, and every pointer, key and value; and every accessor's bounds hold
/// for each slot, so each can be read.
pub proof fn lemma_round_trip(
    s: Seq<u8>,
    kind: BNodeType,
    ptrs: Seq<u64>,
    keys: Seq<Vec<u8>>,
    vals: Seq<Vec<u8>>,
)
    requires
        encodes(s, kind, ptrs, keys, vals),
    ensures
        tag(s) == kind.code(),
        nkeys(s) == keys.len(),
        forall|i: int|
            0 <= i < keys.len() ==> {
                &&& ptr_pos(s, i) + 8 <= BTREE_PAGE_SIZE
                &&& record_fits(s, i)
                &&& #[trigger] ptr(s, i) == ptrs[i]
                &&& key(s, i) == keys[i]@
                &&& value(s, i) == vals[i]@
            },
{
    lemma_offsets_increase(s);
    assert forall|i: int| 0 <= i < keys.len() implies {
        &&& ptr_pos(s, i) + 8 <= BTREE_PAGE_SIZE
        &&& record_fits(s, i)
        &&& #[trigger] ptr(s, i) == ptrs[i]
        &&& key(s, i) == keys[i]@
        &&& value(s, i) == vals[i]@
    } by {
        assert(record_fits(s, i));
        assert(key(s, i) == keys[i]@);
        assert(value(s, i) == vals[i]@);
    }
}

/// Lists that meet the count and size limits fail to encode exactly when their
/// encoded size exceeds the page: a size of exactly `BTREE_PAGE_SIZE` encodes,
/// one byte more overflows.
pub proof fn lemma_capacity_boundary(ptrs: Seq<u64>, keys: Seq<Vec<u8>>, vals: Seq<Vec<u8>>)
    requires
        ptrs.len() == keys.len(),
        vals.len() == keys.len(),
        !has_large_key(keys),
        !has_large_value(vals),
    ensures
        node_size(keys, vals, 0, keys.len() as int) == BTREE_PAGE_SIZE ==> build_error(
            ptrs,
            keys,
            vals,
        ) is None,
        node_size(keys, vals, 0, keys.len() as int) == BTREE_PAGE_SIZE + 1 ==> build_error(
            ptrs,
            keys,
            vals,
        ) == Some(BuildError::PageOverflow),
        build_error(ptrs, keys, vals) is None <==> node_size(keys, vals, 0, keys.len() as int)
            <= BTREE_PAGE_SIZE,
{
}

/// A key longer than `BTREE_MAX_KEY_SIZE` or a value longer than
/// `BTREE_MAX_VAL_SIZE` makes encoding fail.
pub proof fn lemma_oversized_entry_rejected(
    ptrs: Seq<u64>,
    keys: Seq<Vec<u8>>,
    vals: Seq<Vec<u8>>,
    i: int,
)
    requires
        ptrs.len() == keys.len(),
        vals.len() == keys.len(),
        0 <= i < keys.len(),
        keys[i]@.len() > BTREE_MAX_KEY_SIZE || vals[i]@.len() > BTREE_MAX_VAL_SIZE,
    ensures
        build_error(ptrs, keys, vals) is Some,
        keys[i]@.len() > BTREE_MAX_KEY_SIZE ==> build_error(ptrs, keys, vals) == Some(
            BuildError::KeyTooLarge,
        ),
{
    if keys[i]@.len() > BTREE_MAX_KEY_SIZE {
        assert(has_large_key(keys));
    } else {
        assert(has_large_value(vals));
    }
}

/// Splitting entries at `m` gives two non-empty nodes that each fit in a page.
pub open spec fn splits_at(keys: Seq<Vec<u8>>, vals: Seq<Vec<u8>>, m: int) -> bool {
    &&& 0 < m < keys.len()
    &&& node_size(keys, vals, 0, m) <= BTREE_PAGE_SIZE
    &&& node_size(keys, vals, m, keys.len() as int) <= BTREE_PAGE_SIZE
}

/// `span` is additive over adjacent ranges.
pub proof fn lemma_span_split(
    keys: Seq<Vec<u8>>,
    vals: Seq<Vec<u8>>,
    lo: int,
    mid: int,
    hi: int,
)
    requires
        lo <= mid <= hi,
    ensures
        span(keys, vals, lo, hi) == span(keys, vals, lo, mid) + span(keys, vals, mid, hi),
    decreases hi - mid,
{
    if mid < hi {
        lemma_span_split(keys, vals, lo, mid, hi - 1);
    }
}

/// A node of the entries `a .. hi` is at least as large as one of `b .. hi`
/// for `a <= b`, and one of `lo .. b` at least as large as one of `lo .. a`.
proof fn lemma_node_size_mono(keys: Seq<Vec<u8>>, vals: Seq<Vec<u8>>, a: int, b: int, hi: int)
    requires
        0 <= a <= b <= hi,
    ensures
        node_size(keys, vals, a, hi) >= node_size(keys, vals, b, hi),
        node_size(keys, vals, 0, a) <= node_size(keys, vals, 0, b),
{
    lemma_span_split(keys, vals, a, b, hi);
    lemma_span_mono(keys, vals, 0, a, b);
}

/// The least point at which the entries can be split into two nodes that each
/// fit in a page; `None` when there is no such point.
pub fn split_point(keys: &Vec<Vec<u8>>, vals: &Vec<Vec<u8>>) -> (r: Option<usize>)
    requires
        keys@.len() == vals@.len(),
    ensures
        match r {
            Some(m) => splits_at(keys@, vals@, m as int) && forall|k: int|
                0 <= k < m ==> !#[trigger] splits_at(keys@, vals@, k),
            None => forall|k: int| !#[trigger] splits_at(keys@, vals@, k),
        },
{
    let n = keys.len();
    if n < 2 {
        return None;
    }
    let ghost ks = keys@;
    let ghost vs = vals@;
    // the least m >= 1 for which entries m .. n fit in one node
    let mut m: usize = n;
    let mut right: usize = HEADER;
    while m > 1
        invariant
            n == ks.len(),
            n == vs.len(),
            ks == keys@,
            vs == vals@,
            1 <= m <= n,
            right == node_size(ks, vs, m as int, n as int),
            right <= BTREE_PAGE_SIZE,
        ensures
            1 <= m <= n,
            right == node_size(ks, vs, m as int, n as int),
            m == 1 || node_size(ks, vs, m - 1, n as int) > BTREE_PAGE_SIZE,
        decreases m,
    {
        proof {
            lemma_span_split(ks, vs, m - 1, m as int, n as int);
            assert(span(ks, vs, m - 1, m - 1) == 0);
            assert(span(ks, vs, m - 1, m as int) == entry_len(ks, vs, m - 1));
        }
        let klen = keys[m - 1].len();
        let vlen = vals[m - 1].len();
        if klen > BTREE_PAGE_SIZE || vlen > BTREE_PAGE_SIZE {
            break;
        }
        let next = right + 14 + klen + vlen;
        if next > BTREE_PAGE_SIZE {
            break;
        }
        right = next;
        m = m - 1;
    }
    proof {
        assert forall|k: int| 0 <= k < m implies !#[trigger] splits_at(ks, vs, k) by {
            if 0 < k {
                lemma_node_size_mono(ks, vs, k, m - 1, n as int);
            }
        }
    }
    if m >= n {
        return None;
    }
    // entries 0 .. m must fit as well
    let mut left: usize = HEADER;
    let mut j: usize = 0;
    while j < m
        invariant
            n == ks.len(),
            n == vs.len(),
            ks == keys@,
            vs == vals@,
            1 <= m < n,
            j <= m,
            left == node_size(ks, vs, 0, j as int),
            left <= BTREE_PAGE_SIZE,
            forall|k: int| 0 <= k < m ==> !#[trigger] splits_at(ks, vs, k),
        decreases m - j,
    {
        let klen = keys[j].len();
        let vlen = vals[j].len();
        let too_big = klen > BTREE_PAGE_SIZE || vlen > BTREE_PAGE_SIZE || left + 14 + klen + vlen
            > BTREE_PAGE_SIZE;
        if too_big {
            proof {
                assert forall|k: int| !#[trigger] splits_at(ks, vs, k) by {
                    if m <= k < n {
                        lemma_node_size_mono(ks, vs, j + 1, k, n as int);
                    }
                }
            }
            return None;
        }
        left = left + 14 + klen + vlen;
        j = j + 1;
    }
    Some(m)
}

/// Two lists hold the same byte strings, entry by entry.
pub open spec fn same_contents(a: Seq<Vec<u8>>, b: Seq<Vec<u8>>) -> bool {
    &&& a.len() == b.len()
    &&& forall|i: int| 0 <= i < a.len() ==> #[trigger] a[i]@ == b[i]@
}

/// `span` over a range of one pair of lists equals `span` over the range `d`
/// entries further on in another pair that holds the same byte strings there.
proof fn lemma_span_shift(
    k1: Seq<Vec<u8>>,
    v1: Seq<Vec<u8>>,
    k2: Seq<Vec<u8>>,
    v2: Seq<Vec<u8>>,
    lo: int,
    hi: int,
    d: int,
)
    requires
        forall|i: int| lo <= i < hi ==> #[trigger] k1[i]@ == k2[i + d]@,
        forall|i: int| lo <= i < hi ==> #[trigger] v1[i]@ == v2[i + d]@,
    ensures
        span(k1, v1, lo, hi) == span(k2, v2, lo + d, hi + d),
    decreases hi - lo,
{
    if lo < hi {
        lemma_span_shift(k1, v1, k2, v2, lo, hi - 1, d);
        assert(k1[hi - 1]@ == k2[hi - 1 + d]@);
        assert(v1[hi - 1]@ == v2[hi - 1 + d]@);
    }
}

/// Whether a page encodes some lists depends on the byte strings they hold
/// alone.
pub proof fn lemma_encodes_contents(
    s: Seq<u8>,
    kind: BNodeType,
    ptrs: Seq<u64>,
    k1: Seq<Vec<u8>>,
    v1: Seq<Vec<u8>>,
    k2: Seq<Vec<u8>>,
    v2: Seq<Vec<u8>>,
)
    requires
        encodes(s, kind, ptrs, k1, v1),
        same_contents(k1, k2),
        same_contents(v1, v2),
    ensures
        encodes(s, kind, ptrs, k2, v2),
{
    assert forall|i: int| 0 <= i < k1.len() implies #[trigger] k1[i]@ == k2[i + 0]@ by {
        assert(k1[i]@ == k2[i]@);
    }
    assert forall|i: int| 0 <= i < k1.len() implies #[trigger] v1[i]@ == v2[i + 0]@ by {
        assert(v1[i]@ == v2[i]@);
    }
    lemma_span_shift(k1, v1, k2, v2, 0, k1.len() as int, 0);
    assert forall|i: int| 0 <= i < k2.len() implies #[trigger] key(s, i) == k2[i]@ by {
        assert(key(s, i) == k1[i]@);
    }
    assert forall|i: int| 0 <= i < k2.len() implies #[trigger] value(s, i) == v2[i]@ by {
        assert(value(s, i) == v1[i]@);
    }
}

fn copy_entries(v: &Vec<Vec<u8>>, lo: usize, hi: usize) -> (r: Vec<Vec<u8>>)
    requires
        lo <= hi <= v@.len(),
    ensures
        r@.len() == hi - lo,
        forall|i: int| 0 <= i < hi - lo ==> #[trigger] r@[i]@ == v@[lo + i]@,
{
    let mut r: Vec<Vec<u8>> = Vec::new();
    let mut i: usize = lo;
    while i < hi
        invariant
            lo <= i <= hi,
            hi <= v@.len(),
            r@.len() == i - lo,
            forall|j: int| 0 <= j < i - lo ==> #[trigger] r@[j]@ == v@[lo + j]@,
        decreases hi - i,
    {
        r.push(slice_to_vec(v[i].as_slice()));
        i = i + 1;
    }
    r
}

fn copy_pointers(v: &Vec<u64>, lo: usize, hi: usize) -> (r: Vec<u64>)
    requires
        lo <= hi <= v@.len(),
    ensures
        r@ == v@.subrange(lo as int, hi as int),
{
    let mut r: Vec<u64> = Vec::new();
    let mut i: usize = lo;
    while i < hi
        invariant
            lo <= i <= hi,
            hi <= v@.len(),
            r@ == v@.subrange(lo as int, i as int),
        decreases hi - i,
    {
        r.push(v[i]);
        i = i + 1;
        assert(r@ =~= v@.subrange(lo as int, i as int));
    }
    r
}

/// Splits the entries of an overflowing node into two nodes that each fit in
/// a page, at the least point where both fit: entries `0 .. m` go left and
/// `m ..` go right. `None` when no such point exists.
pub fn split_in_two(kind: BNodeType, ptrs: &Vec<u64>, keys: &Vec<Vec<u8>>, vals: &Vec<Vec<u8>>) -> (r:
    Option<(BNode, BNode)>)
    requires
        ptrs@.len() == keys@.len(),
        vals@.len() == keys@.len(),
        !has_large_key(keys@),
        !has_large_value(vals@),
    ensures
        r is None <==> forall|k: int| !#[trigger] splits_at(keys@, vals@, k),
        r matches Some((left, right)) ==> {
            let m = nkeys(left@);
            let n = keys@.len() as int;
            &&& splits_at(keys@, vals@, m)
            &&& forall|k: int| 0 <= k < m ==> !#[trigger] splits_at(keys@, vals@, k)
            &&& encodes(
                left@,
                kind,
                ptrs@.subrange(0, m),
                keys@.subrange(0, m),
                vals@.subrange(0, m),
            )
            &&& encodes(
                right@,
                kind,
                ptrs@.subrange(m, n),
                keys@.subrange(m, n),
                vals@.subrange(m, n),
            )
        },
{
    let n = keys.len();
    let m = match split_point(keys, vals) {
        Some(m) => m,
        None => return None,
    };
    let lp = copy_pointers(ptrs, 0, m);
    let lk = copy_entries(keys, 0, m);
    let lv = copy_entries(vals, 0, m);
    let rp = copy_pointers(ptrs, m, n);
    let rk = copy_entries(keys, m, n);
    let rv = copy_entries(vals, m, n);
    proof {
        let ks = keys@;
        let vs = vals@;
        assert forall|i: int| 0 <= i < m implies #[trigger] lk@[i]@ == ks[i + 0]@ by {
            assert(lk@[i]@ == ks[0 + i]@);
        }
        assert forall|i: int| 0 <= i < m implies #[trigger] lv@[i]@ == vs[i + 0]@ by {
            assert(lv@[i]@ == vs[0 + i]@);
        }
        lemma_span_shift(lk@, lv@, ks, vs, 0, m as int, 0);
        assert forall|i: int| 0 <= i < n - m implies #[trigger] rk@[i]@ == ks[i + m]@ by {
            assert(rk@[i]@ == ks[m + i]@);
        }
        assert forall|i: int| 0 <= i < n - m implies #[trigger] rv@[i]@ == vs[i + m]@ by {
            assert(rv@[i]@ == vs[m + i]@);
        }
        lemma_span_shift(rk@, rv@, ks, vs, 0, n - m, m as int);
        assert(!has_large_key(lk@)) by {
            assert forall|i: int| 0 <= i < m implies #[trigger] lk@[i]@.len()
                <= BTREE_MAX_KEY_SIZE by {
                assert(lk@[i]@ == ks[i + 0]@);
                assert(ks[i]@.len() <= BTREE_MAX_KEY_SIZE);
            }
        }
        assert(!has_large_value(lv@)) by {
            assert forall|i: int| 0 <= i < m implies #[trigger] lv@[i]@.len()
                <= BTREE_MAX_VAL_SIZE by {
                assert(lv@[i]@ == vs[i + 0]@);
                assert(vs[i]@.len() <= BTREE_MAX_VAL_SIZE);
            }
        }
        assert(!has_large_key(rk@)) by {
            assert forall|i: int| 0 <= i < n - m implies #[trigger] rk@[i]@.len()
                <= BTREE_MAX_KEY_SIZE by {
                assert(rk@[i]@ == ks[i + m]@);
                assert(ks[i + m]@.len() <= BTREE_MAX_KEY_SIZE);
            }
        }
        assert(!has_large_value(rv@)) by {
            assert forall|i: int| 0 <= i < n - m implies #[trigger] rv@[i]@.len()
                <= BTREE_MAX_VAL_SIZE by {
                assert(rv@[i]@ == vs[i + m]@);
                assert(vs[i + m]@.len() <= BTREE_MAX_VAL_SIZE);
            }
        }
    }
    let left = match build(kind, &lp, &lk, &lv) {
        Ok(node) => node,
        Err(_) => return None,
    };
    let right = match build(kind, &rp, &rk, &rv) {
        Ok(node) => node,
        Err(_) => return None,
    };
    proof {
        let ks = keys@;
        let vs = vals@;
        assert(same_contents(lk@, ks.subrange(0, m as int)));
        assert(same_contents(lv@, vs.subrange(0, m as int)));
        assert(same_contents(rk@, ks.subrange(m as int, n as int)));
        assert(same_contents(rv@, vs.subrange(m as int, n as int)));
        lemma_encodes_contents(
            left@,
            kind,
            lp@,
            lk@,
            lv@,
            ks.subrange(0, m as int),
            vs.subrange(0, m as int),
        );
        lemma_encodes_contents(
            right@,
            kind,
            rp@,
            rk@,
            rv@,
            ks.subrange(m as int, n as int),
            vs.subrange(m as int, n as int),
        );
    }
    Some((left, right))
}

/// Two nodes that encode the entries before and from a split point each fit in
/// a page, hold all the entries between them, and read back the keys in their
/// original order: left slot `i` is key `i`, right slot `i - m` is key `i`.
pub proof fn lemma_split_halves(
    left: Seq<u8>,
    right: Seq<u8>,
    kind: BNodeType,
    ptrs: Seq<u64>,
    keys: Seq<Vec<u8>>,
    vals: Seq<Vec<u8>>,
    m: int,
)
    requires
        vals.len() == keys.len(),
        splits_at(keys, vals, m),
        encodes(left, kind, ptrs.subrange(0, m), keys.subrange(0, m), vals.subrange(0, m)),
        encodes(
            right,
            kind,
            ptrs.subrange(m, keys.len() as int),
            keys.subrange(m, keys.len() as int),
            vals.subrange(m, keys.len() as int),
        ),
    ensures
        kv_pos(left, nkeys(left)) <= BTREE_PAGE_SIZE,
        kv_pos(right, nkeys(right)) <= BTREE_PAGE_SIZE,
        nkeys(left) + nkeys(right) == keys.len(),
        forall|i: int| 0 <= i < m ==> #[trigger] key(left, i) == keys[i]@,
        forall|i: int| m <= i < keys.len() ==> #[trigger] key(right, i - m) == keys[i]@,
{
    let n = keys.len() as int;
    let lk = keys.subrange(0, m);
    let lv = vals.subrange(0, m);
    let rk = keys.subrange(m, n);
    let rv = vals.subrange(m, n);
    lemma_span_shift(lk, lv, keys, vals, 0, m, 0);
    lemma_span_shift(rk, rv, keys, vals, 0, n - m, m);
    assert forall|i: int| 0 <= i < m implies #[trigger] key(left, i) == keys[i]@ by {
        assert(key(left, i) == lk[i]@);
    }
    assert forall|i: int| m <= i < n implies #[trigger] key(right, i - m) == keys[i]@ by {
        assert(key(right, i - m) == rk[i - m]@);
    }
}

} // verus!
