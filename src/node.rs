//! A page and the accessors that read and write its fields.
use vstd::prelude::*;
use vstd::slice::slice_subrange;

use crate::layout::{
    kv_pos, lemma_u64_bytes, nkeys, offset, offset_pos, ptr, ptr_pos, record_fits, record_head_fits,
    table_fits, tag, u16_at, u64_at, key, value, key_len, val_len, BTREE_PAGE_SIZE, HEADER,
    INTERNAL_TAG, LEAF_TAG,
};

verus! {

/// Kind of a node: internal nodes route by child pointers, leaves hold values.
#[derive(Clone, Copy, Debug, PartialEq, Eq, Structural)]
pub enum BNodeType {
    InternalNode,
    LeafNode,
}

impl BNodeType {
    /// The tag that stands for this kind in a page header.
    pub open spec fn code(self) -> u16 {
        match self {
            BNodeType::InternalNode => INTERNAL_TAG,
            BNodeType::LeafNode => LEAF_TAG,
        }
    }

    /// Decodes a header tag; only 1 (internal) and 2 (leaf) are tags.
    pub fn from_u16(n: u16) -> (r: BNodeType)
        requires
            n == INTERNAL_TAG || n == LEAF_TAG,
        ensures
            r.code() == n,
    {
        if n == INTERNAL_TAG {
            BNodeType::InternalNode
        } else {
            BNodeType::LeafNode
        }
    }

    /// Encodes this kind as its header tag.
    pub fn to_u16(self) -> (r: u16)
        ensures
            r == self.code(),
    {
        match self {
            BNodeType::InternalNode => INTERNAL_TAG,
            BNodeType::LeafNode => LEAF_TAG,
        }
    }
}

/// One page of a B-tree: a buffer of exactly `BTREE_PAGE_SIZE` bytes.
pub struct BNode {
    data: Vec<u8>,
}

impl View for BNode {
    type V = Seq<u8>;

    closed spec fn view(&self) -> Seq<u8> {
        self.data@
    }
}

impl BNode {
    #[verifier::type_invariant]
    spec fn page_sized(self) -> bool {
        self.data@.len() == BTREE_PAGE_SIZE
    }

    /// A page of zero bytes.
    pub fn new() -> (r: BNode)
        ensures
            r@ == Seq::new(BTREE_PAGE_SIZE as nat, |i: int| 0u8),
    {
        let data = vec![0u8; BTREE_PAGE_SIZE];
        assert(data@ =~= Seq::new(BTREE_PAGE_SIZE as nat, |i: int| 0u8));
        BNode { data }
    }

    /// A copy of this page.
    pub fn copy_page(&self) -> (r: BNode)
        ensures
            r@ == self@,
    {
        proof {
            use_type_invariant(self);
        }
        let mut data: Vec<u8> = Vec::with_capacity(BTREE_PAGE_SIZE);
        let mut i: usize = 0;
        while i < BTREE_PAGE_SIZE
            invariant
                i <= BTREE_PAGE_SIZE,
                self.data@.len() == BTREE_PAGE_SIZE,
                data@ =~= self.data@.subrange(0, i as int),
            decreases BTREE_PAGE_SIZE - i,
        {
            data.push(self.data[i]);
            i = i + 1;
        }
        assert(data@ =~= self.data@);
        BNode { data }
    }

    fn read_u16(&self, p: usize) -> (r: u16)
        requires
            p + 2 <= BTREE_PAGE_SIZE,
        ensures
            r == u16_at(self@, p as int),
    {
        proof {
            use_type_invariant(self);
        }
        (self.data[p] as u16) + (self.data[p + 1] as u16) * 256
    }

    fn write_u16(&mut self, p: usize, v: u16)
        requires
            p + 2 <= BTREE_PAGE_SIZE,
        ensures
            final(self)@ == old(self)@.update(p as int, (v % 256) as u8).update(
                p + 1,
                (v / 256) as u8,
            ),
            u16_at(final(self)@, p as int) == v,
    {
        proof {
            use_type_invariant(&*self);
        }
        self.data[p] = (v % 256) as u8;
        self.data[p + 1] = (v / 256) as u8;
    }

    fn read_u64(&self, p: usize) -> (r: u64)
        requires
            p + 8 <= BTREE_PAGE_SIZE,
        ensures
            r == u64_at(self@, p as int),
    {
        proof {
            use_type_invariant(self);
        }
        (self.data[p] as u64) | ((self.data[p + 1] as u64) << 8u64) | ((self.data[p + 2] as u64)
            << 16u64) | ((self.data[p + 3] as u64) << 24u64) | ((self.data[p + 4] as u64)
            << 32u64) | ((self.data[p + 5] as u64) << 40u64) | ((self.data[p + 6] as u64)
            << 48u64) | ((self.data[p + 7] as u64) << 56u64)
    }

    fn write_u64(&mut self, p: usize, v: u64)
        requires
            p + 8 <= BTREE_PAGE_SIZE,
        ensures
            final(self)@.len() == old(self)@.len(),
            forall|q: int|
                0 <= q < old(self)@.len() && !(p <= q < p + 8) ==> final(self)@[q] == old(self)@[q],
            u64_at(final(self)@, p as int) == v,
    {
        proof {
            use_type_invariant(&*self);
            lemma_u64_bytes(v);
        }
        self.data[p] = (v & 0xff) as u8;
        self.data[p + 1] = ((v >> 8u64) & 0xff) as u8;
        self.data[p + 2] = ((v >> 16u64) & 0xff) as u8;
        self.data[p + 3] = ((v >> 24u64) & 0xff) as u8;
        self.data[p + 4] = ((v >> 32u64) & 0xff) as u8;
        self.data[p + 5] = ((v >> 40u64) & 0xff) as u8;
        self.data[p + 6] = ((v >> 48u64) & 0xff) as u8;
        self.data[p + 7] = ((v >> 56u64) & 0xff) as u8;
    }

    fn write_bytes(&mut self, p: usize, src: &[u8])
        requires
            p + src@.len() <= BTREE_PAGE_SIZE,
        ensures
            final(self)@.len() == old(self)@.len(),
            forall|q: int|
                0 <= q < old(self)@.len() && !(p <= q < p + src@.len()) ==> final(self)@[q]
                    == old(self)@[q],
            forall|q: int| 0 <= q < src@.len() ==> final(self)@[p + q] == src@[q],
    {
        proof {
            use_type_invariant(&*self);
        }
        let mut i: usize = 0;
        while i < src.len()
            invariant
                p + src@.len() <= BTREE_PAGE_SIZE,
                i <= src@.len(),
                self.data@.len() == old(self)@.len(),
                old(self)@.len() == BTREE_PAGE_SIZE,
                forall|q: int|
                    0 <= q < old(self)@.len() && !(p <= q < p + i) ==> self.data@[q]
                        == old(self)@[q],
                forall|q: int| 0 <= q < i ==> self.data@[p + q] == src@[q],
            decreases src@.len() - i,
        {
            self.data[p + i] = src[i];
            i = i + 1;
        }
    }

    fn write_record(&mut self, p: usize, key_bytes: &[u8], val_bytes: &[u8])
        requires
            p + 4 + key_bytes@.len() + val_bytes@.len() <= BTREE_PAGE_SIZE,
        ensures
            final(self)@.len() == old(self)@.len(),
            forall|q: int|
                0 <= q < old(self)@.len() && !(p <= q < p + 4 + key_bytes@.len()
                    + val_bytes@.len()) ==> final(self)@[q] == old(self)@[q],
            u16_at(final(self)@, p as int) == key_bytes@.len(),
            u16_at(final(self)@, p + 2) == val_bytes@.len(),
            forall|q: int| 0 <= q < key_bytes@.len() ==> final(self)@[p + 4 + q] == key_bytes@[q],
            forall|q: int|
                0 <= q < val_bytes@.len() ==> final(self)@[p + 4 + key_bytes@.len() + q]
                    == val_bytes@[q],
    {
        proof {
            use_type_invariant(&*self);
        }
        let klen = key_bytes.len();
        self.write_u16(p, klen as u16);
        self.write_u16(p + 2, val_bytes.len() as u16);
        let ghost sc = self@;
        self.write_bytes(p + 4, key_bytes);
        let ghost sd = self@;
        self.write_bytes(p + 4 + klen, val_bytes);
        proof {
            assert(self@[p as int] == sc[p as int] && self@[p + 1] == sc[p + 1]);
            assert(self@[p + 2] == sc[p + 2] && self@[p + 3] == sc[p + 3]);
            assert forall|q: int| 0 <= q < klen implies self@[p + 4 + q] == key_bytes@[q] by {
                assert(self@[p + 4 + q] == sd[p + 4 + q]);
            }
        }
    }

    /// Writes record `idx`: its child pointer, its key and value at the
    /// record's position, and the offset-table entry that ends it. Bytes outside
    /// those three places stay.
    pub fn append_kv(&mut self, idx: u16, ptr_value: u64, key_bytes: &[u8], val_bytes: &[u8])
        requires
            idx < nkeys(old(self)@),
            table_fits(old(self)@),
            kv_pos(old(self)@, idx as int) + 4 + key_bytes@.len() + val_bytes@.len()
                <= BTREE_PAGE_SIZE,
        ensures
            final(self)@.len() == old(self)@.len(),
            tag(final(self)@) == tag(old(self)@),
            nkeys(final(self)@) == nkeys(old(self)@),
            ptr(final(self)@, idx as int) == ptr_value,
            offset(final(self)@, idx as int) == offset(old(self)@, idx as int),
            offset(final(self)@, idx + 1) == offset(old(self)@, idx as int) + 4
                + key_bytes@.len() + val_bytes@.len(),
            key_len(final(self)@, idx as int) == key_bytes@.len(),
            val_len(final(self)@, idx as int) == val_bytes@.len(),
            key(final(self)@, idx as int) == key_bytes@,
            value(final(self)@, idx as int) == val_bytes@,
            forall|q: int|
                0 <= q < old(self)@.len() && !(ptr_pos(old(self)@, idx as int) <= q < ptr_pos(
                    old(self)@,
                    idx as int,
                ) + 8) && !(offset_pos(old(self)@, idx + 1) <= q < offset_pos(
                    old(self)@,
                    idx + 1,
                ) + 2) && !(kv_pos(old(self)@, idx as int) <= q < kv_pos(old(self)@, idx as int)
                    + 4 + key_bytes@.len() + val_bytes@.len()) ==> final(self)@[q]
                    == old(self)@[q],
    {
        proof {
            use_type_invariant(&*self);
        }
        let ghost s0 = self@;
        let position = self.get_kv_pair_position(idx) as usize;
        let klen = key_bytes.len();
        let vlen = val_bytes.len();
        let ghost pp = ptr_pos(s0, idx as int);
        let ghost op = offset_pos(s0, idx + 1);
        let ghost kp = position as int;
        let ghost end = kp + 4 + klen + vlen;
        self.set_ptr(idx, ptr_value);
        let ghost sa = self@;
        self.write_record(position, key_bytes, val_bytes);
        let ghost se = self@;
        proof {
            assert(se[2] == s0[2] && se[3] == s0[3]);
            assert(nkeys(se) == nkeys(s0));
            if idx > 0 {
                let p0 = offset_pos(s0, idx as int);
                assert(se[p0] == s0[p0] && se[p0 + 1] == s0[p0 + 1]);
            }
            assert(offset(se, idx as int) == offset(s0, idx as int));
        }
        let off = self.get_offset(idx);
        self.set_offset(idx + 1, off + 4 + klen as u16 + vlen as u16);
        let ghost s2 = self@;
        proof {
            assert(s2[0] == s0[0] && s2[1] == s0[1] && s2[2] == s0[2] && s2[3] == s0[3]);
            assert(nkeys(s2) == nkeys(s0));
            if idx > 0 {
                let p0 = offset_pos(s0, idx as int);
                assert(s2[p0] == s0[p0] && s2[p0 + 1] == s0[p0 + 1]);
            }
            assert(offset(s2, idx as int) == offset(s0, idx as int));
            assert(kv_pos(s2, idx as int) == kp);
            assert(s2[pp] == sa[pp] && s2[pp + 1] == sa[pp + 1] && s2[pp + 2] == sa[pp + 2]
                && s2[pp + 3] == sa[pp + 3]);
            assert(s2[pp + 4] == sa[pp + 4] && s2[pp + 5] == sa[pp + 5] && s2[pp + 6] == sa[pp
                + 6] && s2[pp + 7] == sa[pp + 7]);
            assert(ptr(s2, idx as int) == ptr(sa, idx as int));
            assert(s2[kp] == se[kp] && s2[kp + 1] == se[kp + 1]);
            assert(s2[kp + 2] == se[kp + 2] && s2[kp + 3] == se[kp + 3]);
            assert(key_len(s2, idx as int) == klen);
            assert(val_len(s2, idx as int) == vlen);
            assert(key(s2, idx as int) =~= key_bytes@);
            assert(value(s2, idx as int) =~= val_bytes@);
        }
    }

    /// The node's kind, read from its header tag.
    pub fn b_type(&self) -> (r: BNodeType)
        requires
            tag(self@) == INTERNAL_TAG || tag(self@) == LEAF_TAG,
        ensures
            r.code() == tag(self@),
    {
        BNodeType::from_u16(self.read_u16(0))
    }

    /// The number of keys, read from the header.
    pub fn n_keys(&self) -> (r: u16)
        ensures
            r == nkeys(self@),
    {
        self.read_u16(2)
    }

    /// Writes the type tag and the key count; every other byte stays.
    pub fn set_header(&mut self, b_type: u16, n_keys: u16)
        ensures
            tag(final(self)@) == b_type,
            nkeys(final(self)@) == n_keys,
            final(self)@.len() == old(self)@.len(),
            forall|q: int| HEADER <= q < old(self)@.len() ==> final(self)@[q] == old(self)@[q],
    {
        proof {
            use_type_invariant(&*self);
        }
        self.write_u16(0, b_type);
        self.write_u16(2, n_keys);
    }

    /// Child pointer `idx`, at byte `HEADER + 8 * idx`.
    pub fn get_ptr(&self, idx: u16) -> (r: u64)
        requires
            idx < nkeys(self@),
            ptr_pos(self@, idx as int) + 8 <= BTREE_PAGE_SIZE,
        ensures
            r == ptr(self@, idx as int),
    {
        let position: usize = HEADER + 8 * (idx as usize);
        self.read_u64(position)
    }

    /// Writes child pointer `idx`; every byte outside its slot stays.
    pub fn set_ptr(&mut self, idx: u16, value: u64)
        requires
            idx < nkeys(old(self)@),
            ptr_pos(old(self)@, idx as int) + 8 <= BTREE_PAGE_SIZE,
        ensures
            ptr(final(self)@, idx as int) == value,
            final(self)@.len() == old(self)@.len(),
            forall|q: int|
                0 <= q < old(self)@.len() && !(ptr_pos(old(self)@, idx as int) <= q
                    < ptr_pos(old(self)@, idx as int) + 8) ==> final(self)@[q] == old(self)@[q],
    {
        let position: usize = HEADER + 8 * (idx as usize);
        self.write_u64(position, value);
    }

    /// Byte position of the offset-table entry for slot `idx`, `1 <= idx <= n_keys`.
    pub fn offset_position(&self, idx: u16) -> (r: u16)
        requires
            1 <= idx <= nkeys(self@),
            offset_pos(self@, idx as int) + 2 <= BTREE_PAGE_SIZE,
        ensures
            r == offset_pos(self@, idx as int),
    {
        let n = self.n_keys() as usize;
        (HEADER + 8 * n + 2 * ((idx - 1) as usize)) as u16
    }

    /// Offset of record `idx` in the record area: 0 for the first record, else
    /// read from the offset table.
    pub fn get_offset(&self, idx: u16) -> (r: u16)
        requires
            idx <= nkeys(self@),
            idx == 0 || offset_pos(self@, idx as int) + 2 <= BTREE_PAGE_SIZE,
        ensures
            r == offset(self@, idx as int),
    {
        if idx == 0 {
            return 0;
        }
        let position = self.offset_position(idx);
        self.read_u16(position as usize)
    }

    /// Writes the offset-table entry for slot `idx`; every other byte stays.
    pub fn set_offset(&mut self, idx: u16, value: u16)
        requires
            1 <= idx <= nkeys(old(self)@),
            offset_pos(old(self)@, idx as int) + 2 <= BTREE_PAGE_SIZE,
        ensures
            offset(final(self)@, idx as int) == value,
            nkeys(final(self)@) == nkeys(old(self)@),
            final(self)@.len() == old(self)@.len(),
            forall|q: int|
                0 <= q < old(self)@.len() && !(offset_pos(old(self)@, idx as int) <= q
                    < offset_pos(old(self)@, idx as int) + 2) ==> final(self)@[q] == old(self)@[q],
    {
        proof {
            use_type_invariant(&*self);
        }
        let position = self.offset_position(idx);
        self.write_u16(position as usize, value);
        assert(nkeys(self@) == nkeys(old(self)@));
    }

    /// Byte position of record `idx`; for `idx == n_keys`, the end of the last
    /// record.
    pub fn get_kv_pair_position(&self, idx: u16) -> (r: u16)
        requires
            idx <= nkeys(self@),
            table_fits(self@),
            kv_pos(self@, idx as int) <= BTREE_PAGE_SIZE,
        ensures
            r == kv_pos(self@, idx as int),
    {
        let n = self.n_keys() as usize;
        let off = self.get_offset(idx) as usize;
        (HEADER + 8 * n + 2 * n + off) as u16
    }

    /// The key bytes of record `idx`, borrowed from the page.
    pub fn get_key(&self, idx: u16) -> (r: &[u8])
        requires
            idx < nkeys(self@),
            record_head_fits(self@, idx as int),
            kv_pos(self@, idx as int) + 4 + key_len(self@, idx as int) <= BTREE_PAGE_SIZE,
        ensures
            r@ == key(self@, idx as int),
    {
        proof {
            use_type_invariant(self);
        }
        let position = self.get_kv_pair_position(idx) as usize;
        let key_length = self.read_u16(position) as usize;
        slice_subrange(self.data.as_slice(), position + 4, position + 4 + key_length)
    }

    /// The value bytes of record `idx`, borrowed from the page.
    pub fn get_value(&self, idx: u16) -> (r: &[u8])
        requires
            idx < nkeys(self@),
            record_fits(self@, idx as int),
        ensures
            r@ == value(self@, idx as int),
    {
        proof {
            use_type_invariant(self);
        }
        let position = self.get_kv_pair_position(idx) as usize;
        let key_length = self.read_u16(position) as usize;
        let value_length = self.read_u16(position + 2) as usize;
        let start = position + 4 + key_length;
        slice_subrange(self.data.as_slice(), start, start + value_length)
    }

    /// The number of bytes in use: the end of the last record.
    pub fn num_used_bytes(&self) -> (r: u16)
        requires
            table_fits(self@),
            kv_pos(self@, nkeys(self@)) <= BTREE_PAGE_SIZE,
        ensures
            r == kv_pos(self@, nkeys(self@)),
    {
        let n = self.n_keys();
        self.get_kv_pair_position(n)
    }
}

} // verus!
