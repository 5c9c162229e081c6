use bnode::{build, split_in_two, split_point, BNode, BNodeType, BuildError, BTREE_PAGE_SIZE};

fn bytes(s: &str) -> Vec<u8> {
    s.as_bytes().to_vec()
}

fn leaf(keys: &[&str], vals: &[&str]) -> BNode {
    let ptrs = vec![0u64; keys.len()];
    let keys: Vec<Vec<u8>> = keys.iter().map(|k| bytes(k)).collect();
    let vals: Vec<Vec<u8>> = vals.iter().map(|v| bytes(v)).collect();
    build(BNodeType::LeafNode, &ptrs, &keys, &vals).unwrap()
}

#[test]
fn leaf_with_two_records() {
    let node = leaf(&["a", "c"], &["1", "3"]);
    assert_eq!(node.get_key(0), b"a");
    assert_eq!(node.get_value(1), b"3");
    assert_eq!(node.n_keys(), 2);
    assert_eq!(node.b_type(), BNodeType::LeafNode);
}

#[test]
fn internal_node_pointers() {
    let keys = vec![bytes("k1"), bytes("k2"), bytes("k3")];
    let vals = vec![Vec::new(), Vec::new(), Vec::new()];
    let mut node = build(BNodeType::InternalNode, &vec![10, 20, 30], &keys, &vals).unwrap();
    assert_eq!(node.n_keys(), 3);
    assert_eq!(node.b_type(), BNodeType::InternalNode);
    assert_eq!(node.get_ptr(2), 30);
    node.set_ptr(1, 99);
    assert_eq!(node.get_ptr(1), 99);
    assert_eq!(node.get_ptr(0), 10);
    assert_eq!(node.get_ptr(2), 30);
    assert_eq!(node.get_key(1), b"k2");
}

#[test]
fn round_trip_of_mixed_entries() {
    let ptrs = vec![7u64, u64::MAX, 0x0102_0304_0506_0708];
    let keys = vec![bytes(""), bytes("middle"), vec![0xffu8; 1000]];
    let vals = vec![bytes("first value"), Vec::new(), vec![0xabu8; 3000 - 1000]];
    let node = build(BNodeType::InternalNode, &ptrs, &keys, &vals).unwrap();
    assert_eq!(node.b_type(), BNodeType::InternalNode);
    assert_eq!(node.n_keys(), 3);
    for i in 0..3u16 {
        assert_eq!(node.get_ptr(i), ptrs[i as usize]);
        assert_eq!(node.get_key(i), keys[i as usize].as_slice());
        assert_eq!(node.get_value(i), vals[i as usize].as_slice());
    }
}

#[test]
fn byte_layout_is_little_endian() {
    let node = build(BNodeType::InternalNode, &vec![0x0102_0304_0506_0708], &vec![bytes("k")], &vec![bytes("vv")]).unwrap();
    let copy = node.copy_page();
    assert_eq!(copy.n_keys(), 1);
    assert_eq!(copy.get_ptr(0), 0x0102_0304_0506_0708);
    // header 4, one pointer 8, one offset 2: the record starts at 14
    assert_eq!(node.get_kv_pair_position(0), 14);
    assert_eq!(node.offset_position(1), 12);
    assert_eq!(node.get_offset(1), 4 + 1 + 2);
    assert_eq!(node.num_used_bytes(), 14 + 7);
}

#[test]
fn record_positions_increase() {
    let node = leaf(&["a", "bb", "ccc", "dddd"], &["1", "22", "", "4444"]);
    let n = node.n_keys();
    assert_eq!(n, 4);
    for i in 0..n {
        assert!(node.get_kv_pair_position(i) < node.get_kv_pair_position(i + 1));
    }
    assert_eq!(node.get_offset(0), 0);
    // records: 4+1+1, 4+2+2, 4+3+0, 4+4+4
    assert_eq!(node.get_offset(4), 6 + 8 + 7 + 12);
    let start = node.get_kv_pair_position(0);
    assert_eq!(start, 4 + 10 * 4);
    assert_eq!(node.num_used_bytes(), start + 6 + 8 + 7 + 12);
}

#[test]
fn empty_node() {
    let node = build(BNodeType::LeafNode, &Vec::new(), &Vec::new(), &Vec::new()).unwrap();
    assert_eq!(node.n_keys(), 0);
    assert_eq!(node.get_offset(0), 0);
    assert_eq!(node.num_used_bytes(), 4);
}

#[test]
fn exactly_full_page_is_accepted() {
    // 4 + 2 * (8 + 2) + 2 * 4 + 4064 == 4096
    let keys = vec![vec![1u8; 1000], vec![2u8; 1000]];
    let vals = vec![vec![3u8; 1032], vec![4u8; 1032]];
    let node = build(BNodeType::LeafNode, &vec![0, 0], &keys, &vals).unwrap();
    assert_eq!(node.num_used_bytes() as usize, BTREE_PAGE_SIZE);
    assert_eq!(node.get_value(1), vals[1].as_slice());
}

#[test]
fn one_byte_over_page_overflows() {
    let keys = vec![vec![1u8; 1000], vec![2u8; 1000]];
    let vals = vec![vec![3u8; 1032], vec![4u8; 1033]];
    let r = build(BNodeType::LeafNode, &vec![0, 0], &keys, &vals);
    assert_eq!(r.err(), Some(BuildError::PageOverflow));
}

#[test]
fn key_too_large_is_rejected() {
    let r = build(BNodeType::LeafNode, &vec![0], &vec![vec![0u8; 1001]], &vec![Vec::new()]);
    assert_eq!(r.err(), Some(BuildError::KeyTooLarge));
    let r = build(BNodeType::LeafNode, &vec![0], &vec![vec![0u8; 1000]], &vec![Vec::new()]);
    assert!(r.is_ok());
}

#[test]
fn value_too_large_is_rejected() {
    let r = build(BNodeType::LeafNode, &vec![0], &vec![Vec::new()], &vec![vec![0u8; 3001]]);
    assert_eq!(r.err(), Some(BuildError::ValueTooLarge));
    let r = build(BNodeType::LeafNode, &vec![0], &vec![vec![0u8; 1000]], &vec![vec![0u8; 3000]]);
    assert_eq!(r.unwrap().num_used_bytes(), 4 + 10 + 4 + 4000);
}

#[test]
fn key_error_comes_before_value_error() {
    let r = build(BNodeType::LeafNode, &vec![0, 0], &vec![Vec::new(), vec![0u8; 1001]], &vec![vec![0u8; 3001], Vec::new()]);
    assert_eq!(r.err(), Some(BuildError::KeyTooLarge));
}

#[test]
fn count_mismatch_is_rejected() {
    let r = build(BNodeType::LeafNode, &vec![0], &vec![bytes("a"), bytes("b")], &vec![bytes("1"), bytes("2")]);
    assert_eq!(r.err(), Some(BuildError::CountMismatch));
    let r = build(BNodeType::LeafNode, &vec![0, 0], &vec![bytes("a"), bytes("b")], &vec![bytes("1")]);
    assert_eq!(r.err(), Some(BuildError::CountMismatch));
}

#[test]
fn overflowing_leaf_splits_in_two() {
    let mut keys: Vec<Vec<u8>> = Vec::new();
    let mut vals: Vec<Vec<u8>> = Vec::new();
    let mut i = 0u32;
    loop {
        keys.push(format!("key{:04}", i).into_bytes());
        vals.push(vec![b'v'; 100]);
        i += 1;
        let ptrs = vec![0u64; keys.len()];
        match build(BNodeType::LeafNode, &ptrs, &keys, &vals) {
            Ok(node) => assert!(node.num_used_bytes() as usize <= BTREE_PAGE_SIZE),
            Err(e) => {
                assert_eq!(e, BuildError::PageOverflow);
                break;
            }
        }
    }
    let m = split_point(&keys, &vals).unwrap();
    assert!(0 < m && m < keys.len());
    let ptrs = vec![0u64; keys.len()];
    let (left, right) = split_in_two(BNodeType::LeafNode, &ptrs, &keys, &vals).unwrap();
    assert_eq!(left.n_keys() as usize, m);
    assert_eq!(right.n_keys() as usize, keys.len() - m);
    assert_eq!(right.b_type(), BNodeType::LeafNode);
    assert!(left.num_used_bytes() as usize <= BTREE_PAGE_SIZE);
    assert!(right.num_used_bytes() as usize <= BTREE_PAGE_SIZE);
    let mut joined: Vec<Vec<u8>> = Vec::new();
    for j in 0..left.n_keys() {
        joined.push(left.get_key(j).to_vec());
    }
    for j in 0..right.n_keys() {
        joined.push(right.get_key(j).to_vec());
    }
    assert_eq!(joined, keys);
}

#[test]
fn split_point_is_least_fitting() {
    // three large entries: only 1 | 2 or 2 | 1 could work; 1 | 2 does not fit
    let keys = vec![vec![0u8; 1000], vec![1u8; 1000], vec![2u8; 1000]];
    let vals = vec![vec![0u8; 1000], vec![0u8; 1000], vec![0u8; 1000]];
    // halves of sizes 4+10+2004 and 4+20+4008: both fit, least point is 1
    assert_eq!(split_point(&keys, &vals), Some(1));
    let vals = vec![vec![0u8; 1000], vec![0u8; 2000], vec![0u8; 1100]];
    // 0..1 | 1..3: right is 4+20+3004+2104 > 4096; 0..2 | 2..3: 4+20+2004+3004 = 5032 > 4096
    assert_eq!(split_point(&keys, &vals), None);
}

#[test]
fn split_point_of_short_lists() {
    assert_eq!(split_point(&Vec::new(), &Vec::new()), None);
    assert_eq!(split_point(&vec![bytes("a")], &vec![bytes("1")]), None);
    assert_eq!(split_point(&vec![bytes("a"), bytes("b")], &vec![bytes("1"), bytes("2")]), Some(1));
}

#[test]
fn node_type_tags() {
    assert_eq!(BNodeType::from_u16(1), BNodeType::InternalNode);
    assert_eq!(BNodeType::from_u16(2), BNodeType::LeafNode);
    assert_eq!(BNodeType::LeafNode.to_u16(), 2);
    assert_eq!(BNodeType::InternalNode.to_u16(), 1);
}

#[test]
fn header_and_offsets_by_hand() {
    let mut node = BNode::new();
    assert_eq!(node.n_keys(), 0);
    node.set_header(2, 3);
    assert_eq!(node.n_keys(), 3);
    assert_eq!(node.b_type(), BNodeType::LeafNode);
    assert_eq!(node.offset_position(1), 4 + 24);
    assert_eq!(node.offset_position(3), 4 + 24 + 4);
    node.set_offset(2, 0x1234);
    assert_eq!(node.get_offset(2), 0x1234);
    assert_eq!(node.get_offset(1), 0);
    node.set_ptr(2, 5);
    assert_eq!(node.get_ptr(2), 5);
    node.append_kv(0, 42, b"key", b"value");
    assert_eq!(node.get_ptr(0), 42);
    assert_eq!(node.get_offset(1), 4 + 3 + 5);
    assert_eq!(node.get_key(0), b"key");
    assert_eq!(node.get_value(0), b"value");
}

#[test]
fn split_keeps_pointers_and_values() {
    let keys = vec![vec![b'a'; 1000], vec![b'b'; 1000], vec![b'c'; 1000]];
    let vals = vec![vec![1u8; 1000], vec![2u8; 1000], vec![3u8; 1000]];
    let ptrs = vec![11u64, 22, 33];
    assert!(build(BNodeType::InternalNode, &ptrs, &keys, &vals).is_err());
    let (left, right) = split_in_two(BNodeType::InternalNode, &ptrs, &keys, &vals).unwrap();
    assert_eq!(left.n_keys(), 1);
    assert_eq!(left.get_ptr(0), 11);
    assert_eq!(left.get_value(0), vals[0].as_slice());
    assert_eq!(right.n_keys(), 2);
    assert_eq!(right.get_ptr(0), 22);
    assert_eq!(right.get_ptr(1), 33);
    assert_eq!(right.get_key(1), keys[2].as_slice());
    assert_eq!(right.get_value(0), vals[1].as_slice());
}

#[test]
fn split_fails_when_no_point_fits() {
    let keys = vec![vec![0u8; 1000], vec![1u8; 1000], vec![2u8; 1000]];
    let vals = vec![vec![0u8; 1000], vec![0u8; 2000], vec![0u8; 1100]];
    assert!(split_in_two(BNodeType::LeafNode, &vec![0, 0, 0], &keys, &vals).is_none());
    let one = vec![vec![0u8; 10]];
    assert!(split_in_two(BNodeType::LeafNode, &vec![0], &one, &one).is_none());
}
