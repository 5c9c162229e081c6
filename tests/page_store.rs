use bnode::{build, BNodeType, BTree, MemPageStore, PageStore};

fn one_leaf(key: &str, val: &str) -> bnode::BNode {
    build(BNodeType::LeafNode, &vec![0], &vec![key.as_bytes().to_vec()], &vec![val.as_bytes().to_vec()]).unwrap()
}

#[test]
fn store_resolves_pointers() {
    let mut store = MemPageStore::new_store();
    let p = store.new(one_leaf("a", "1"));
    let q = store.new(one_leaf("b", "2"));
    assert_ne!(p, q);
    assert_eq!(store.get(p).get_key(0), b"a");
    assert_eq!(store.get(q).get_value(0), b"2");
}

#[test]
fn deleted_pointer_is_not_reused() {
    let mut store = MemPageStore::new_store();
    let p = store.new(one_leaf("a", "1"));
    store.del(p);
    let q = store.new(one_leaf("b", "2"));
    assert_ne!(p, q);
    assert_eq!(store.get(q).get_key(0), b"b");
}

#[test]
fn publishing_a_root_keeps_the_old_one() {
    let mut store = MemPageStore::new_store();
    let first = store.new(one_leaf("a", "1"));
    let mut tree = BTree::new(first);
    assert_eq!(tree.root(), first);
    let old = tree.publish_root(&mut store, one_leaf("a", "2"));
    assert_eq!(old, first);
    assert_ne!(tree.root(), first);
    assert_eq!(tree.root_node(&store).get_value(0), b"2");
    assert_eq!(store.get(first).get_value(0), b"1");
}
