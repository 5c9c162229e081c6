//! Page indirection: logical page pointers resolved through a page store, and
//! the tree handle that holds the root pointer.
use vstd::prelude::*;

use crate::layout::well_formed;
use crate::node::BNode;

verus! {

/// Maps 64-bit logical page pointers to pages.
///
/// A page is handed to the store once it is built and is never changed after:
/// changing a node means storing a new page under a new pointer.
pub trait PageStore {
    /// The pages the store currently serves, by pointer.
    spec fn pages(&self) -> Map<u64, Seq<u8>>;

    /// The store has room for one more page.
    spec fn can_allocate(&self) -> bool;

    /// The page under `pointer`; a pointer the store does not serve (never
    /// given out, or deleted) is a caller error.
    fn get(&self, pointer: u64) -> (r: &BNode)
        requires
            self.pages().contains_key(pointer),
        ensures
            r@ == self.pages()[pointer],
    ;

    /// Stores a well-formed page under a pointer that the store did not serve,
    /// and returns that pointer.
    fn new(&mut self, node: BNode) -> (r: u64)
        requires
            old(self).can_allocate(),
            well_formed(node@),
        ensures
            !old(self).pages().contains_key(r),
            final(self).pages() == old(self).pages().insert(r, node@),
    ;

    /// Releases `pointer`; the store no longer serves it.
    fn del(&mut self, pointer: u64)
        ensures
            final(self).pages() == old(self).pages().remove(pointer),
    ;
}

/// Once a store has deleted `pointer`, it no longer serves it: a `get` of it
/// afterwards is outside `get`'s contract, whatever the store.
pub proof fn lemma_deleted_not_served<S: PageStore>(before: S, after: S, pointer: u64)
    requires
        after.pages() == before.pages().remove(pointer),
    ensures
        !after.pages().contains_key(pointer),
{
}

/// A page store in memory: pointer `p` names slot `p` of a table, and slots
/// are never reused.
pub struct MemPageStore {
    slots: Vec<Option<BNode>>,
}

impl MemPageStore {
    /// An empty store.
    pub fn new_store() -> (r: MemPageStore)
        ensures
            r.pages() == Map::<u64, Seq<u8>>::empty(),
            r.can_allocate(),
    {
        let r = MemPageStore { slots: Vec::new() };
        assert(r.pages() =~= Map::<u64, Seq<u8>>::empty());
        r
    }
}

impl PageStore for MemPageStore {
    closed spec fn pages(&self) -> Map<u64, Seq<u8>> {
        Map::new(
            |p: u64| (p as int) < self.slots@.len() && self.slots@[p as int] is Some,
            |p: u64| self.slots@[p as int]->Some_0@,
        )
    }

    closed spec fn can_allocate(&self) -> bool {
        self.slots@.len() < u64::MAX
    }

    fn get(&self, pointer: u64) -> (r: &BNode) {
        assert(self.pages().dom().contains(pointer));
        assert((pointer as int) < self.slots@.len() && self.slots@[pointer as int] is Some);
        let len = self.slots.len();
        assert(pointer < len);
        let i = pointer as usize;
        self.slots[i].as_ref().unwrap()
    }

    fn new(&mut self, node: BNode) -> (r: u64) {
        let r = self.slots.len() as u64;
        self.slots.push(Some(node));
        assert(self.pages() =~= old(self).pages().insert(r, node@));
        r
    }

    fn del(&mut self, pointer: u64) {
        if (pointer as u128) < (self.slots.len() as u128) {
            self.slots.set(pointer as usize, None);
        }
        assert(self.pages() =~= old(self).pages().remove(pointer));
    }
}

/// A copy-on-write B-tree, known by the pointer of its root page.
pub struct BTree {
    root: u64,
}

impl View for BTree {
    type V = u64;

    closed spec fn view(&self) -> u64 {
        self.root
    }
}

impl BTree {
    /// A tree whose root page is under `root`.
    pub fn new(root: u64) -> (r: BTree)
        ensures
            r@ == root,
    {
        BTree { root }
    }

    /// The pointer of the root page.
    pub fn root(&self) -> (r: u64)
        ensures
            r == self@,
    {
        self.root
    }

    /// The root page, read through `store`.
    pub fn root_node<'a, S: PageStore>(&self, store: &'a S) -> (r: &'a BNode)
        requires
            store.pages().contains_key(self@),
        ensures
            r@ == store.pages()[self@],
    {
        store.get(self.root)
    }

    /// Publishes `node` as the new root: stores it under a fresh pointer and
    /// points the tree at it. The old root page stays in the store, so readers
    /// that hold the old root still see the old tree; its pointer is returned.
    pub fn publish_root<S: PageStore>(&mut self, store: &mut S, node: BNode) -> (r: u64)
        requires
            old(store).can_allocate(),
            well_formed(node@),
        ensures
            r == old(self)@,
            !old(store).pages().contains_key(final(self)@),
            final(store).pages() == old(store).pages().insert(final(self)@, node@),
    {
        let previous = self.root;
        self.root = store.new(node);
        previous
    }
}

} // verus!
