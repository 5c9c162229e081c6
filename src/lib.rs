//! Node encoding and page indirection for a copy-on-write B-tree.
//!
//! A node is one fixed-size page of bytes. `layout` states what the bytes of a
//! page mean, `node` reads and writes single fields of a page, `encode` builds a
//! whole node from its logical content and chooses split points, and `store`
//! maps logical page pointers to pages and holds the tree's root pointer.
pub mod layout;
pub mod node;
pub mod encode;
pub mod store;

pub use layout::{BTREE_MAX_KEY_SIZE, BTREE_MAX_VAL_SIZE, BTREE_PAGE_SIZE, HEADER};
pub use encode::{build, split_in_two, split_point, BuildError};
pub use node::{BNode, BNodeType};
pub use store::{BTree, MemPageStore, PageStore};
