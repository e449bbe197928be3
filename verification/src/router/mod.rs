pub mod model;
pub mod trie;
