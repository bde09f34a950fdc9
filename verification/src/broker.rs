pub mod laws;
pub mod state;
pub mod topic_tree;
