//! Building blocks shared by the panes.
pub mod cell_list;
pub mod tree_node;
