//! The hierarchy navigator: the module tree and the module selected in it.
pub mod hier_nav;
pub mod hier_node;
pub mod modules;
