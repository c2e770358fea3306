//! The interface of payloads shown in a tree.
use vstd::prelude::*;

verus! {

/// A payload that knows whether it has children to expand.
pub trait HasChildren {
    fn has_children(&self) -> bool;
}

} // verus!
