//! Interfaces required by custom widgets.
use vstd::prelude::*;

verus! {

/// The options shown when a cell is right clicked. Each option has a name
/// to show and the message it sends.
pub trait CellOption: Sized {
    type Message;

    /// All option variants.
    fn all() -> &'static [Self];

    /// The message this option sends.
    fn to_message(&self) -> Self::Message;
}

/// A node of a hierarchy that may hold nested nodes of type `T`.
pub trait Nested<T> {
    /// The nested nodes, if this node has any.
    #[allow(non_snake_case)]
    fn GetChildren(&self) -> Option<&[T]>;
}

} // verus!
