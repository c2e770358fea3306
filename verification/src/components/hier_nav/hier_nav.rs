//! The hierarchy navigator pane.
use super::hier_node::{hier_ok, HierMap, HierRoot, flip_expanded};
use std::sync::Arc;
use vstd::prelude::*;

verus! {

/// The context-menu options of a module.
#[derive(Debug, Clone, Copy, PartialEq, Eq, Structural)]
pub enum HierOptions {
    Expand,
}

impl HierOptions {
    pub const ALL: [HierOptions; 1] = [HierOptions::Expand];

    /// The name shown for this option.
    pub fn name(&self) -> (r: &'static str)
        ensures
            r@ == "Expand"@,
    {
        "Expand"
    }
}

/// The messages of the hierarchy navigator.
pub enum Message {
    /// Sets the hierarchy; sent when a design is loaded.
    SetHier(Arc<HierMap>),
    /// Toggles whether a module's hierarchy is expanded.
    Toggle(usize),
    /// Toggles whether a module is the one inspected: a module other than
    /// the live one becomes live (its signals go to the module navigator);
    /// the live module stops being live.
    SendModule(usize),
}

/// The live module after `SendModule(module_idx)`.
pub open spec fn live_next(live: Option<usize>, module_idx: usize) -> Option<usize> {
    match live {
        Some(index) => if index == module_idx {
            None
        } else {
            Some(module_idx)
        },
        None => Some(module_idx),
    }
}

/// Whether `after` is the navigator once `before` handles `message`: a new
/// hierarchy is built with every module collapsed, a toggle expands or
/// collapses one module, and sending a module changes the live module (see
/// [`live_next`]).
pub open spec fn hiernav_step(before: HierNav, after: HierNav, message: Message) -> bool {
    match message {
        Message::SetHier(map) => {
            &&& after.live() == before.live()
            &&& after.root().roots().len() == map.roots@.len()
            &&& forall|i: int|
                0 <= i < after.root().roots().len() ==> super::hier_node::node_matches(
                    #[trigger] after.root().roots()[i],
                    map.module_list@,
                    map.roots@[i] as int,
                    after.root().flags().dom(),
                )
            &&& super::hier_node::all_cleared(after.root().flags())
            &&& after.root().flags().dom() == super::hier_node::nodes_ids(after.root().roots())
        },
        Message::Toggle(module_idx) => {
            &&& after.live() == before.live()
            &&& after.root().roots() == before.root().roots()
            &&& after.root().flags() == flip_expanded(before.root().flags(), module_idx)
        },
        Message::SendModule(module_idx) => {
            &&& after.live() == live_next(before.live(), module_idx)
            &&& after.root() == before.root()
        },
    }
}

/// The hierarchy navigator: the module tree and the live module.
pub struct HierNav {
    live_module: Option<usize>,
    hier_root: HierRoot,
}

impl HierNav {
    /// The module whose signals are shown, if any.
    pub closed spec fn live(&self) -> Option<usize> {
        self.live_module
    }

    pub closed spec fn root(&self) -> &HierRoot {
        &self.hier_root
    }

    /// The module whose signals are shown, if any.
    pub fn live_module(&self) -> (r: Option<usize>)
        ensures
            r == self.live(),
    {
        self.live_module
    }

    /// The module tree.
    pub fn hier_root(&self) -> (r: &HierRoot)
        ensures
            r == self.root(),
    {
        &self.hier_root
    }

    /// Handles a message (see [`Message`]).
    pub fn update(&mut self, message: Message)
        requires
            message matches Message::SetHier(map) ==> hier_ok(*map),
        ensures
            hiernav_step(*old(self), *final(self), message),
    {
        match message {
            Message::SetHier(payload) => {
                self.hier_root = HierRoot::from(&*payload);
            },
            Message::Toggle(module_idx) => {
                self.hier_root.update_expander(module_idx);
            },
            Message::SendModule(module_idx) => {
                self.live_module = match self.live_module {
                    Some(index) => if index == module_idx {
                        None
                    } else {
                        Some(module_idx)
                    },
                    None => Some(module_idx),
                };
            },
        }
    }
}

impl Default for HierNav {
    fn default() -> (r: Self)
        ensures
            r.live() is None,
            r.root().roots().len() == 0,
            r.root().flags() == Map::<usize, super::hier_node::SharedNodeState>::empty(),
    {
        HierNav { live_module: None, hier_root: HierRoot::new() }
    }
}

/// Sending the same module twice leaves no module live; sending another
/// module makes that one live.
pub proof fn lemma_send_module_twice(live: Option<usize>, module_idx: usize, other: usize)
    ensures
        live_next(live_next(live, module_idx), module_idx) == (if live == Some(module_idx) {
            Some(module_idx)
        } else {
            None::<usize>
        }),
        other != module_idx ==> live_next(live_next(live, module_idx), other) == Some(other),
{
}

} // verus!
