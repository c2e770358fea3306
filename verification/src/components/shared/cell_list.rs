//! A list of cells, each knowing its own position in the list and whether it
//! is selected.
use crate::widgets::cell2;
use vstd::prelude::*;

verus! {

/// Carries state specific to list node.
#[derive(Debug, Copy, Clone, PartialEq, Eq, Structural)]
pub struct ListNodeState {
    /// offset into the CellList
    pub offset: usize,
    /// bool on if this node has or hasn't been seleted
    pub selected: bool,
}

impl Default for ListNodeState {
    fn default() -> (r: Self)
        ensures
            r == (ListNodeState { offset: 0, selected: false }),
    {
        ListNodeState { offset: 0, selected: false }
    }
}

/// One cell of a [`CellList`]: its widget state, its list state and the
/// entries of its context menu.
pub struct ListNode<E> {
    ui_state: cell2::State,
    node_state: ListNodeState,
    entries: Vec<E>,
}

impl<E> ListNode<E> {
    pub closed spec fn state(&self) -> ListNodeState {
        self.node_state
    }

    pub closed spec fn entry_list(&self) -> Seq<E> {
        self.entries@
    }

    fn new(offset: usize) -> (r: Self)
        ensures
            r.state() == (ListNodeState { offset, selected: false }),
            r.entry_list() == Seq::<E>::empty(),
    {
        ListNode {
            ui_state: cell2::State::new(),
            node_state: ListNodeState { offset, selected: false },
            entries: Vec::new(),
        }
    }

    fn set_entries(self, entries: Vec<E>) -> (r: Self)
        ensures
            r.state() == self.state(),
            r.entry_list() == entries@,
    {
        ListNode { entries, ..self }
    }

    /// This node's list state.
    pub fn node_state(&self) -> (r: ListNodeState)
        ensures
            r == self.state(),
    {
        self.node_state
    }

    /// The entries of this node's context menu.
    pub fn entries(&self) -> (r: &Vec<E>)
        ensures
            r@ == self.entry_list(),
    {
        &self.entries
    }
}

/// A column of cells. Every cell's offset is its index in the list.
pub struct CellList<E> {
    nodes: Vec<ListNode<E>>,
    text_size: Option<u16>,
    cell_padding: Option<u16>,
    spacing: u16,
}

/// The list states of `nodes`, in order.
pub open spec fn states_of<E>(nodes: Seq<ListNode<E>>) -> Seq<ListNodeState> {
    nodes.map_values(|n: ListNode<E>| n.state())
}

/// The context-menu entries of `nodes`, in order.
pub open spec fn entries_of<E>(nodes: Seq<ListNode<E>>) -> Seq<Seq<E>> {
    nodes.map_values(|n: ListNode<E>| n.entry_list())
}

/// The selection flags of `states`, in order.
pub open spec fn flags_of(states: Seq<ListNodeState>) -> Seq<bool> {
    states.map_values(|s: ListNodeState| s.selected)
}

/// Whether each state's offset is its index.
pub open spec fn offsets_match(states: Seq<ListNodeState>) -> bool {
    forall|i: int| 0 <= i < states.len() ==> (#[trigger] states[i]).offset == i
}

impl<E> CellList<E> {
    /// The list states of the cells, in order.
    pub closed spec fn states(&self) -> Seq<ListNodeState> {
        states_of(self.nodes@)
    }

    /// The context-menu entries of the cells, in order.
    pub closed spec fn entry_lists(&self) -> Seq<Seq<E>> {
        entries_of(self.nodes@)
    }

    pub closed spec fn text_size_spec(&self) -> Option<u16> {
        self.text_size
    }

    pub closed spec fn cell_padding_spec(&self) -> Option<u16> {
        self.cell_padding
    }

    pub closed spec fn spacing_spec(&self) -> u16 {
        self.spacing
    }

    /// Which cells are selected, in order.
    pub open spec fn selected_flags(&self) -> Seq<bool> {
        flags_of(self.states())
    }

    /// Every cell's offset is its index, and every cell has its entries.
    pub open spec fn wf(&self) -> bool {
        &&& offsets_match(self.states())
        &&& self.entry_lists().len() == self.states().len()
    }

    /// The cells, in order.
    pub fn nodes(&self) -> (r: &Vec<ListNode<E>>)
        ensures
            states_of(r@) == self.states(),
            entries_of(r@) == self.entry_lists(),
    {
        &self.nodes
    }

    /// `size` unselected cells with no entries, default layout.
    pub fn new(size: usize) -> (r: Self)
        ensures
            r.wf(),
            r.states().len() == size,
            forall|i: int| 0 <= i < size ==> !(#[trigger] r.states()[i]).selected,
            r.selected_flags() == Seq::new(size as nat, |i: int| false),
            forall|i: int| 0 <= i < size ==> (#[trigger] r.entry_lists()[i]) == Seq::<E>::empty(),
            r.text_size_spec() is None,
            r.cell_padding_spec() is None,
            r.spacing_spec() == 0,
    {
        let mut nodes: Vec<ListNode<E>> = Vec::new();
        for idx in 0..size
            invariant
                nodes@.len() == idx,
                forall|i: int|
                    0 <= i < idx ==> (#[trigger] nodes@[i]).state() == (ListNodeState {
                        offset: i as usize,
                        selected: false,
                    }),
                forall|i: int| 0 <= i < idx ==> (#[trigger] nodes@[i]).entry_list() == Seq::<E>::empty(),
        {
            nodes.push(ListNode::new(idx));
        }
        let r = CellList { nodes, text_size: None, cell_padding: None, spacing: 0 };
        proof {
            assert(r.selected_flags() =~= Seq::new(size as nat, |i: int| false));
        }
        r
    }

    /// Appends an unselected cell with the given context-menu entries.
    pub fn push_with_entries(&mut self, entries: Vec<E>)
        requires
            old(self).wf(),
        ensures
            final(self).wf(),
            final(self).states() == old(self).states().push(
                ListNodeState { offset: old(self).states().len() as usize, selected: false },
            ),
            final(self).entry_lists() == old(self).entry_lists().push(entries@),
            final(self).selected_flags() == old(self).selected_flags().push(false),
            final(self).text_size_spec() == old(self).text_size_spec(),
            final(self).cell_padding_spec() == old(self).cell_padding_spec(),
            final(self).spacing_spec() == old(self).spacing_spec(),
    {
        let node = ListNode::new(self.nodes.len()).set_entries(entries);
        self.nodes.push(node);
        proof {
            assert(self.states() =~= old(self).states().push(
                ListNodeState { offset: old(self).states().len() as usize, selected: false },
            ));
            assert(self.entry_lists() =~= old(self).entry_lists().push(entries@));
            assert(self.selected_flags() =~= old(self).selected_flags().push(false));
        }
    }

    /// Appends an unselected cell with no entries.
    pub fn push(&mut self)
        requires
            old(self).wf(),
        ensures
            final(self).wf(),
            final(self).states() == old(self).states().push(
                ListNodeState { offset: old(self).states().len() as usize, selected: false },
            ),
            final(self).entry_lists() == old(self).entry_lists().push(Seq::<E>::empty()),
            final(self).selected_flags() == old(self).selected_flags().push(false),
            final(self).text_size_spec() == old(self).text_size_spec(),
            final(self).cell_padding_spec() == old(self).cell_padding_spec(),
            final(self).spacing_spec() == old(self).spacing_spec(),
    {
        let node = ListNode::new(self.nodes.len());
        self.nodes.push(node);
        proof {
            assert(self.states() =~= old(self).states().push(
                ListNodeState { offset: old(self).states().len() as usize, selected: false },
            ));
            assert(self.entry_lists() =~= old(self).entry_lists().push(Seq::<E>::empty()));
            assert(self.selected_flags() =~= old(self).selected_flags().push(false));
        }
    }

    /// Removes the cell at `idx`; the cells after it move up one place and
    /// their offsets follow.
    pub fn remove(&mut self, idx: usize)
        requires
            idx < old(self).states().len(),
        ensures
            final(self).wf(),
            final(self).states().len() == old(self).states().len() - 1,
            final(self).selected_flags() == old(self).selected_flags().remove(idx as int),
            final(self).entry_lists() == old(self).entry_lists().remove(idx as int),
            final(self).text_size_spec() == old(self).text_size_spec(),
            final(self).cell_padding_spec() == old(self).cell_padding_spec(),
            final(self).spacing_spec() == old(self).spacing_spec(),
    {
        self.nodes.remove(idx);
        let ghost removed = self.nodes@;
        proof {
            assert(states_of(removed) =~= old(self).states().remove(idx as int));
            assert(entries_of(removed) =~= old(self).entry_lists().remove(idx as int));
        }
        let n = self.nodes.len();
        for i in 0..n
            invariant
                n == self.nodes@.len(),
                removed.len() == n,
                forall|j: int| 0 <= j < i ==> (#[trigger] self.nodes@[j]).state().offset == j,
                forall|j: int|
                    0 <= j < n ==> (#[trigger] self.nodes@[j]).state().selected == removed[j].state().selected,
                forall|j: int| 0 <= j < n ==> (#[trigger] self.nodes@[j]).entry_list() == removed[j].entry_list(),
                self.text_size == old(self).text_size,
                self.cell_padding == old(self).cell_padding,
                self.spacing == old(self).spacing,
        {
            self.nodes[i].node_state.offset = i;
        }
        proof {
            assert(self.entry_lists() =~= entries_of(removed));
            assert(self.selected_flags() =~= old(self).selected_flags().remove(idx as int));
        }
    }

    /// The number of cells.
    pub fn len(&self) -> (r: usize)
        ensures
            r == self.states().len(),
    {
        self.nodes.len()
    }

    /// Marks the cell at `offset` selected or not; an offset past the end
    /// changes nothing.
    pub fn toggle_selected(&mut self, offset: usize, selected: bool)
        requires
            old(self).wf(),
        ensures
            final(self).wf(),
            offset < old(self).states().len() ==> final(self).states() == old(self).states().update(
                offset as int,
                ListNodeState { offset, selected },
            ),
            offset >= old(self).states().len() ==> final(self).states() == old(self).states(),
            offset < old(self).states().len() ==> final(self).selected_flags() == old(
                self,
            ).selected_flags().update(offset as int, selected),
            offset >= old(self).states().len() ==> final(self).selected_flags() == old(self).selected_flags(),
            final(self).entry_lists() == old(self).entry_lists(),
            final(self).text_size_spec() == old(self).text_size_spec(),
            final(self).cell_padding_spec() == old(self).cell_padding_spec(),
            final(self).spacing_spec() == old(self).spacing_spec(),
    {
        if offset < self.nodes.len() {
            assert(old(self).states()[offset as int].offset == offset);
            self.nodes[offset].node_state.selected = selected;
            proof {
                assert(self.states() =~= old(self).states().update(
                    offset as int,
                    ListNodeState { offset, selected },
                ));
                assert(self.entry_lists() =~= old(self).entry_lists());
                assert(self.selected_flags() =~= old(self).selected_flags().update(offset as int, selected));
            }
        }
    }

    /// Sets the text size of every cell.
    pub fn set_text_size(self, text_size: u16) -> (r: Self)
        ensures
            r.states() == self.states(),
            r.entry_lists() == self.entry_lists(),
            r.text_size_spec() == Some(text_size),
            r.cell_padding_spec() == self.cell_padding_spec(),
            r.spacing_spec() == self.spacing_spec(),
    {
        CellList { text_size: Some(text_size), ..self }
    }

    /// Sets padding per cell (as in between the top of the cell, the text,
    /// and the bottom of the cell).
    pub fn set_cell_padding(self, padding: u16) -> (r: Self)
        ensures
            r.states() == self.states(),
            r.entry_lists() == self.entry_lists(),
            r.text_size_spec() == self.text_size_spec(),
            r.cell_padding_spec() == Some(padding),
            r.spacing_spec() == self.spacing_spec(),
    {
        CellList { cell_padding: Some(padding), ..self }
    }

    /// Sets the space between cells.
    pub fn set_spacing(self, padding: u16) -> (r: Self)
        ensures
            r.states() == self.states(),
            r.entry_lists() == self.entry_lists(),
            r.text_size_spec() == self.text_size_spec(),
            r.cell_padding_spec() == self.cell_padding_spec(),
            r.spacing_spec() == padding,
    {
        CellList { spacing: padding, ..self }
    }

    /// Removes every cell.
    pub fn clear(&mut self)
        ensures
            final(self).wf(),
            final(self).states() == Seq::<ListNodeState>::empty(),
            final(self).selected_flags() == Seq::<bool>::empty(),
            final(self).entry_lists() == Seq::<Seq<E>>::empty(),
            final(self).text_size_spec() == old(self).text_size_spec(),
            final(self).cell_padding_spec() == old(self).cell_padding_spec(),
            final(self).spacing_spec() == old(self).spacing_spec(),
    {
        self.nodes.clear();
        proof {
            assert(self.states() =~= Seq::<ListNodeState>::empty());
            assert(self.selected_flags() =~= Seq::<bool>::empty());
            assert(self.entry_lists() =~= Seq::<Seq<E>>::empty());
        }
    }

    /// The text size of the cells, if set.
    pub fn text_size(&self) -> (r: Option<u16>)
        ensures
            r == self.text_size_spec(),
    {
        self.text_size
    }

    /// The padding of the cells, if set.
    pub fn cell_padding(&self) -> (r: Option<u16>)
        ensures
            r == self.cell_padding_spec(),
    {
        self.cell_padding
    }

    /// The space between cells.
    pub fn spacing(&self) -> (r: u16)
        ensures
            r == self.spacing_spec(),
    {
        self.spacing
    }
}

impl<E> Default for CellList<E> {
    fn default() -> (r: Self)
        ensures
            r.wf(),
            r.states() == Seq::<ListNodeState>::empty(),
            r.selected_flags() == Seq::<bool>::empty(),
            r.entry_lists() == Seq::<Seq<E>>::empty(),
            r.text_size_spec() is None,
            r.cell_padding_spec() is None,
            r.spacing_spec() == 0,
    {
        let r = CellList { nodes: Vec::new(), text_size: None, cell_padding: None, spacing: 0 };
        proof {
            assert(r.states() =~= Seq::<ListNodeState>::empty());
            assert(r.selected_flags() =~= Seq::<bool>::empty());
            assert(r.entry_lists() =~= Seq::<Seq<E>>::empty());
        }
        r
    }
}

/// After a removal, the cells before the removed one keep their selection,
/// and each cell after it keeps its selection one place up.
pub proof fn lemma_remove_keeps_selection(flags: Seq<bool>, idx: int)
    requires
        0 <= idx < flags.len(),
    ensures
        forall|i: int| 0 <= i < idx ==> (#[trigger] flags.remove(idx)[i]) == flags[i],
        forall|i: int| idx < i < flags.len() ==> (#[trigger] flags.remove(idx)[i - 1]) == flags[i],
{
}

} // verus!
