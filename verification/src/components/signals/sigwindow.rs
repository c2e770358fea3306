//! The signal viewer: the list of added waves, with selection and removal.
use super::Message;
use crate::backend::InMemWave;
use crate::components::shared::cell_list::CellList;
use crate::widgets::traits::CellOption;
use std::sync::Arc;
use vstd::prelude::*;

verus! {

/// The context-menu options of a wave in the signal viewer.
#[derive(Debug, Clone, Copy, PartialEq, Eq, Structural)]
pub enum WaveOptions {
    Delete,
}

impl WaveOptions {
    pub const ALL: [WaveOptions; 1] = [WaveOptions::Delete];

    /// The name shown for this option.
    pub fn name(&self) -> (r: &'static str)
        ensures
            r@ == "Delete"@,
    {
        "Delete"
    }
}

impl CellOption for WaveOptions {
    type Message = Message;

    fn all() -> (r: &'static [Self])
        ensures
            r@ == seq![WaveOptions::Delete],
    {
        &WaveOptions::ALL
    }

    fn to_message(&self) -> (r: Message)
        ensures
            r is RemoveSelected,
    {
        match self {
            WaveOptions::Delete => Message::RemoveSelected,
        }
    }
}

} // verus!

verus! {

/// The selection flags after clearing each listed offset; offsets past the
/// end are skipped.
pub open spec fn deselect(flags: Seq<bool>, sel: Seq<usize>) -> Seq<bool>
    decreases sel.len(),
{
    if sel.len() == 0 {
        flags
    } else {
        let f = deselect(flags, sel.drop_last());
        if sel.last() < f.len() {
            f.update(sel.last() as int, false)
        } else {
            f
        }
    }
}

/// The flags after removing the listed offsets, the last listed first.
pub open spec fn remove_last_first(flags: Seq<bool>, sel: Seq<usize>) -> Seq<bool>
    decreases sel.len(),
{
    if sel.len() == 0 {
        flags
    } else {
        remove_last_first(flags, sel.drop_first()).remove(sel[0] as int)
    }
}

/// Whether removing the listed offsets from `len` cells, the last listed
/// first, stays in range at every step.
pub open spec fn removable_last_first(sel: Seq<usize>, len: nat) -> bool
    decreases sel.len(),
{
    sel.len() == 0 || (removable_last_first(sel.drop_first(), len) && sel[0] + sel.len() <= len)
}

/// Removing the listed offsets stays in range exactly when each offset is
/// below the cells left when it is removed.
proof fn lemma_removable_each(sel: Seq<usize>, len: nat)
    ensures
        removable_last_first(sel, len) <==> (forall|j: int|
            0 <= j < sel.len() ==> #[trigger] sel[j] + (sel.len() - j) <= len),
    decreases sel.len(),
{
    if sel.len() > 0 {
        lemma_removable_each(sel.drop_first(), len);
        if forall|j: int| 0 <= j < sel.len() ==> #[trigger] sel[j] + (sel.len() - j) <= len {
            assert forall|j: int| 0 <= j < sel.drop_first().len() implies #[trigger] sel.drop_first()[j] + (
            sel.drop_first().len() - j) <= len by {
                assert(sel[j + 1] + (sel.len() - (j + 1)) <= len);
            }
        }
        if removable_last_first(sel, len) {
            assert forall|j: int| 0 <= j < sel.len() implies #[trigger] sel[j] + (sel.len() - j) <= len by {
                if j > 0 {
                    assert(sel.drop_first()[j - 1] + (sel.drop_first().len() - (j - 1)) <= len);
                }
            }
        }
    }
}

/// The selection flags after the viewer handles `message`.
pub open spec fn flags_next(flags: Seq<bool>, selection: Option<Seq<usize>>, message: Message) -> Seq<bool> {
    match message {
        Message::AddWave(Ok(_)) => flags.push(false),
        Message::ClearWaves => Seq::empty(),
        Message::RemoveSelected => match selection {
            Some(sel) => remove_last_first(flags, sel),
            None => flags,
        },
        Message::SelectedWave(offset) => {
            let cleared = match selection {
                Some(sel) => deselect(flags, sel),
                None => flags,
            };
            if offset < cleared.len() {
                cleared.update(offset as int, true)
            } else {
                cleared
            }
        },
        _ => flags,
    }
}

/// The waves after the viewer handles `message`.
pub open spec fn waves_next(waves: Seq<Arc<InMemWave>>, message: Message) -> Seq<Arc<InMemWave>> {
    match message {
        Message::AddWave(Ok(w)) => waves.push(w),
        _ => waves,
    }
}

/// The selected offsets after the viewer handles `message`.
pub open spec fn selection_next(selection: Option<Seq<usize>>, message: Message) -> Option<Seq<usize>> {
    match message {
        Message::RemoveSelected => None,
        Message::SelectedWave(offset) => Some(seq![offset]),
        _ => selection,
    }
}

/// Whether `after` is the viewer once `before` handles `message`.
pub open spec fn sigview_step(before: SigViewer, after: SigViewer, message: Message) -> bool {
    &&& after.flags() == flags_next(before.flags(), before.selection(), message)
    &&& after.wave_list() == waves_next(before.wave_list(), message)
    &&& after.selection() == selection_next(before.selection(), message)
}

/// Whether the viewer can handle `message` without removing a cell that is
/// not there.
pub open spec fn sigview_accepts(viewer: SigViewer, message: Message) -> bool {
    message is RemoveSelected ==> match viewer.selection() {
        Some(sel) => removable_last_first(sel, viewer.flags().len()),
        None => true,
    }
}

/// The list of added waves, the cells that show them and the selected cells.
pub struct SigViewer {
    waves_state: CellList<WaveOptions>,
    waves: Vec<Arc<InMemWave>>,
    selected: Option<Vec<usize>>,
}

impl SigViewer {
    /// Which cells are selected, in order.
    pub closed spec fn flags(&self) -> Seq<bool> {
        self.waves_state.selected_flags()
    }

    /// The added waves, in order.
    pub closed spec fn wave_list(&self) -> Seq<Arc<InMemWave>> {
        self.waves@
    }

    /// The offsets selected last, if any.
    pub closed spec fn selection(&self) -> Option<Seq<usize>> {
        match self.selected {
            Some(v) => Some(v@),
            None => None,
        }
    }

    /// The cells keep their offsets equal to their positions.
    pub closed spec fn wf(&self) -> bool {
        self.waves_state.wf()
    }

    /// Whether the viewer can take `message` (see [`sigview_accepts`]).
    pub fn accepts(&self, message: &Message) -> (r: bool)
        ensures
            r == sigview_accepts(*self, *message),
    {
        match message {
            Message::RemoveSelected => match &self.selected {
                Some(sel) => {
                    let len = self.waves_state.len();
                    let n = sel.len();
                    proof {
                        lemma_removable_each(sel@, len as nat);
                        assert(self.selection() == Some(sel@));
                    }
                    let mut j: usize = 0;
                    while j < n
                        invariant
                            n == sel@.len(),
                            len == self.flags().len(),
                            self.selection() == Some(sel@),
                            *message is RemoveSelected,
                            j <= n,
                            forall|k: int| 0 <= k < j ==> #[trigger] sel@[k] + (n - k) <= len,
                        decreases n - j,
                    {
                        if sel[j] as u128 + (n - j) as u128 > len as u128 {
                            proof {
                                lemma_removable_each(sel@, len as nat);
                                assert(!(sel@[j as int] + (n - j) <= len));
                            }
                            return false;
                        }
                        j = j + 1;
                    }
                    proof {
                        lemma_removable_each(sel@, len as nat);
                    }
                    true
                },
                None => true,
            },
            _ => true,
        }
    }

    /// The cells of the list.
    pub fn cells(&self) -> (r: &CellList<WaveOptions>)
        ensures
            r.selected_flags() == self.flags(),
    {
        &self.waves_state
    }

    /// The added waves.
    pub fn waves(&self) -> (r: &Vec<Arc<InMemWave>>)
        ensures
            r@ == self.wave_list(),
    {
        &self.waves
    }

    /// The offsets selected last, if any.
    pub fn selected(&self) -> (r: Option<&Vec<usize>>)
        ensures
            self.selection() is None <==> r is None,
            r matches Some(v) ==> self.selection() == Some(v@),
    {
        match &self.selected {
            Some(v) => Some(v),
            None => None,
        }
    }

    /// Adds an unselected cell for a wave kept elsewhere.
    pub fn add_wave(&mut self)
        requires
            old(self).wf(),
        ensures
            final(self).wf(),
            final(self).flags() == old(self).flags().push(false),
            final(self).wave_list() == old(self).wave_list(),
            final(self).selection() == old(self).selection(),
    {
        self.waves_state.push();
    }

    /// Handles a message of the signal panes: adds a cell for a loaded wave,
    /// clears the cells, removes the selected cells (the last listed first),
    /// or selects one cell after clearing the previous selection. A message
    /// it does not handle leaves it unchanged.
    pub fn update(&mut self, message: Message)
        requires
            old(self).wf(),
            sigview_accepts(*old(self), message),
        ensures
            final(self).wf(),
            sigview_step(*old(self), *final(self), message),
    {
        match message {
            Message::AddWave(imw_res) => match imw_res {
                Ok(imw) => {
                    self.waves_state.push();
                    self.waves.push(imw);
                },
                Err(_) => {},
            },
            Message::ClearWaves => self.waves_state.clear(),
            Message::RemoveSelected => {
                if let Some(sel) = &self.selected {
                    let n = sel.len();
                    let mut j = n;
                    proof {
                        assert(sel@.subrange(n as int, n as int) =~= Seq::<usize>::empty());
                    }
                    while j > 0
                        invariant
                            j <= n == sel@.len(),
                            self.waves_state.wf(),
                            self.waves_state.selected_flags() == remove_last_first(
                                old(self).flags(),
                                sel@.subrange(j as int, n as int),
                            ),
                            self.waves_state.selected_flags().len() == old(self).flags().len() - (n - j),
                            removable_last_first(sel@, old(self).flags().len()),
                            self.waves@ == old(self).waves@,
                        decreases j,
                    {
                        proof {
                            lemma_removable_suffix(sel@, old(self).flags().len(), (j - 1) as int);
                            assert(sel@.subrange(j - 1, n as int).drop_first() =~= sel@.subrange(
                                j as int,
                                n as int,
                            ));
                        }
                        j = j - 1;
                        self.waves_state.remove(sel[j]);
                    }
                    proof {
                        assert(sel@.subrange(0, n as int) =~= sel@);
                    }
                }
                self.selected = None;
            },
            Message::SelectedWave(offset) => {
                if let Some(sel) = &self.selected {
                    let n = sel.len();
                    proof {
                        assert(sel@.take(0) =~= Seq::<usize>::empty());
                    }
                    for k in 0..n
                        invariant
                            n == sel@.len(),
                            self.waves_state.wf(),
                            self.waves_state.selected_flags() == deselect(old(self).flags(), sel@.take(k as int)),
                            self.waves@ == old(self).waves@,
                    {
                        proof {
                            assert(sel@.take(k + 1).drop_last() =~= sel@.take(k as int));
                        }
                        self.waves_state.toggle_selected(sel[k], false);
                    }
                    proof {
                        assert(sel@.take(n as int) =~= sel@);
                    }
                }
                self.waves_state.toggle_selected(offset, true);
                self.selected = Some(vec![offset]);
                proof {
                    assert(self.selection()->0 =~= seq![offset]);
                }
            },
            _ => {},
        }
    }
}

/// Removing the listed offsets stays in range for every suffix of the list,
/// and the first offset of a suffix fits the cells left when it is removed.
proof fn lemma_removable_suffix(sel: Seq<usize>, len: nat, j: int)
    requires
        removable_last_first(sel, len),
        0 <= j < sel.len(),
    ensures
        removable_last_first(sel.subrange(j, sel.len() as int), len),
        sel[j] + (sel.len() - j) <= len,
    decreases j,
{
    if j > 0 {
        lemma_removable_suffix(sel.drop_first(), len, j - 1);
        assert(sel.drop_first().subrange(j - 1, sel.drop_first().len() as int) =~= sel.subrange(
            j,
            sel.len() as int,
        ));
    } else {
        assert(sel.subrange(0, sel.len() as int) =~= sel);
    }
}

/// Whether `i` is one of the offsets in `sel`.
pub open spec fn lists(sel: Seq<usize>, i: int) -> bool {
    exists|k: int| 0 <= k < sel.len() && sel[k] == i
}

/// Clearing the listed offsets keeps the length and clears exactly the
/// listed cells.
pub proof fn lemma_deselect(flags: Seq<bool>, sel: Seq<usize>)
    ensures
        deselect(flags, sel).len() == flags.len(),
        forall|i: int|
            0 <= i < flags.len() ==> #[trigger] deselect(flags, sel)[i] == (flags[i] && !lists(sel, i)),
    decreases sel.len(),
{
    if sel.len() > 0 {
        lemma_deselect(flags, sel.drop_last());
        assert forall|i: int| 0 <= i < flags.len() implies #[trigger] deselect(flags, sel)[i] == (flags[i]
            && !lists(sel, i)) by {
            if lists(sel, i) {
                let k = choose|k: int| 0 <= k < sel.len() && sel[k] == i;
                if k < sel.len() - 1 {
                    assert(sel.drop_last()[k] == i);
                }
            }
            if lists(sel.drop_last(), i) {
                let k = choose|k: int| 0 <= k < sel.len() - 1 && sel.drop_last()[k] == i;
                assert(sel[k] == i);
            }
        }
    }
}

/// When every selected cell is one of the offsets selected last, selecting
/// a cell in range leaves that cell, and only that cell, selected.
pub proof fn lemma_select_leaves_one(flags: Seq<bool>, sel: Seq<usize>, offset: usize)
    requires
        forall|i: int| 0 <= i < flags.len() && #[trigger] flags[i] ==> lists(sel, i),
        offset < flags.len(),
    ensures
        flags_next(flags, Some(sel), Message::SelectedWave(offset)).len() == flags.len(),
        forall|i: int|
            0 <= i < flags.len() ==> #[trigger] flags_next(flags, Some(sel), Message::SelectedWave(offset))[i]
                == (i == offset),
{
    lemma_deselect(flags, sel);
}

impl Default for SigViewer {
    fn default() -> (r: Self)
        ensures
            r.wf(),
            r.flags() == Seq::<bool>::empty(),
            r.wave_list() == Seq::<Arc<InMemWave>>::empty(),
            r.selection() is None,
    {
        SigViewer {
            waves_state: CellList::default().set_cell_padding(4).set_text_size(11),
            waves: Vec::new(),
            selected: None,
        }
    }
}

} // verus!
