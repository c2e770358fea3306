//! The module navigator: the signals of the module selected in the
//! hierarchy, one cell each.
use crate::components::shared::cell_list::CellList;
use vstd::prelude::*;

verus! {

/// The messages of the module navigator, over signal items of type `S`.
pub enum Message<S> {
    /// The signals of the newly selected module.
    SignalUpdate(Vec<S>),
    /// The signal at this offset was double clicked.
    AddSigOffset(usize),
    /// Add this signal to the wave window.
    AddSig(S),
    /// The cell at this offset was clicked.
    ClickedItem(usize),
    AddSelected,
}

/// What the application does after the navigator handles a message.
pub enum ModNavCommand {
    Nothing,
    /// Add the signal at this offset of the navigator's list.
    AddSignalAt(usize),
}

/// Whether `after` and the command `r` are what `before` gives for
/// `message`: a new signal list replaces the old one with as many unselected
/// cells; a click selects one cell after clearing the previous one; a double
/// click asks to add that signal; other messages change nothing.
pub open spec fn modnav_step<S>(before: ModNavigator<S>, after: ModNavigator<S>, message: Message<S>, r: ModNavCommand) -> bool {
    match message {
        Message::SignalUpdate(v) => {
            &&& after.signal_list() == v@
            &&& after.flags() == Seq::new(v@.len(), |i: int| false)
            &&& after.selection() is None
            &&& r is Nothing
        },
        Message::ClickedItem(offset) => {
            let cleared = match before.selection() {
                Some(prev) => if prev < before.flags().len() {
                    before.flags().update(prev as int, false)
                } else {
                    before.flags()
                },
                None => before.flags(),
            };
            &&& after.signal_list() == before.signal_list()
            &&& after.flags() == if offset < cleared.len() {
                cleared.update(offset as int, true)
            } else {
                cleared
            }
            &&& after.selection() == Some(offset)
            &&& r is Nothing
        },
        Message::AddSigOffset(offset) => {
            &&& after.signal_list() == before.signal_list()
            &&& after.flags() == before.flags()
            &&& after.selection() == before.selection()
            &&& r == ModNavCommand::AddSignalAt(offset)
        },
        _ => {
            &&& after.signal_list() == before.signal_list()
            &&& after.flags() == before.flags()
            &&& after.selection() == before.selection()
            &&& r is Nothing
        },
    }
}

/// Responsible for navigating signals within a module.
pub struct ModNavigator<S> {
    signal_vec: Vec<S>,
    signals: CellList<()>,
    selected_offset: Option<usize>,
}

impl<S> ModNavigator<S> {
    /// The listed signals, in order.
    pub closed spec fn signal_list(&self) -> Seq<S> {
        self.signal_vec@
    }

    /// Which cells are selected, in order.
    pub closed spec fn flags(&self) -> Seq<bool> {
        self.signals.selected_flags()
    }

    /// The offset clicked last, if any.
    pub closed spec fn selection(&self) -> Option<usize> {
        self.selected_offset
    }

    /// The cells keep their offsets equal to their positions.
    pub closed spec fn wf(&self) -> bool {
        self.signals.wf()
    }

    /// The listed signals.
    pub fn signal_items(&self) -> (r: &Vec<S>)
        ensures
            r@ == self.signal_list(),
    {
        &self.signal_vec
    }

    /// The cells of the list.
    pub fn cells(&self) -> (r: &CellList<()>)
        ensures
            r.selected_flags() == self.flags(),
    {
        &self.signals
    }

    /// The offset clicked last, if any.
    pub fn selected_offset(&self) -> (r: Option<usize>)
        ensures
            r == self.selection(),
    {
        self.selected_offset
    }

    /// Handles a message: a new signal list replaces the old one with as
    /// many unselected cells; a click selects one cell after clearing the
    /// previous one; a double click asks to add that signal. Other messages
    /// change nothing.
    pub fn update(&mut self, message: Message<S>) -> (r: ModNavCommand)
        requires
            old(self).wf(),
            message matches Message::AddSigOffset(offset) ==> offset < old(self).signal_list().len(),
        ensures
            final(self).wf(),
            modnav_step(*old(self), *final(self), message, r),
    {
        match message {
            Message::SignalUpdate(payload) => {
                let n = payload.len();
                self.signal_vec = payload;
                self.signals = CellList::new(n);
                self.selected_offset = None;
                ModNavCommand::Nothing
            },
            Message::ClickedItem(offset) => {
                if let Some(prev_offset) = self.selected_offset {
                    self.signals.toggle_selected(prev_offset, false);
                }
                self.signals.toggle_selected(offset, true);
                self.selected_offset = Some(offset);
                ModNavCommand::Nothing
            },
            Message::AddSigOffset(offset) => ModNavCommand::AddSignalAt(offset),
            _ => ModNavCommand::Nothing,
        }
    }
}

/// Whether every selected cell is the one clicked last: at most one cell is
/// selected, and it is at `selection`.
pub open spec fn one_selected(flags: Seq<bool>, selection: Option<usize>) -> bool {
    forall|i: int| 0 <= i < flags.len() && #[trigger] flags[i] ==> (selection matches Some(o) && o == i)
}

/// Every step of the navigator keeps at most one cell selected, the one
/// clicked last.
pub proof fn lemma_step_keeps_one_selected<S>(
    before: ModNavigator<S>,
    after: ModNavigator<S>,
    message: Message<S>,
    r: ModNavCommand,
)
    requires
        one_selected(before.flags(), before.selection()),
        modnav_step(before, after, message, r),
    ensures
        one_selected(after.flags(), after.selection()),
{
    match message {
        Message::ClickedItem(offset) => {
            let cleared = match before.selection() {
                Some(prev) => if prev < before.flags().len() {
                    before.flags().update(prev as int, false)
                } else {
                    before.flags()
                },
                None => before.flags(),
            };
            assert forall|i: int| 0 <= i < cleared.len() implies !#[trigger] cleared[i] by {
                if before.flags()[i] {
                    assert(before.selection() matches Some(o) && o == i);
                }
            }
        },
        _ => {},
    }
}

/// Along any run of updates from a navigator with no selected cell (such as
/// the default one), at most one cell is selected at every point, and it is
/// the one clicked last.
pub proof fn lemma_run_keeps_one_selected<S>(
    states: Seq<ModNavigator<S>>,
    messages: Seq<Message<S>>,
    results: Seq<ModNavCommand>,
)
    requires
        states.len() == messages.len() + 1,
        results.len() == messages.len(),
        forall|i: int| 0 <= i < states[0].flags().len() ==> !#[trigger] states[0].flags()[i],
        forall|i: int|
            0 <= i < messages.len() ==> modnav_step(#[trigger] states[i], states[i + 1], messages[i], results[i]),
    ensures
        forall|i: int| 0 <= i < states.len() ==> one_selected(#[trigger] states[i].flags(), states[i].selection()),
    decreases messages.len(),
{
    if messages.len() > 0 {
        let n = messages.len() - 1;
        lemma_run_keeps_one_selected(states.take(n + 1), messages.take(n as int), results.take(n as int));
        assert(modnav_step(states[n as int], states[n + 1], messages[n as int], results[n as int]));
        assert(one_selected(states.take(n + 1)[n as int].flags(), states.take(n + 1)[n as int].selection()));
        lemma_step_keeps_one_selected(states[n as int], states[n + 1], messages[n as int], results[n as int]);
        assert forall|i: int| 0 <= i < states.len() implies one_selected(
            #[trigger] states[i].flags(),
            states[i].selection(),
        ) by {
            if i <= n {
                assert(states.take(n + 1)[i] == states[i]);
            }
        }
    }
}

impl<S> Default for ModNavigator<S> {
    fn default() -> (r: Self)
        ensures
            r.wf(),
            r.signal_list() == Seq::<S>::empty(),
            r.flags() == Seq::<bool>::empty(),
            r.selection() is None,
    {
        ModNavigator { signal_vec: Vec::new(), signals: CellList::default(), selected_offset: None }
    }
}

} // verus!
