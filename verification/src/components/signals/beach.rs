//! The two signal panes side by side, each handed the messages of the pair.
use super::sigwindow::{remove_last_first, sigview_accepts, sigview_step, SigViewer};
use super::wavewindow::{wavewindow_next, WaveWindowState};
use super::Message;
use crate::backend::errors::Waverr;
use crate::backend::InMemWave;
use std::sync::Arc;
use vstd::prelude::*;

verus! {

/// The content of one of the two signal panes.
pub enum BeachContent {
    Waves(WaveWindowState),
    Signals(SigViewer),
}

impl BeachContent {
    /// Whether the pane's state is consistent.
    pub open spec fn wf(&self) -> bool {
        match self {
            BeachContent::Waves(w) => w.widget_state.wf(),
            BeachContent::Signals(s) => s.wf(),
        }
    }

    /// Hands `message` to the pane.
    pub fn update(&mut self, message: Message)
        requires
            old(self).wf(),
            *old(self) matches BeachContent::Signals(s) ==> sigview_accepts(s, message),
        ensures
            final(self).wf(),
            match (*old(self), *final(self)) {
                (BeachContent::Waves(a), BeachContent::Waves(b)) => b.widget_state == wavewindow_next(
                    a.widget_state,
                    message,
                ),
                (BeachContent::Signals(a), BeachContent::Signals(b)) => sigview_step(a, b, message),
                _ => false,
            },
    {
        match self {
            BeachContent::Waves(waves) => waves.update(message),
            BeachContent::Signals(signals) => signals.update(message),
        }
    }
}

} // verus!

verus! {

/// A wave shown in the beach: the wave, its signal id, and its value under
/// the cursor once read.
pub struct DisplayedWave {
    pub wave: Arc<InMemWave>,
    pub signal_id: u32,
    pub val_under_cursor: Option<String>,
}

/// What a displayed wave shows.
pub struct ShownWave {
    pub wave: Arc<InMemWave>,
    pub signal_id: u32,
    pub value: Option<Seq<char>>,
}

impl View for DisplayedWave {
    type V = ShownWave;

    open spec fn view(&self) -> ShownWave {
        ShownWave {
            wave: self.wave,
            signal_id: self.signal_id,
            value: match self.val_under_cursor {
                Some(v) => Some(v@),
                None => None,
            },
        }
    }
}

/// What a list of displayed waves shows, in order.
pub open spec fn shown_waves(ws: Seq<DisplayedWave>) -> Seq<ShownWave> {
    ws.map_values(|w: DisplayedWave| w@)
}

/// The messages of the beach.
pub enum BeachMsg {
    /// The value (by signal id) under the cursor, once read.
    UpdateWaveValues(Option<(u32, String)>),
    UpdateBounds((u32, u32)),
    UpdateCursor(u32),
    Next,
    Prev,
    /// A loaded wave with its signal id, or the failure to load it.
    AddWave(Result<(u32, Arc<InMemWave>), Arc<Waverr>>),
    ClearWaves,
    CellListPlaceholder,
    RemoveSelected,
    SelectedWave(usize),
    Other,
}

/// What the application does after the beach handles a message.
pub enum BeachCommand {
    Nothing,
    /// Read every wave's value at this time, each answered by an
    /// `UpdateWaveValues`.
    ReadValues(u32),
    /// Read the value of the wave at this position at this time.
    ReadValue { wave: usize, at: u32 },
    /// Move the cursor to the next change of this wave after `from`.
    SeekNext { wave: usize, from: u32 },
    /// Move the cursor to the last change of this wave before `from`.
    SeekPrev { wave: usize, from: u32 },
}

/// The first position of the least offset in `sel`.
pub open spec fn min_pos(sel: Seq<usize>) -> int
    decreases sel.len(),
{
    if sel.len() <= 1 {
        0
    } else {
        let m = min_pos(sel.drop_last());
        if sel.last() < sel[m] {
            sel.len() - 1
        } else {
            m
        }
    }
}

/// `ws` after removing the listed offsets in ascending order.
pub open spec fn remove_ascending(ws: Seq<ShownWave>, sel: Seq<usize>) -> Seq<ShownWave>
    decreases sel.len(),
{
    if sel.len() == 0 {
        ws
    } else {
        let m = min_pos(sel);
        proof {
            lemma_min_pos(sel);
        }
        remove_ascending(ws.remove(sel[m] as int), sel.remove(m))
    }
}

/// Whether removing the listed offsets from `len` waves in ascending order
/// stays in range at every step.
pub open spec fn removable_ascending(len: nat, sel: Seq<usize>) -> bool
    decreases sel.len(),
{
    if sel.len() == 0 {
        true
    } else {
        let m = min_pos(sel);
        proof {
            lemma_min_pos(sel);
        }
        sel[m] < len && removable_ascending((len - 1) as nat, sel.remove(m))
    }
}

/// `min_pos` is a position of `sel`, and no offset of `sel` is less than
/// the one there.
pub proof fn lemma_min_pos(sel: Seq<usize>)
    requires
        sel.len() > 0,
    ensures
        0 <= min_pos(sel) < sel.len(),
        forall|j: int| 0 <= j < sel.len() ==> sel[min_pos(sel)] <= #[trigger] sel[j],
    decreases sel.len(),
{
    if sel.len() > 1 {
        let rest = sel.drop_last();
        lemma_min_pos(rest);
        assert forall|j: int| 0 <= j < sel.len() implies sel[min_pos(sel)] <= #[trigger] sel[j] by {
            if j < sel.len() - 1 {
                assert(sel[j] == rest[j]);
                assert(rest[min_pos(rest)] == sel[min_pos(rest)]);
            }
        }
    }
}

fn min_pos_exec(sel: &Vec<usize>) -> (r: usize)
    requires
        sel@.len() > 0,
    ensures
        r == min_pos(sel@),
{
    let mut m: usize = 0;
    let mut i: usize = 1;
    proof {
        assert(sel@.take(1).len() == 1);
    }
    while i < sel.len()
        invariant
            1 <= i <= sel@.len(),
            m == min_pos(sel@.take(i as int)),
            m < i,
        decreases sel@.len() - i,
    {
        proof {
            assert(sel@.take(i + 1).drop_last() =~= sel@.take(i as int));
            lemma_min_pos(sel@.take(i as int));
        }
        if sel[i] < sel[m] {
            m = i;
        }
        i = i + 1;
    }
    proof {
        assert(sel@.take(sel@.len() as int) =~= sel@);
    }
    m
}

/// The beach: the displayed waves, the signal viewer beside them, and the
/// wave window.
pub struct Beach {
    pub waves: Vec<DisplayedWave>,
    pub sigwindow: SigViewer,
    pub wavewindow: WaveWindowState,
}

/// The selection of the viewer as a list, empty when nothing is selected.
pub open spec fn selected_list(sel: Option<Seq<usize>>) -> Seq<usize> {
    match sel {
        Some(s) => s,
        None => Seq::empty(),
    }
}

impl Beach {
    /// The panes are consistent.
    pub open spec fn wf(&self) -> bool {
        &&& self.sigwindow.wf()
        &&& self.wavewindow.widget_state.wf()
    }

    /// Whether the beach can take `m` without a panic: the selected wave
    /// to move along, and the selected waves and cells to remove, are there.
    pub open spec fn accepts(&self, m: BeachMsg) -> bool {
        match m {
            BeachMsg::Next | BeachMsg::Prev => match self.sigwindow.selection() {
                Some(sel) => sel.len() == 1 ==> sel[0] < self.waves@.len(),
                None => true,
            },
            BeachMsg::RemoveSelected => {
                &&& removable_ascending(self.waves@.len(), selected_list(self.sigwindow.selection()))
                &&& sigview_accepts(self.sigwindow, Message::RemoveSelected)
            },
            _ => true,
        }
    }
}

/// Whether `after` and the command `r` are what `before` gives for `m`.
pub open spec fn beach_step(before: Beach, after: Beach, m: BeachMsg, r: BeachCommand) -> bool {
    let ws = shown_waves(before.waves@);
    let cursor = before.wavewindow.widget_state.cursor_location;
    match m {
        BeachMsg::UpdateWaveValues(Some((id, value))) => {
            &&& shown_waves(after.waves@) == Seq::new(
                ws.len(),
                |i: int| if ws[i].signal_id == id {
                    ShownWave { value: Some(value@), ..ws[i] }
                } else {
                    ws[i]
                },
            )
            &&& after.sigwindow == before.sigwindow
            &&& after.wavewindow == before.wavewindow
            &&& r is Nothing
        },
        BeachMsg::UpdateBounds(b) => {
            &&& shown_waves(after.waves@) == ws
            &&& after.sigwindow == before.sigwindow
            &&& after.wavewindow.widget_state == wavewindow_next(
                before.wavewindow.widget_state,
                Message::UpdateBounds(b),
            )
            &&& r is Nothing
        },
        BeachMsg::UpdateCursor(t) => {
            &&& shown_waves(after.waves@) == ws
            &&& after.sigwindow == before.sigwindow
            &&& after.wavewindow.widget_state == wavewindow_next(
                before.wavewindow.widget_state,
                Message::UpdateCursor(t),
            )
            &&& r == BeachCommand::ReadValues(t)
        },
        BeachMsg::Next | BeachMsg::Prev => {
            &&& shown_waves(after.waves@) == ws
            &&& after.sigwindow == before.sigwindow
            &&& after.wavewindow == before.wavewindow
            &&& match before.sigwindow.selection() {
                Some(sel) => if sel.len() == 1 {
                    if m is Next {
                        r == BeachCommand::SeekNext { wave: sel[0], from: cursor }
                    } else {
                        r == BeachCommand::SeekPrev { wave: sel[0], from: cursor }
                    }
                } else {
                    r is Nothing
                },
                None => r is Nothing,
            }
        },
        BeachMsg::AddWave(Ok((id, w))) => {
            &&& shown_waves(after.waves@) == ws.push(ShownWave { wave: w, signal_id: id, value: None })
            &&& after.sigwindow.flags() == before.sigwindow.flags().push(false)
            &&& after.sigwindow.wave_list() == before.sigwindow.wave_list()
            &&& after.sigwindow.selection() == before.sigwindow.selection()
            &&& after.wavewindow == before.wavewindow
            &&& r == BeachCommand::ReadValue { wave: ws.len() as usize, at: cursor }
        },
        BeachMsg::ClearWaves => {
            &&& shown_waves(after.waves@) == Seq::<ShownWave>::empty()
            &&& sigview_step(before.sigwindow, after.sigwindow, Message::ClearWaves)
            &&& after.wavewindow == before.wavewindow
            &&& r is Nothing
        },
        BeachMsg::RemoveSelected => {
            &&& shown_waves(after.waves@) == remove_ascending(ws, selected_list(before.sigwindow.selection()))
            &&& sigview_step(before.sigwindow, after.sigwindow, Message::RemoveSelected)
            &&& after.wavewindow == before.wavewindow
            &&& r is Nothing
        },
        BeachMsg::CellListPlaceholder => {
            &&& shown_waves(after.waves@) == ws
            &&& sigview_step(before.sigwindow, after.sigwindow, Message::CellListPlaceholder)
            &&& after.wavewindow == before.wavewindow
            &&& r is Nothing
        },
        BeachMsg::SelectedWave(o) => {
            &&& shown_waves(after.waves@) == ws
            &&& sigview_step(before.sigwindow, after.sigwindow, Message::SelectedWave(o))
            &&& after.wavewindow == before.wavewindow
            &&& r is Nothing
        },
        _ => {
            &&& shown_waves(after.waves@) == ws
            &&& after.sigwindow == before.sigwindow
            &&& after.wavewindow == before.wavewindow
            &&& r is Nothing
        },
    }
}

/// With one wave selected, at offset `o`, removing the selection takes out
/// exactly the wave at `o` and the cell at `o`: the waves and cells before
/// and after it stay, in order, and nothing is selected afterwards.
pub proof fn lemma_remove_selected_wave(before: Beach, after: Beach, r: BeachCommand, o: usize)
    requires
        before.sigwindow.selection() == Some(seq![o]),
        o < before.waves@.len(),
        o < before.sigwindow.flags().len(),
        beach_step(before, after, BeachMsg::RemoveSelected, r),
    ensures
        shown_waves(after.waves@) == shown_waves(before.waves@).subrange(0, o as int) + shown_waves(
            before.waves@,
        ).subrange(o + 1, before.waves@.len() as int),
        after.sigwindow.flags() == before.sigwindow.flags().subrange(0, o as int) + before.sigwindow.flags().subrange(
            o + 1,
            before.sigwindow.flags().len() as int,
        ),
        after.sigwindow.selection() is None,
        r is Nothing,
{
    let ws = shown_waves(before.waves@);
    let sel = seq![o];
    assert(min_pos(sel) == 0);
    assert(sel.remove(0) =~= Seq::<usize>::empty());
    assert(remove_ascending(ws.remove(o as int), Seq::<usize>::empty()) == ws.remove(o as int));
    assert(remove_ascending(ws, sel) == ws.remove(o as int));
    assert(ws.remove(o as int) =~= ws.subrange(0, o as int) + ws.subrange(o + 1, ws.len() as int));
    let flags = before.sigwindow.flags();
    assert(sel.drop_first() =~= Seq::<usize>::empty());
    assert(remove_last_first(flags, sel.drop_first()) == flags);
    assert(remove_last_first(flags, sel) == flags.remove(o as int));
    assert(flags.remove(o as int) =~= flags.subrange(0, o as int) + flags.subrange(o + 1, flags.len() as int));
}

impl Beach {
    /// An empty beach beside fresh panes.
    pub fn new() -> (r: Self)
        ensures
            r.wf(),
            r.waves@.len() == 0,
            r.sigwindow.flags().len() == 0,
            r.sigwindow.selection() is None,
    {
        Beach { waves: Vec::new(), sigwindow: SigViewer::default(), wavewindow: WaveWindowState::default() }
    }

    /// Removes the waves at the listed offsets, in ascending order.
    fn remove_waves(&mut self, sel: &Vec<usize>)
        requires
            removable_ascending(old(self).waves@.len(), sel@),
        ensures
            shown_waves(final(self).waves@) == remove_ascending(shown_waves(old(self).waves@), sel@),
            final(self).sigwindow == old(self).sigwindow,
            final(self).wavewindow == old(self).wavewindow,
    {
        let mut rest: Vec<usize> = Vec::new();
        let mut i: usize = 0;
        while i < sel.len()
            invariant
                i <= sel@.len(),
                rest@ == sel@.take(i as int),
            decreases sel@.len() - i,
        {
            rest.push(sel[i]);
            i = i + 1;
            proof {
                assert(rest@ =~= sel@.take(i as int));
            }
        }
        proof {
            assert(sel@.take(sel@.len() as int) =~= sel@);
        }
        while rest.len() > 0
            invariant
                removable_ascending(self.waves@.len(), rest@),
                remove_ascending(shown_waves(self.waves@), rest@) == remove_ascending(
                    shown_waves(old(self).waves@),
                    sel@,
                ),
                self.sigwindow == old(self).sigwindow,
                self.wavewindow == old(self).wavewindow,
            decreases rest@.len(),
        {
            let m = min_pos_exec(&rest);
            proof {
                lemma_min_pos(rest@);
            }
            let ghost before_rest = rest@;
            let ghost before_ws = self.waves@;
            let idx = rest.remove(m);
            self.waves.remove(idx);
            proof {
                assert(shown_waves(self.waves@) =~= shown_waves(before_ws).remove(idx as int));
            }
        }
    }

    /// Handles a message (see [`beach_step`]).
    pub fn update(&mut self, m: BeachMsg) -> (r: BeachCommand)
        requires
            old(self).wf(),
            old(self).accepts(m),
        ensures
            final(self).wf(),
            beach_step(*old(self), *final(self), m, r),
    {
        let cursor = self.wavewindow.widget_state.cursor_location;
        match m {
            BeachMsg::UpdateWaveValues(Some((id, value))) => {
                let ghost ws = shown_waves(self.waves@);
                let n = self.waves.len();
                for i in 0..n
                    invariant
                        n == self.waves@.len(),
                        ws.len() == n,
                        self.sigwindow == old(self).sigwindow,
                        self.wavewindow == old(self).wavewindow,
                        ws == shown_waves(old(self).waves@),
                        forall|j: int|
                            0 <= j < n ==> #[trigger] shown_waves(self.waves@)[j] == if j < i && ws[j].signal_id
                                == id {
                                ShownWave { value: Some(value@), ..ws[j] }
                            } else {
                                ws[j]
                            },
                {
                    let ghost before = self.waves@;
                    proof {
                        assert(shown_waves(before)[i as int] == ws[i as int]);
                    }
                    if self.waves[i].signal_id == id {
                        let v = value.clone();
                        self.waves[i].val_under_cursor = Some(v);
                        proof {
                            assert(v@ == value@);
                            assert(self.waves@[i as int]@ == ShownWave { value: Some(value@), ..ws[i as int] });
                            assert(shown_waves(self.waves@) =~= shown_waves(before).update(
                                i as int,
                                ShownWave { value: Some(value@), ..ws[i as int] },
                            ));
                        }
                    }
                }
                proof {
                    assert(shown_waves(self.waves@) =~= Seq::new(
                        ws.len(),
                        |i: int| if ws[i].signal_id == id {
                            ShownWave { value: Some(value@), ..ws[i] }
                        } else {
                            ws[i]
                        },
                    ));
                }
                BeachCommand::Nothing
            },
            BeachMsg::UpdateBounds(b) => {
                self.wavewindow.update(Message::UpdateBounds(b));
                BeachCommand::Nothing
            },
            BeachMsg::UpdateCursor(t) => {
                self.wavewindow.update(Message::UpdateCursor(t));
                BeachCommand::ReadValues(t)
            },
            BeachMsg::Next => match self.sigwindow.selected() {
                Some(sel) => if sel.len() == 1 {
                    BeachCommand::SeekNext { wave: sel[0], from: cursor }
                } else {
                    BeachCommand::Nothing
                },
                None => BeachCommand::Nothing,
            },
            BeachMsg::Prev => match self.sigwindow.selected() {
                Some(sel) => if sel.len() == 1 {
                    BeachCommand::SeekPrev { wave: sel[0], from: cursor }
                } else {
                    BeachCommand::Nothing
                },
                None => BeachCommand::Nothing,
            },
            BeachMsg::AddWave(res) => match res {
                Ok((id, imw)) => {
                    let at = self.waves.len();
                    self.sigwindow.add_wave();
                    self.waves.push(DisplayedWave { wave: imw, signal_id: id, val_under_cursor: None });
                    proof {
                        assert(shown_waves(self.waves@) =~= shown_waves(old(self).waves@).push(
                            ShownWave { wave: imw, signal_id: id, value: None },
                        ));
                    }
                    BeachCommand::ReadValue { wave: at, at: cursor }
                },
                Err(_) => BeachCommand::Nothing,
            },
            BeachMsg::ClearWaves => {
                self.waves.clear();
                self.sigwindow.update(Message::ClearWaves);
                proof {
                    assert(shown_waves(self.waves@) =~= Seq::<ShownWave>::empty());
                }
                BeachCommand::Nothing
            },
            BeachMsg::RemoveSelected => {
                let sel = match self.sigwindow.selected() {
                    Some(v) => copy_offsets(v),
                    None => Vec::new(),
                };
                proof {
                    assert(sel@ == selected_list(old(self).sigwindow.selection()));
                }
                self.remove_waves(&sel);
                self.sigwindow.update(Message::RemoveSelected);
                BeachCommand::Nothing
            },
            BeachMsg::CellListPlaceholder => {
                self.sigwindow.update(Message::CellListPlaceholder);
                BeachCommand::Nothing
            },
            BeachMsg::SelectedWave(o) => {
                self.sigwindow.update(Message::SelectedWave(o));
                BeachCommand::Nothing
            },
            _ => BeachCommand::Nothing,
        }
    }
}

fn copy_offsets(v: &Vec<usize>) -> (r: Vec<usize>)
    ensures
        r@ == v@,
{
    let mut r: Vec<usize> = Vec::new();
    let mut i: usize = 0;
    while i < v.len()
        invariant
            i <= v@.len(),
            r@ == v@.take(i as int),
        decreases v@.len() - i,
    {
        r.push(v[i]);
        i = i + 1;
        proof {
            assert(r@ =~= v@.take(i as int));
        }
    }
    proof {
        assert(v@.take(v@.len() as int) =~= v@);
    }
    r
}

} // verus!
