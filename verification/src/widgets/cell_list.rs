//! Selection in a list of cells: a click selects one cell, control-click
//! adds or removes one, shift-click selects a range; a right click opens
//! the context menu of the selection.
use vstd::prelude::*;

verus! {

/// An input event, reduced to what the selection logic reads.
#[derive(Debug, Clone, Copy, PartialEq, Eq, Structural)]
pub enum ListEvent {
    /// The left button went down; `in_bounds` is whether over the list.
    LeftPressed { in_bounds: bool },
    LeftReleased,
    RightPressed,
    /// The keyboard modifiers changed.
    ModifiersChanged { control: bool, shift: bool },
    /// The cursor moved; `hovered` is the item under it, when over the list.
    CursorMoved { hovered: Option<usize> },
    Other,
}

/// The local state of a cell list.
pub struct State<O> {
    pub can_select_multiple: bool,
    pub bulk_select: bool,
    pub ctrl_select: bool,
    pub cursor_held: bool,
    pub menu_open: bool,
    pub hovered_option: Option<usize>,
    pub last_selection: Vec<usize>,
    pub menu_hovered_option: Option<usize>,
    pub menu_last_selection: Option<O>,
}

/// Whether an offset differs from `index`.
pub open spec fn other_than(index: usize) -> spec_fn(usize) -> bool {
    |x: usize| x != index
}

/// `sel` without any occurrence of `index`.
pub open spec fn without(sel: Seq<usize>, index: usize) -> Seq<usize> {
    sel.filter(other_than(index))
}

/// The offsets `lo, lo + 1, ..., hi - 1`.
pub open spec fn span(lo: usize, hi: usize) -> Seq<usize> {
    Seq::new((hi - lo) as nat, |i: int| (lo + i) as usize)
}

/// The selection after a left click on item `index`: with control held the
/// item is added or removed; with shift held the range between the first
/// selected item (or 0) and the clicked one, the larger end left out;
/// otherwise the item alone.
pub open spec fn click_selection(sel: Seq<usize>, index: usize, ctrl: bool, shift: bool) -> Seq<usize> {
    if ctrl {
        if sel.contains(index) {
            without(sel, index)
        } else {
            sel.push(index)
        }
    } else if shift {
        let start = if sel.len() == 0 {
            0usize
        } else {
            sel[0]
        };
        if start > index {
            span(index, start)
        } else {
            span(start, index)
        }
    } else {
        seq![index]
    }
}

impl<O> State<O> {
    /// Nothing selected, hovered or held; the menu closed.
    pub fn new() -> (r: Self)
        ensures
            !r.can_select_multiple && !r.bulk_select && !r.ctrl_select,
            !r.cursor_held && !r.menu_open,
            r.hovered_option is None,
            r.last_selection@ == Seq::<usize>::empty(),
            r.menu_hovered_option is None,
            r.menu_last_selection is None,
    {
        State {
            can_select_multiple: false,
            bulk_select: false,
            ctrl_select: false,
            cursor_held: false,
            menu_open: false,
            hovered_option: None,
            last_selection: Vec::new(),
            menu_hovered_option: None,
            menu_last_selection: None,
        }
    }

    /// Handles an event for a list of `item_count` items. Returns whether the
    /// context menu was toggled (it then opens at the cursor).
    pub fn on_event(&mut self, event: ListEvent, item_count: usize) -> (toggled: bool)
        ensures
            final(self).can_select_multiple == old(self).can_select_multiple,
            final(self).menu_hovered_option == old(self).menu_hovered_option,
            match event {
                ListEvent::LeftPressed { in_bounds } => {
                    &&& !toggled
                    &&& final(self).ctrl_select == old(self).ctrl_select
                    &&& final(self).bulk_select == old(self).bulk_select
                    &&& final(self).hovered_option == old(self).hovered_option
                    &&& if old(self).menu_open {
                        &&& !final(self).menu_open
                        &&& final(self).last_selection@ == old(self).last_selection@
                        &&& if old(self).menu_last_selection is Some {
                            &&& final(self).cursor_held == old(self).cursor_held
                            &&& final(self).menu_last_selection == old(self).menu_last_selection
                        } else {
                            &&& final(self).cursor_held
                            &&& final(self).menu_last_selection is None
                        }
                    } else {
                        &&& final(self).menu_open == old(self).menu_open
                        &&& final(self).cursor_held == old(self).cursor_held
                        &&& final(self).menu_last_selection == old(self).menu_last_selection
                        &&& final(self).last_selection@ == (match old(self).hovered_option {
                            Some(index) => if in_bounds && index < item_count {
                                click_selection(
                                    old(self).last_selection@,
                                    index,
                                    old(self).ctrl_select,
                                    old(self).bulk_select,
                                )
                            } else {
                                old(self).last_selection@
                            },
                            None => old(self).last_selection@,
                        })
                    }
                },
                ListEvent::LeftReleased => {
                    &&& !toggled
                    &&& !final(self).cursor_held
                    &&& final(self).menu_open == old(self).menu_open
                    &&& final(self).ctrl_select == old(self).ctrl_select
                    &&& final(self).bulk_select == old(self).bulk_select
                    &&& final(self).hovered_option == old(self).hovered_option
                    &&& final(self).last_selection@ == old(self).last_selection@
                    &&& final(self).menu_last_selection == old(self).menu_last_selection
                },
                ListEvent::RightPressed => {
                    &&& toggled == (!old(self).cursor_held && old(self).last_selection@.len() > 0)
                    &&& final(self).menu_open == (old(self).menu_open != toggled)
                    &&& (toggled ==> final(self).menu_last_selection is None)
                    &&& (!toggled ==> final(self).menu_last_selection == old(self).menu_last_selection)
                    &&& final(self).cursor_held == old(self).cursor_held
                    &&& final(self).ctrl_select == old(self).ctrl_select
                    &&& final(self).bulk_select == old(self).bulk_select
                    &&& final(self).hovered_option == old(self).hovered_option
                    &&& final(self).last_selection@ == old(self).last_selection@
                },
                ListEvent::ModifiersChanged { control, shift } => {
                    &&& !toggled
                    &&& final(self).ctrl_select == control
                    &&& final(self).bulk_select == shift
                    &&& final(self).cursor_held == old(self).cursor_held
                    &&& final(self).menu_open == old(self).menu_open
                    &&& final(self).hovered_option == old(self).hovered_option
                    &&& final(self).last_selection@ == old(self).last_selection@
                    &&& final(self).menu_last_selection == old(self).menu_last_selection
                },
                ListEvent::CursorMoved { hovered } => {
                    &&& !toggled
                    &&& final(self).hovered_option == (if hovered is Some {
                        hovered
                    } else {
                        old(self).hovered_option
                    })
                    &&& final(self).ctrl_select == old(self).ctrl_select
                    &&& final(self).bulk_select == old(self).bulk_select
                    &&& final(self).cursor_held == old(self).cursor_held
                    &&& final(self).menu_open == old(self).menu_open
                    &&& final(self).last_selection@ == old(self).last_selection@
                    &&& final(self).menu_last_selection == old(self).menu_last_selection
                },
                ListEvent::Other => {
                    &&& !toggled
                    &&& final(self).ctrl_select == old(self).ctrl_select
                    &&& final(self).bulk_select == old(self).bulk_select
                    &&& final(self).cursor_held == old(self).cursor_held
                    &&& final(self).menu_open == old(self).menu_open
                    &&& final(self).hovered_option == old(self).hovered_option
                    &&& final(self).last_selection@ == old(self).last_selection@
                    &&& final(self).menu_last_selection == old(self).menu_last_selection
                },
            },
    {
        match event {
            ListEvent::LeftPressed { in_bounds } => {
                if self.menu_open {
                    if self.menu_last_selection.is_some() {
                        self.menu_open = false;
                    } else {
                        self.cursor_held = true;
                        self.menu_last_selection = None;
                        self.menu_open = false;
                    }
                } else if in_bounds {
                    if let Some(index) = self.hovered_option {
                        if index < item_count {
                            let sel = click_select(&self.last_selection, index, self.ctrl_select, self.bulk_select);
                            self.last_selection = sel;
                        }
                    }
                }
                false
            },
            ListEvent::LeftReleased => {
                self.cursor_held = false;
                false
            },
            ListEvent::RightPressed => {
                if !self.cursor_held && self.last_selection.len() > 0 {
                    self.menu_open = !self.menu_open;
                    self.menu_last_selection = None;
                    true
                } else {
                    false
                }
            },
            ListEvent::ModifiersChanged { control, shift } => {
                self.ctrl_select = control;
                self.bulk_select = shift;
                false
            },
            ListEvent::CursorMoved { hovered } => {
                if hovered.is_some() {
                    self.hovered_option = hovered;
                }
                false
            },
            ListEvent::Other => false,
        }
    }
}

fn contains_offset(sel: &Vec<usize>, index: usize) -> (r: bool)
    ensures
        r == sel@.contains(index),
{
    let mut i: usize = 0;
    while i < sel.len()
        invariant
            i <= sel@.len(),
            forall|j: int| 0 <= j < i ==> sel@[j] != index,
        decreases sel@.len() - i,
    {
        if sel[i] == index {
            return true;
        }
        i = i + 1;
    }
    false
}

fn remove_offset(sel: &Vec<usize>, index: usize) -> (r: Vec<usize>)
    ensures
        r@ == without(sel@, index),
{
    let mut out: Vec<usize> = Vec::new();
    let mut i: usize = 0;
    while i < sel.len()
        invariant
            i <= sel@.len(),
            out@ == without(sel@.take(i as int), index),
        decreases sel@.len() - i,
    {
        proof {
            assert(sel@.take(i + 1) == sel@.take(i as int).push(sel@[i as int]));
            sel@.take(i as int).lemma_filter_push(sel@[i as int], other_than(index));
        }
        if sel[i] != index {
            out.push(sel[i]);
        }
        i = i + 1;
    }
    proof {
        assert(sel@.take(sel@.len() as int) == sel@);
    }
    out
}

fn span_exec(lo: usize, hi: usize) -> (r: Vec<usize>)
    requires
        lo <= hi,
    ensures
        r@ == span(lo, hi),
{
    let mut out: Vec<usize> = Vec::new();
    let mut v: usize = lo;
    while v < hi
        invariant
            lo <= v <= hi,
            out@ == span(lo, v),
        decreases hi - v,
    {
        out.push(v);
        v = v + 1;
        proof {
            assert(out@ =~= span(lo, v));
        }
    }
    out
}

fn click_select(sel: &Vec<usize>, index: usize, ctrl: bool, shift: bool) -> (r: Vec<usize>)
    ensures
        r@ == click_selection(sel@, index, ctrl, shift),
{
    if ctrl {
        if contains_offset(sel, index) {
            remove_offset(sel, index)
        } else {
            let mut out = sel.clone();
            out.push(index);
            out
        }
    } else if shift {
        let start: usize = if sel.len() == 0 {
            0
        } else {
            sel[0]
        };
        if start > index {
            span_exec(index, start)
        } else {
            span_exec(start, index)
        }
    } else {
        let mut out: Vec<usize> = Vec::new();
        out.push(index);
        proof {
            assert(out@ =~= seq![index]);
        }
        out
    }
}

/// A control-click on an item toggles it: clicking it twice leaves a
/// selection without it where it was added, and the same selection where it
/// was absent.
pub proof fn lemma_ctrl_click_twice(sel: Seq<usize>, index: usize)
    requires
        !sel.contains(index),
    ensures
        click_selection(click_selection(sel, index, true, false), index, true, false) == sel,
{
    let once = sel.push(index);
    assert(once.contains(index)) by {
        assert(once[sel.len() as int] == index);
    }
    sel.lemma_filter_push(index, other_than(index));
    lemma_filter_all(sel, index);
}

proof fn lemma_filter_all(sel: Seq<usize>, index: usize)
    requires
        !sel.contains(index),
    ensures
        sel.filter(other_than(index)) == sel,
    decreases sel.len(),
{
    if sel.len() > 0 {
        let init = sel.drop_last();
        assert(!init.contains(index)) by {
            if init.contains(index) {
                let k = choose|k: int| 0 <= k < init.len() && init[k] == index;
                assert(sel[k] == index);
            }
        }
        lemma_filter_all(init, index);
        assert(sel == init.push(sel.last()));
        init.lemma_filter_push(sel.last(), other_than(index));
    }
}

/// A plain click selects exactly the clicked item.
pub proof fn lemma_plain_click_selects_one(sel: Seq<usize>, index: usize)
    ensures
        click_selection(sel, index, false, false) == seq![index],
{
}

} // verus!
