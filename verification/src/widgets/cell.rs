//! A selectable cell with a context menu of options: clicks, double clicks,
//! selection, and choosing an option from the menu.
use crate::widgets::traits::CellOption;
use vstd::prelude::*;

verus! {

/// How many clicks a left press completes.
#[derive(Debug, Clone, Copy, PartialEq, Eq, Structural)]
pub enum ClickKind {
    Single,
    Double,
    Triple,
}

/// An input event, reduced to what a cell reads.
#[derive(Debug, Clone, Copy, PartialEq, Eq, Structural)]
pub enum CellInput {
    /// The left button went down; `in_bounds` is whether over the cell.
    LeftPressed { in_bounds: bool, click: ClickKind },
    RightPressed { in_bounds: bool },
    CursorMoved { in_bounds: bool },
    Other,
}

/// What a cell did with an event.
pub enum CellOutput<M> {
    /// An option of the open menu was chosen; this is its message.
    Chose(M),
    /// The open menu was closed without a choice.
    MenuClosed,
    Clicked,
    DoubleClicked,
    /// The menu was opened or closed at the cursor.
    MenuToggled,
    Ignored,
}

/// The local state of a cell.
pub struct State<O> {
    pub menu_open: bool,
    pub hovered_option: bool,
    pub selected: bool,
    pub menu_hovered_option: Option<usize>,
    pub menu_last_selection: Option<O>,
}

impl<O> State<O> {
    /// Closed, unhovered, unselected.
    pub fn new() -> (r: Self)
        ensures
            !r.menu_open && !r.hovered_option && !r.selected,
            r.menu_hovered_option is None,
            r.menu_last_selection is None,
    {
        State {
            menu_open: false,
            hovered_option: false,
            selected: false,
            menu_hovered_option: None,
            menu_last_selection: None,
        }
    }

    pub fn set_selected(&mut self, select_val: bool)
        ensures
            final(self).selected == select_val,
            final(self).menu_open == old(self).menu_open,
            final(self).hovered_option == old(self).hovered_option,
            final(self).menu_hovered_option == old(self).menu_hovered_option,
            final(self).menu_last_selection == old(self).menu_last_selection,
    {
        self.selected = select_val;
    }
}

impl<O: CellOption> State<O> {
    /// Handles an event. A left press while the menu is open sends the
    /// chosen option, if any, and closes the menu; over the cell it clicks
    /// (or double clicks) and flips the selection when hovered, or clears
    /// it. A right press over a selected cell opens or closes the menu. The
    /// cursor over the cell marks it hovered.
    pub fn on_event(&mut self, event: CellInput) -> (r: CellOutput<O::Message>)
        ensures
            final(self).menu_hovered_option == old(self).menu_hovered_option,
            event is LeftPressed && old(self).menu_open ==> (old(self).menu_last_selection matches Some(sel)
                ==> (r matches CellOutput::Chose(m) && call_ensures(O::to_message, (&sel,), m))),
            match event {
                CellInput::LeftPressed { in_bounds, click } => if old(self).menu_open {
                    &&& !final(self).menu_open
                    &&& final(self).menu_last_selection is None
                    &&& final(self).selected == old(self).selected
                    &&& final(self).hovered_option == old(self).hovered_option
                    &&& (old(self).menu_last_selection is Some <==> r is Chose)
                    &&& (old(self).menu_last_selection is None <==> r is MenuClosed)
                } else if in_bounds {
                    &&& final(self).menu_open == old(self).menu_open
                    &&& final(self).menu_last_selection == old(self).menu_last_selection
                    &&& final(self).hovered_option == old(self).hovered_option
                    &&& final(self).selected == (old(self).hovered_option && !old(self).selected)
                    &&& (click is Single ==> r is Clicked)
                    &&& (!(click is Single) ==> r is DoubleClicked)
                } else {
                    &&& final(self).menu_open == old(self).menu_open
                    &&& final(self).menu_last_selection == old(self).menu_last_selection
                    &&& final(self).hovered_option == old(self).hovered_option
                    &&& final(self).selected == old(self).selected
                    &&& r is Ignored
                },
                CellInput::RightPressed { in_bounds } => if in_bounds && old(self).selected {
                    &&& final(self).menu_open == !old(self).menu_open
                    &&& final(self).menu_last_selection is None
                    &&& final(self).hovered_option == old(self).hovered_option
                    &&& final(self).selected == old(self).selected
                    &&& r is MenuToggled
                } else {
                    &&& final(self).menu_open == old(self).menu_open
                    &&& final(self).menu_last_selection == old(self).menu_last_selection
                    &&& final(self).hovered_option == old(self).hovered_option
                    &&& final(self).selected == old(self).selected
                    &&& r is Ignored
                },
                CellInput::CursorMoved { in_bounds } => {
                    &&& final(self).hovered_option == (old(self).hovered_option || in_bounds)
                    &&& final(self).menu_open == old(self).menu_open
                    &&& final(self).menu_last_selection == old(self).menu_last_selection
                    &&& final(self).selected == old(self).selected
                    &&& r is Ignored
                },
                CellInput::Other => {
                    &&& final(self).hovered_option == old(self).hovered_option
                    &&& final(self).menu_open == old(self).menu_open
                    &&& final(self).menu_last_selection == old(self).menu_last_selection
                    &&& final(self).selected == old(self).selected
                    &&& r is Ignored
                },
            },
    {
        match event {
            CellInput::LeftPressed { in_bounds, click } => {
                if self.menu_open {
                    let out = match &self.menu_last_selection {
                        Some(selection) => CellOutput::Chose(selection.to_message()),
                        None => CellOutput::MenuClosed,
                    };
                    self.menu_open = false;
                    self.menu_last_selection = None;
                    out
                } else if in_bounds {
                    let out = match click {
                        ClickKind::Single => CellOutput::Clicked,
                        _ => CellOutput::DoubleClicked,
                    };
                    if self.hovered_option {
                        self.selected = !self.selected;
                    } else {
                        self.selected = false;
                    }
                    out
                } else {
                    CellOutput::Ignored
                }
            },
            CellInput::RightPressed { in_bounds } => {
                if in_bounds && self.selected {
                    self.menu_open = !self.menu_open;
                    self.menu_last_selection = None;
                    CellOutput::MenuToggled
                } else {
                    CellOutput::Ignored
                }
            },
            CellInput::CursorMoved { in_bounds } => {
                if in_bounds {
                    self.hovered_option = true;
                }
                CellOutput::Ignored
            },
            CellInput::Other => CellOutput::Ignored,
        }
    }
}

} // verus!
