//! The viewer as a whole: which pane a message goes to, and what the
//! application does next (load a file, fetch signals, resize a pane).
//!
//! The application is generic in the handle of the wave database `A`, the
//! signal items of a module `S`, the pane events of the window `P` and the
//! error of the first load `E`; it only moves them around.
use crate::backend::errors::Waverr;
use crate::components::hier_nav::hier_nav;
use crate::components::hier_nav::hier_nav::{hiernav_step, HierNav};
use crate::components::hier_nav::hier_node::{hier_ok, hier_ordered, is_ordered, lemma_ordered_is_ok, HierMap};
use crate::components::icon_bar::{iconbar_step, IconBar};
use crate::components::menu_bar;
use crate::components::menu_bar::{menu_next, menu_update, GlobalMenuBar, MenuCommand};
use crate::components::module_nav;
use crate::components::module_nav::{modnav_step, ModNavigator};
use crate::components::signals;
use crate::components::signals::sigwindow::{sigview_accepts, sigview_step, SigViewer};
use crate::components::signals::wavewindow::{wavewindow_next, WaveWindowState};
use crate::widgets::signal_window;
use std::sync::Arc;
use vstd::prelude::*;

verus! {

/// The panes of the viewer.
#[derive(Debug, Clone, Copy, PartialEq, Eq, Structural)]
pub enum PaneId {
    SigView,
    ModNav,
    HierNav,
    WaveWindow,
}

impl PaneId {
    /// The title of the pane.
    pub fn name(&self) -> (r: &'static str)
        ensures
            *self == PaneId::SigView ==> r@ == "Signal viewer"@,
            *self == PaneId::ModNav ==> r@ == "Signal navigator"@,
            *self == PaneId::HierNav ==> r@ == "Hierarchy navigator"@,
            *self == PaneId::WaveWindow ==> r@ == "Waves"@,
    {
        match self {
            PaneId::SigView => "Signal viewer",
            PaneId::ModNav => "Signal navigator",
            PaneId::HierNav => "Hierarchy navigator",
            PaneId::WaveWindow => "Waves",
        }
    }
}

/// The state of a loaded viewer: every pane, the bars, the focused pane and
/// the database handle once a file is loaded.
pub struct State<A, S> {
    pub sigview: SigViewer,
    pub modnav: ModNavigator<S>,
    pub hiernav: HierNav,
    pub wavewindow: WaveWindowState,
    pub focused_pane: Option<PaneId>,
    pub menu_bar: GlobalMenuBar,
    pub icon_bar: IconBar,
    pub wdb_api: Option<A>,
}

/// The viewer: loading, or loaded.
pub enum Wave2<A, S> {
    Loading,
    Loaded(State<A, S>),
}

/// The messages of the viewer.
pub enum Message<A, S, P, E> {
    MNMessage(module_nav::Message<S>),
    HNMessage(hier_nav::Message),
    SignalsMessage(signals::Message),
    MBMessage(menu_bar::Message),
    IBMessage(signals::Message),
    /// The first load ended, with a database handle if a file was given.
    Loaded(Result<Option<A>, E>),
    /// A database was opened, with its module hierarchy, or failed to open.
    LoadWDB(Result<(A, Arc<HierMap>), Waverr>),
    PaneMessage(P),
}

/// What the application does after a message.
pub enum AppCommand<A, S, P> {
    Nothing,
    /// Ask for a VCD file and open it.
    LoadVcd,
    /// Open this database handle (and read its hierarchy).
    LoadWdb(A),
    /// Fetch the signals of this module for the module navigator.
    ModuleSignals(usize),
    /// Fetch this signal's wave and add it.
    Signal(S),
    /// Fetch the time bounds of the database.
    Bounds,
    /// Apply this pane event to the layout.
    Resize(P),
}

impl<A, S> State<A, S> {
    /// The panes with cells keep their offsets, the time axis is well formed.
    pub open spec fn wf(&self) -> bool {
        &&& self.sigview.wf()
        &&& self.modnav.wf()
        &&& self.wavewindow.widget_state.wf()
    }

    /// A viewer just loaded: every pane empty, nothing focused or pending.
    pub open spec fn is_fresh(&self) -> bool {
        &&& self.wf()
        &&& self.sigview.flags() == Seq::<bool>::empty()
        &&& self.sigview.wave_list().len() == 0
        &&& self.sigview.selection() is None
        &&& self.modnav.signal_list().len() == 0
        &&& self.modnav.selection() is None
        &&& self.hiernav.live() is None
        &&& self.hiernav.root().roots().len() == 0
        &&& self.wavewindow.widget_state.zoom == 0
        &&& self.wavewindow.widget_state.cursor_location == 0
        &&& self.focused_pane is None
        &&& !self.menu_bar.pending()
        &&& self.icon_bar.buttons_state@.len() == 6
        &&& self.wdb_api is None
    }

    /// Whether both signal panes can take `message`.
    pub open spec fn accepts_signals(&self, message: signals::Message) -> bool {
        sigview_accepts(self.sigview, message)
    }
}

impl<A, S> Wave2<A, S> {
    pub open spec fn wf(&self) -> bool {
        match self {
            Wave2::Loading => true,
            Wave2::Loaded(state) => state.wf(),
        }
    }
}

/// Whether the viewer handles `message` without a panic: a removal stays in
/// range, a hierarchy is a forest, a double click names a listed signal, and
/// the database is open when it is asked for.
pub open spec fn accepts<A, S, P, E>(app: Wave2<A, S>, message: Message<A, S, P, E>) -> bool {
    match app {
        Wave2::Loading => true,
        Wave2::Loaded(state) => match message {
            Message::SignalsMessage(m) => state.accepts_signals(m),
            Message::IBMessage(m) => (m is TIUpdate || m is BoundsUpdate) || state.accepts_signals(m),
            Message::HNMessage(hier_nav::Message::SetHier(map)) => hier_ok(*map),
            Message::HNMessage(hier_nav::Message::SendModule(_)) => state.wdb_api is Some,
            Message::MNMessage(module_nav::Message::AddSig(_)) => state.wdb_api is Some,
            Message::MNMessage(module_nav::Message::AddSigOffset(offset)) => offset
                < state.modnav.signal_list().len(),
            Message::LoadWDB(Ok((_, map))) => hier_ok(*map),
            _ => true,
        },
    }
}

/// [`accepts`], with each hierarchy listed parents first: what
/// [`Wave2::accepts_message`] tests.
pub open spec fn accepts_ordered<A, S, P, E>(app: Wave2<A, S>, message: Message<A, S, P, E>) -> bool {
    match app {
        Wave2::Loading => true,
        Wave2::Loaded(state) => match message {
            Message::SignalsMessage(m) => state.accepts_signals(m),
            Message::IBMessage(m) => (m is TIUpdate || m is BoundsUpdate) || state.accepts_signals(m),
            Message::HNMessage(hier_nav::Message::SetHier(map)) => hier_ordered(*map),
            Message::HNMessage(hier_nav::Message::SendModule(_)) => state.wdb_api is Some,
            Message::MNMessage(module_nav::Message::AddSig(_)) => state.wdb_api is Some,
            Message::MNMessage(module_nav::Message::AddSigOffset(offset)) => offset
                < state.modnav.signal_list().len(),
            Message::LoadWDB(Ok((_, map))) => hier_ordered(*map),
            _ => true,
        },
    }
}

/// Both signal panes after `message`: the viewer and the time axis each
/// take it, the rest stays.
pub open spec fn signals_step<A, S>(before: State<A, S>, after: State<A, S>, message: signals::Message) -> bool {
    &&& sigview_step(before.sigview, after.sigview, message)
    &&& after.wavewindow.widget_state == wavewindow_next(before.wavewindow.widget_state, message)
    &&& after.modnav == before.modnav
    &&& after.hiernav == before.hiernav
    &&& after.menu_bar == before.menu_bar
    &&& after.icon_bar == before.icon_bar
    &&& after.wdb_api == before.wdb_api
}

/// Everything but the focus is as it was.
pub open spec fn same_panes<A, S>(before: State<A, S>, after: State<A, S>) -> bool {
    &&& after.sigview == before.sigview
    &&& after.modnav == before.modnav
    &&& after.hiernav == before.hiernav
    &&& after.wavewindow == before.wavewindow
    &&& after.menu_bar == before.menu_bar
    &&& after.icon_bar == before.icon_bar
    &&& after.wdb_api == before.wdb_api
}

/// Whether `after` and the command `r` are what a loaded viewer `before`
/// gives for `message`.
pub open spec fn loaded_step<A, S, P, E>(
    before: State<A, S>,
    after: State<A, S>,
    message: Message<A, S, P, E>,
    r: AppCommand<A, S, P>,
) -> bool {
    match message {
        Message::MBMessage(m) => {
            let (pending, cmd) = menu_next(before.menu_bar.pending(), m);
            &&& after.menu_bar.pending() == pending
            &&& (cmd == MenuCommand::LoadVcd ==> r is LoadVcd)
            &&& (cmd == MenuCommand::Nothing ==> r is Nothing)
            &&& after.sigview == before.sigview
            &&& after.modnav == before.modnav
            &&& after.hiernav == before.hiernav
            &&& after.wavewindow == before.wavewindow
            &&& after.icon_bar == before.icon_bar
            &&& after.wdb_api == before.wdb_api
            &&& after.focused_pane == before.focused_pane
        },
        Message::SignalsMessage(m) => {
            &&& signals_step(before, after, m)
            &&& after.focused_pane == Some(PaneId::SigView)
            &&& r is Nothing
        },
        Message::HNMessage(m) => {
            &&& hiernav_step(before.hiernav, after.hiernav, m)
            &&& after.sigview == before.sigview
            &&& after.modnav == before.modnav
            &&& after.wavewindow == before.wavewindow
            &&& after.menu_bar == before.menu_bar
            &&& after.icon_bar == before.icon_bar
            &&& after.wdb_api == before.wdb_api
            &&& match m {
                hier_nav::Message::SendModule(idx) => after.focused_pane == before.focused_pane && r
                    == AppCommand::<A, S, P>::ModuleSignals(idx),
                _ => after.focused_pane == Some(PaneId::HierNav) && r is Nothing,
            }
        },
        Message::IBMessage(m) => {
            &&& r is Nothing
            &&& after.focused_pane == before.focused_pane
            &&& if m is TIUpdate || m is BoundsUpdate {
                &&& iconbar_step(before.icon_bar, after.icon_bar, m)
                &&& after.sigview == before.sigview
                &&& after.modnav == before.modnav
                &&& after.hiernav == before.hiernav
                &&& after.wavewindow == before.wavewindow
                &&& after.menu_bar == before.menu_bar
                &&& after.wdb_api == before.wdb_api
            } else {
                signals_step(before, after, m)
            }
        },
        Message::MNMessage(module_nav::Message::AddSig(item)) => {
            &&& same_panes(before, after)
            &&& after.focused_pane == before.focused_pane
            &&& r == AppCommand::<A, S, P>::Signal(item)
        },
        Message::MNMessage(m) => {
            &&& exists|c: module_nav::ModNavCommand| modnav_step(before.modnav, after.modnav, m, c)
            &&& after.sigview == before.sigview
            &&& after.hiernav == before.hiernav
            &&& after.wavewindow == before.wavewindow
            &&& after.menu_bar == before.menu_bar
            &&& after.icon_bar == before.icon_bar
            &&& after.wdb_api == before.wdb_api
            &&& after.focused_pane == Some(PaneId::ModNav)
            &&& r is Nothing
        },
        Message::LoadWDB(Ok((api, map))) => {
            &&& after.wdb_api == Some(api)
            &&& !after.menu_bar.pending()
            &&& hiernav_step(before.hiernav, after.hiernav, hier_nav::Message::SetHier(map))
            &&& after.sigview == before.sigview
            &&& after.modnav == before.modnav
            &&& after.wavewindow == before.wavewindow
            &&& after.icon_bar == before.icon_bar
            &&& after.focused_pane == before.focused_pane
            &&& r is Bounds
        },
        Message::LoadWDB(Err(_)) => {
            &&& !after.menu_bar.pending()
            &&& after.sigview == before.sigview
            &&& after.modnav == before.modnav
            &&& after.hiernav == before.hiernav
            &&& after.wavewindow == before.wavewindow
            &&& after.icon_bar == before.icon_bar
            &&& after.wdb_api == before.wdb_api
            &&& after.focused_pane == before.focused_pane
            &&& r is Nothing
        },
        Message::PaneMessage(p) => {
            &&& same_panes(before, after)
            &&& after.focused_pane == before.focused_pane
            &&& r == AppCommand::<A, S, P>::Resize(p)
        },
        Message::Loaded(_) => {
            &&& same_panes(before, after)
            &&& after.focused_pane == before.focused_pane
            &&& r is Nothing
        },
    }
}

/// Whether `after` and the command `r` are what the viewer `before` gives
/// for `message`. While loading, only the end of the first load counts: it
/// builds fresh panes, and opens the database if a file was given.
pub open spec fn app_step<A, S, P, E>(
    before: Wave2<A, S>,
    after: Wave2<A, S>,
    message: Message<A, S, P, E>,
    r: AppCommand<A, S, P>,
) -> bool {
    match before {
        Wave2::Loading => match message {
            Message::Loaded(Ok(db)) => {
                &&& after matches Wave2::Loaded(state) && state.is_fresh()
                &&& match db {
                    Some(api) => r == AppCommand::<A, S, P>::LoadWdb(api),
                    None => r is Nothing,
                }
            },
            _ => after is Loading && r is Nothing,
        },
        Wave2::Loaded(b) => after matches Wave2::Loaded(a) && loaded_step(b, a, message, r),
    }
}

/// A copy of the parts of `message` the time axis reads.
fn axis_part(message: &signals::Message) -> (r: signals::Message)
    ensures
        forall|s: signal_window::State| #[trigger] wavewindow_next(s, r) == wavewindow_next(s, *message),
{
    match message {
        signals::Message::InitBounds(b) => signals::Message::InitBounds((b.0, b.1)),
        signals::Message::UpdateCursor(t) => signals::Message::UpdateCursor(*t),
        signals::Message::ZoomIn => signals::Message::ZoomIn,
        signals::Message::ZoomOut => signals::Message::ZoomOut,
        _ => signals::Message::Noop,
    }
}

impl<A, S> State<A, S> {
    /// Fresh panes, nothing focused, no database.
    pub fn new() -> (r: Self)
        ensures
            r.is_fresh(),
    {
        State {
            sigview: SigViewer::default(),
            modnav: ModNavigator::default(),
            hiernav: HierNav::default(),
            wavewindow: WaveWindowState::default(),
            focused_pane: None,
            menu_bar: GlobalMenuBar::default(),
            icon_bar: IconBar::default(),
            wdb_api: None,
        }
    }

    /// Hands a message to both signal panes.
    fn update_signals_logic(&mut self, inner_message: signals::Message)
        requires
            old(self).wf(),
            old(self).accepts_signals(inner_message),
        ensures
            final(self).wf(),
            signals_step(*old(self), *final(self), inner_message),
            final(self).focused_pane == old(self).focused_pane,
    {
        let axis_message = axis_part(&inner_message);
        self.sigview.update(inner_message);
        self.wavewindow.update(axis_message);
    }

    /// Whether a file is being opened.
    pub fn open_file_pending(&self) -> (r: bool)
        ensures
            r == self.menu_bar.pending(),
    {
        self.menu_bar.get_pending_file()
    }

    /// Marks whether a file is being opened.
    pub fn set_file_pending(&mut self, pending: bool)
        ensures
            final(self).menu_bar.pending() == pending,
            same_panes_but_menu(*old(self), *final(self)),
            final(self).focused_pane == old(self).focused_pane,
    {
        self.menu_bar.set_pending_file(pending);
    }
}

/// Everything but the menu bar and the focus is as it was.
pub open spec fn same_panes_but_menu<A, S>(before: State<A, S>, after: State<A, S>) -> bool {
    &&& after.sigview == before.sigview
    &&& after.modnav == before.modnav
    &&& after.hiernav == before.hiernav
    &&& after.wavewindow == before.wavewindow
    &&& after.icon_bar == before.icon_bar
    &&& after.wdb_api == before.wdb_api
}

impl<A, S> Wave2<A, S> {
    /// Whether the viewer can take `message` without a panic, with any
    /// hierarchy in it listed parents first (see [`accepts_ordered`]).
    pub fn accepts_message<P, E>(&self, message: &Message<A, S, P, E>) -> (r: bool)
        ensures
            r == accepts_ordered(*self, *message),
            r ==> accepts(*self, *message),
    {
        match self {
            Wave2::Loading => true,
            Wave2::Loaded(state) => {
                let r = match message {
                    Message::SignalsMessage(m) => state.sigview.accepts(m),
                    Message::IBMessage(m) => match m {
                        signals::Message::TIUpdate(..) | signals::Message::BoundsUpdate(_) => true,
                        _ => state.sigview.accepts(m),
                    },
                    Message::HNMessage(hier_nav::Message::SetHier(map)) => is_ordered(map),
                    Message::HNMessage(hier_nav::Message::SendModule(_)) => state.wdb_api.is_some(),
                    Message::MNMessage(module_nav::Message::AddSig(_)) => state.wdb_api.is_some(),
                    Message::MNMessage(module_nav::Message::AddSigOffset(offset)) => *offset
                        < state.modnav.signal_items().len(),
                    Message::LoadWDB(Ok((_, map))) => is_ordered(map),
                    _ => true,
                };
                proof {
                    match message {
                        Message::HNMessage(hier_nav::Message::SetHier(map)) => {
                            if r {
                                lemma_ordered_is_ok(&**map);
                            }
                        },
                        Message::LoadWDB(Ok((_, map))) => {
                            if r {
                                lemma_ordered_is_ok(&**map);
                            }
                        },
                        _ => {},
                    }
                }
                r
            },
        }
    }

    /// Handles a message of the viewer (see [`app_step`]).
    pub fn update<P, E>(&mut self, message: Message<A, S, P, E>) -> (r: AppCommand<A, S, P>)
        requires
            old(self).wf(),
            accepts(*old(self), message),
        ensures
            final(self).wf(),
            app_step(*old(self), *final(self), message, r),
    {
        match self {
            Wave2::Loading => match message {
                Message::Loaded(Ok(wavedb)) => {
                    *self = Wave2::Loaded(State::new());
                    match wavedb {
                        Some(api) => AppCommand::LoadWdb(api),
                        None => AppCommand::Nothing,
                    }
                },
                _ => AppCommand::Nothing,
            },
            Wave2::Loaded(state) => match message {
                Message::MBMessage(menu_message) => {
                    match menu_update(&mut state.menu_bar, menu_message) {
                        MenuCommand::LoadVcd => AppCommand::LoadVcd,
                        MenuCommand::Nothing => AppCommand::Nothing,
                    }
                },
                Message::SignalsMessage(inner_message) => {
                    state.focused_pane = Some(PaneId::SigView);
                    state.update_signals_logic(inner_message);
                    AppCommand::Nothing
                },
                Message::HNMessage(hn_message) => match hn_message {
                    hier_nav::Message::SendModule(module_idx) => {
                        state.hiernav.update(hier_nav::Message::SendModule(module_idx));
                        AppCommand::ModuleSignals(module_idx)
                    },
                    _ => {
                        state.focused_pane = Some(PaneId::HierNav);
                        state.hiernav.update(hn_message);
                        AppCommand::Nothing
                    },
                },
                Message::IBMessage(ib_message) => {
                    match ib_message {
                        signals::Message::TIUpdate(..) | signals::Message::BoundsUpdate(_) => {
                            state.icon_bar.update(ib_message)
                        },
                        _ => {
                            state.update_signals_logic(ib_message);
                        },
                    }
                    AppCommand::Nothing
                },
                Message::MNMessage(mn_message) => match mn_message {
                    module_nav::Message::AddSig(signal_item) => AppCommand::Signal(signal_item),
                    _ => {
                        state.focused_pane = Some(PaneId::ModNav);
                        let _ = state.modnav.update(mn_message);
                        AppCommand::Nothing
                    },
                },
                Message::LoadWDB(payload) => match payload {
                    Ok((wdb_api, hier_map)) => {
                        state.wdb_api = Some(wdb_api);
                        state.set_file_pending(false);
                        state.hiernav.update(hier_nav::Message::SetHier(hier_map));
                        AppCommand::Bounds
                    },
                    Err(_) => {
                        state.set_file_pending(false);
                        AppCommand::Nothing
                    },
                },
                Message::PaneMessage(pane_message) => AppCommand::Resize(pane_message),
                Message::Loaded(_) => AppCommand::Nothing,
            },
        }
    }
}

} // verus!
