use std::sync::Arc;
use wave2::application::{AppCommand, Message as AppMessage, PaneId, Wave2};
use wave2::backend::errors::Waverr;
use wave2::backend::{InMemWave, SigType};
use wave2::components::hier_nav::hier_nav::{HierNav, HierOptions, Message as HierMessage};
use wave2::components::hier_nav::hier_node::{is_ordered, HierMap, HierRoot, ModuleItem, SharedNodeState};
use wave2::components::icon_bar::IconBar;
use wave2::components::menu_bar::{menu_update, FileMenu, GlobalMenuBar, MenuCommand, Message as MenuMessage, ViewMenu};
use wave2::components::module_nav::{Message as NavMessage, ModNavCommand, ModNavigator};
use wave2::components::shared::cell_list::{CellList, ListNodeState};
use wave2::components::signals::beach::{Beach, BeachCommand, BeachContent, BeachMsg};
use wave2::components::signals::sigwindow::{SigViewer, WaveOptions};
use wave2::components::signals::wavewindow::WaveWindowState;
use wave2::components::signals::{Bound, Message};
use wave2::components::sigwindow::display_wave::SBWaveState;
use wave2::components::sigwindow::wavewindow::{CursorState, Message as CanvasMessage, WaveWindowState as CanvasState};
use wave2::widgets::traits::CellOption;

fn wave(name: &str) -> Arc<InMemWave> {
    Arc::new(InMemWave { name: name.to_string(), signal_content: vec![], sig_type: SigType::Bit })
}

fn offsets(list: &CellList<u8>) -> Vec<usize> {
    list.nodes().iter().map(|n| n.node_state().offset).collect()
}

fn selected(list: &CellList<u8>) -> Vec<bool> {
    list.nodes().iter().map(|n| n.node_state().selected).collect()
}

#[test]
fn cell_list_keeps_offsets_after_removal() {
    let mut list: CellList<u8> = CellList::new(4);
    assert_eq!(offsets(&list), vec![0, 1, 2, 3]);
    list.toggle_selected(2, true);
    list.push_with_entries(vec![9, 8]);
    assert_eq!(list.len(), 5);
    list.remove(1);
    assert_eq!(offsets(&list), vec![0, 1, 2, 3]);
    assert_eq!(selected(&list), vec![false, true, false, false]);
    assert_eq!(list.nodes()[3].entries(), &vec![9, 8]);
    // toggling past the end changes nothing
    list.toggle_selected(10, true);
    assert_eq!(selected(&list), vec![false, true, false, false]);
    list.clear();
    assert_eq!(list.len(), 0);
}

#[test]
fn cell_list_builders() {
    let list: CellList<u8> = CellList::default().set_cell_padding(4).set_text_size(11).set_spacing(2);
    assert_eq!(list.text_size(), Some(11));
    assert_eq!(list.cell_padding(), Some(4));
    assert_eq!(list.spacing(), 2);
    assert_eq!(ListNodeState::default(), ListNodeState { offset: 0, selected: false });
}

#[test]
fn sigviewer_selects_one_wave_at_a_time() {
    let mut sv = SigViewer::default();
    for n in ["a", "b", "c"] {
        sv.update(Message::AddWave(Ok(wave(n))));
    }
    sv.update(Message::AddWave(Err(Arc::new(Waverr::GenericErr("no".to_string())))));
    assert_eq!(sv.waves().len(), 3);
    sv.update(Message::SelectedWave(1));
    sv.update(Message::SelectedWave(2));
    let flags: Vec<bool> = sv.cells().nodes().iter().map(|n| n.node_state().selected).collect();
    assert_eq!(flags, vec![false, false, true]);
    assert_eq!(sv.selected(), Some(&vec![2]));
}

#[test]
fn sigviewer_removes_selected_cell() {
    let mut sv = SigViewer::default();
    for n in ["a", "b", "c"] {
        sv.update(Message::AddWave(Ok(wave(n))));
    }
    sv.update(Message::SelectedWave(0));
    sv.update(Message::RemoveSelected);
    assert_eq!(sv.cells().len(), 2);
    assert!(sv.selected().is_none());
    // the waves themselves stay, as the cells and the waves are kept apart
    assert_eq!(sv.waves().len(), 3);
    sv.update(Message::ClearWaves);
    assert_eq!(sv.cells().len(), 0);
}

#[test]
fn wave_options_send_remove() {
    assert_eq!(WaveOptions::all(), &[WaveOptions::Delete]);
    assert!(matches!(WaveOptions::Delete.to_message(), Message::RemoveSelected));
    assert_eq!(WaveOptions::Delete.name(), "Delete");
    assert_eq!(HierOptions::Expand.name(), "Expand");
}

#[test]
fn wavewindow_handles_axis_messages() {
    let mut ww = WaveWindowState::default();
    ww.update(Message::InitBounds((5, 500)));
    ww.update(Message::UpdateCursor(42));
    ww.update(Message::ZoomOut);
    ww.update(Message::ZoomOut);
    ww.update(Message::ZoomIn);
    ww.update(Message::Next);
    let s = &ww.widget_state;
    assert_eq!((s.start_time, s.end_time, s.cursor_location, s.zoom, s.ns_per_frame), (5, 500, 42, 1, 2));
    ww.update(Message::ZoomIn);
    ww.update(Message::ZoomIn);
    assert_eq!(ww.widget_state.zoom, 0);
}

#[test]
fn beach_content_forwards() {
    let mut pane = BeachContent::Waves(WaveWindowState::default());
    pane.update(Message::UpdateCursor(9));
    match &pane {
        BeachContent::Waves(w) => assert_eq!(w.widget_state.cursor_location, 9),
        BeachContent::Signals(_) => panic!("pane changed kind"),
    }
    let mut sig = BeachContent::Signals(SigViewer::default());
    sig.update(Message::AddWave(Ok(wave("x"))));
    match &sig {
        BeachContent::Signals(s) => assert_eq!(s.cells().len(), 1),
        BeachContent::Waves(_) => panic!("pane changed kind"),
    }
}

#[test]
fn open_asks_for_one_file_at_a_time() {
    let mut bar = GlobalMenuBar::default();
    assert_eq!(menu_update(&mut bar, MenuMessage::File(FileMenu::Open)), MenuCommand::LoadVcd);
    assert!(bar.get_pending_file());
    assert_eq!(menu_update(&mut bar, MenuMessage::File(FileMenu::Open)), MenuCommand::Nothing);
    assert_eq!(menu_update(&mut bar, MenuMessage::View(ViewMenu::ImplMe)), MenuCommand::Nothing);
    bar.set_pending_file(false);
    assert_eq!(menu_update(&mut bar, MenuMessage::File(FileMenu::Open)), MenuCommand::LoadVcd);
    assert_eq!(MenuMessage::File(FileMenu::Open).name(), "File");
    assert_eq!(FileMenu::Open.name(), "Open");
    assert_eq!(ViewMenu::ImplMe.name(), "ImplMe");
}

fn design() -> HierMap {
    HierMap {
        module_list: vec![
            ModuleItem { self_idx: 10, name: "top".to_string(), submodules: vec![1, 2] },
            ModuleItem { self_idx: 11, name: "cpu".to_string(), submodules: vec![3] },
            ModuleItem { self_idx: 12, name: "mem".to_string(), submodules: vec![] },
            ModuleItem { self_idx: 13, name: "alu".to_string(), submodules: vec![] },
        ],
        roots: vec![0],
    }
}

#[test]
fn hierarchy_tree_and_flags() {
    let mut root = HierRoot::from(&design());
    let roots = root.root_nodes();
    assert_eq!(roots.len(), 1);
    assert_eq!(roots[0].payload.name, "top");
    assert_eq!(roots[0].children.len(), 2);
    assert_eq!(roots[0].children[0].children[0].payload.hier_idx, 13);
    assert_eq!(root.node_state(12), Some(SharedNodeState { expanded: false, selected: false }));
    root.update_expander(12);
    root.toggle_selected(13);
    assert_eq!(root.node_state(12), Some(SharedNodeState { expanded: true, selected: false }));
    assert_eq!(root.node_state(13), Some(SharedNodeState { expanded: false, selected: true }));
    root.update_expander(12);
    assert_eq!(root.node_state(12), Some(SharedNodeState { expanded: false, selected: false }));
    root.update_expander(99);
    assert_eq!(root.node_state(99), None);
}

#[test]
fn hiernav_live_module_toggles() {
    let mut nav = HierNav::default();
    nav.update(HierMessage::SetHier(Arc::new(design())));
    assert_eq!(nav.hier_root().root_nodes().len(), 1);
    nav.update(HierMessage::SendModule(2));
    assert_eq!(nav.live_module(), Some(2));
    nav.update(HierMessage::SendModule(3));
    assert_eq!(nav.live_module(), Some(3));
    nav.update(HierMessage::SendModule(3));
    assert_eq!(nav.live_module(), None);
    nav.update(HierMessage::Toggle(10));
    assert_eq!(nav.hier_root().node_state(10).map(|s| s.expanded), Some(true));
}

#[test]
fn module_navigator_lists_and_selects() {
    let mut nav: ModNavigator<&str> = ModNavigator::default();
    assert!(matches!(nav.update(NavMessage::SignalUpdate(vec!["clk", "rst", "data"])), ModNavCommand::Nothing));
    assert_eq!(nav.cells().len(), 3);
    nav.update(NavMessage::ClickedItem(0));
    nav.update(NavMessage::ClickedItem(2));
    let flags: Vec<bool> = nav.cells().nodes().iter().map(|n| n.node_state().selected).collect();
    assert_eq!(flags, vec![false, false, true]);
    assert_eq!(nav.selected_offset(), Some(2));
    assert!(matches!(nav.update(NavMessage::AddSigOffset(1)), ModNavCommand::AddSignalAt(1)));
    assert_eq!(nav.signal_items()[1], "rst");
}

#[test]
fn icon_bar_edits_bounds() {
    let mut bar = IconBar::default();
    assert_eq!(bar.buttons_state.len(), 6);
    assert!(matches!(bar.buttons_state[0].message, Message::ZoomIn));
    bar.update(Message::TIUpdate(Bound::Left, "120".to_string()));
    bar.update(Message::TIUpdate(Bound::Right, "900".to_string()));
    assert_eq!(bar.bounds_str, ("120".to_string(), "900".to_string()));
    bar.update(Message::BoundsUpdate(Bound::Left));
    assert_eq!(bar.bounds_str, (String::new(), "900".to_string()));
}

#[test]
fn header_ticks_and_window_end() {
    let cs = CursorState::default();
    assert_eq!((cs.cursor_location, cs.view_range), (10, (0, 800)));
    assert_eq!(cs.end_window_time(600), 600);
    assert_eq!(cs.end_window_time(1000), 800);
    let (step, ticks) = cs.header_ticks();
    assert_eq!(step, 100);
    assert_eq!(ticks, vec![0, 100, 200, 300, 400, 500, 600, 700]);
    let narrow = CursorState { cursor_location: 0, view_range: (7, 20) };
    let (step, ticks) = narrow.header_ticks();
    assert_eq!(step, 1);
    assert_eq!(ticks, (7..20).collect::<Vec<u32>>());
    let offset = CursorState { cursor_location: 0, view_range: (150, 450) };
    assert_eq!(offset.header_ticks(), (100, vec![200, 300, 400]));
}

#[test]
fn single_bit_trace_states() {
    assert_eq!(SBWaveState::Beginning.single_bit_change(0), (SBWaveState::Low, 1));
    assert_eq!(SBWaveState::Beginning.single_bit_change(3), (SBWaveState::High, 0));
    assert_eq!(SBWaveState::High.single_bit_change(2), (SBWaveState::Low, 1));
    assert_eq!(SBWaveState::Low.single_bit_change(1), (SBWaveState::High, -1));
    assert_eq!(SBWaveState::of_vector(true), SBWaveState::X);
    assert_eq!(SBWaveState::of_vector(false), SBWaveState::High);
}

type App = Wave2<u32, &'static str>;
type AppMsg = AppMessage<u32, &'static str, (), ()>;

#[test]
fn viewer_loads_and_routes_messages() {
    let mut app: App = Wave2::Loading;
    let r = app.update::<(), ()>(AppMsg::Loaded(Ok(Some(7))));
    assert!(matches!(r, AppCommand::LoadWdb(7)));
    let r = app.update::<(), ()>(AppMsg::LoadWDB(Ok((7, Arc::new(design())))));
    assert!(matches!(r, AppCommand::Bounds));
    let r = app.update::<(), ()>(AppMsg::SignalsMessage(Message::AddWave(Ok(wave("a")))));
    assert!(matches!(r, AppCommand::Nothing));
    let r = app.update::<(), ()>(AppMsg::IBMessage(Message::ZoomOut));
    assert!(matches!(r, AppCommand::Nothing));
    let r = app.update::<(), ()>(AppMsg::HNMessage(HierMessage::SendModule(1)));
    assert!(matches!(r, AppCommand::ModuleSignals(1)));
    let r = app.update::<(), ()>(AppMsg::MNMessage(NavMessage::AddSig("clk")));
    assert!(matches!(r, AppCommand::Signal("clk")));
    let r = app.update::<(), ()>(AppMsg::MBMessage(MenuMessage::File(FileMenu::Open)));
    assert!(matches!(r, AppCommand::LoadVcd));
    let r = app.update::<(), ()>(AppMsg::MBMessage(MenuMessage::File(FileMenu::Open)));
    assert!(matches!(r, AppCommand::Nothing));
    let r = app.update::<(), ()>(AppMsg::PaneMessage(()));
    assert!(matches!(r, AppCommand::Resize(())));
    match &app {
        Wave2::Loaded(state) => {
            assert_eq!(state.sigview.cells().len(), 1);
            assert_eq!(state.wavewindow.widget_state.zoom, 1);
            assert_eq!(state.hiernav.live_module(), Some(1));
            assert_eq!(state.focused_pane, Some(PaneId::SigView));
            assert_eq!(state.wdb_api, Some(7));
            assert!(state.open_file_pending());
        }
        Wave2::Loading => panic!("still loading"),
    }
}

#[test]
fn viewer_stays_loading_until_loaded() {
    let mut app: App = Wave2::Loading;
    let r = app.update::<(), ()>(AppMsg::PaneMessage(()));
    assert!(matches!(r, AppCommand::Nothing));
    assert!(matches!(app, Wave2::Loading));
    let r = app.update::<(), ()>(AppMsg::Loaded(Err(())));
    assert!(matches!(r, AppCommand::Nothing));
    let r = app.update::<(), ()>(AppMsg::Loaded(Ok(None)));
    assert!(matches!(r, AppCommand::Nothing));
    assert!(matches!(app, Wave2::Loaded(_)));
}

#[test]
fn failed_database_clears_pending_file() {
    let mut app: App = Wave2::Loading;
    app.update::<(), ()>(AppMsg::Loaded(Ok(None)));
    app.update::<(), ()>(AppMsg::MBMessage(MenuMessage::File(FileMenu::Open)));
    let r = app.update::<(), ()>(AppMsg::LoadWDB(Err(Waverr::VCDErr("Malformed vcd"))));
    assert!(matches!(r, AppCommand::Nothing));
    match &app {
        Wave2::Loaded(state) => assert!(!state.open_file_pending()),
        Wave2::Loading => panic!("still loading"),
    }
}

#[test]
fn expand_module_by_dotted_path() {
    let mut root = HierRoot::from(&design());
    assert_eq!(root.expand_module("top.cpu.alu"), Ok(()));
    assert_eq!(root.node_state(13).map(|s| s.expanded), Some(true));
    assert_eq!(root.expand_module("top.mem"), Ok(()));
    assert_eq!(root.node_state(12).map(|s| s.expanded), Some(true));
    assert!(root.expand_module("top.nope").is_err());
    assert!(root.expand_module("").is_err());
    // a part that is not found leaves the search at the same level
    assert_eq!(root.expand_module("nope.top"), Ok(()));
    assert_eq!(root.node_state(10).map(|s| s.expanded), Some(true));
}

#[test]
fn canvas_window_takes_clicked_cursor() {
    let mut ww = CanvasState::default();
    assert_eq!(ww.end_window_time(), 600);
    ww.update(CanvasMessage::UpdateCursor(CursorState { cursor_location: 33, view_range: (100, 500) }));
    assert_eq!(ww.cursor_state.cursor_location, 33);
    assert_eq!(ww.end_window_time(), 500);
    assert_eq!(PaneId::SigView.name(), "Signal viewer");
    assert_eq!(PaneId::WaveWindow.name(), "Waves");
}

#[test]
fn hierarchy_listed_children_first_still_builds() {
    // the submodule comes before its parent in the list: no cycle, so it loads
    let map = HierMap {
        module_list: vec![
            ModuleItem { self_idx: 0, name: "leaf".to_string(), submodules: vec![] },
            ModuleItem { self_idx: 1, name: "top".to_string(), submodules: vec![0] },
        ],
        roots: vec![1],
    };
    assert!(!is_ordered(&map));
    let root = HierRoot::from(&map);
    assert_eq!(root.root_nodes()[0].children[0].payload.name, "leaf");
    assert!(is_ordered(&design()));
}

#[test]
fn viewer_refuses_what_would_panic() {
    let mut app: App = Wave2::Loading;
    app.update::<(), ()>(AppMsg::Loaded(Ok(None)));
    assert!(!app.accepts_message(&AppMsg::MNMessage(NavMessage::AddSig("clk"))));
    assert!(!app.accepts_message(&AppMsg::MNMessage(NavMessage::AddSigOffset(0))));
    assert!(app.accepts_message(&AppMsg::SignalsMessage(Message::RemoveSelected)));
    app.update::<(), ()>(AppMsg::SignalsMessage(Message::SelectedWave(4)));
    assert!(!app.accepts_message(&AppMsg::SignalsMessage(Message::RemoveSelected)));
    assert!(app.accepts_message(&AppMsg::LoadWDB(Ok((1, Arc::new(design()))))));
}

fn beach_ids(b: &Beach) -> Vec<u32> {
    b.waves.iter().map(|w| w.signal_id).collect()
}

#[test]
fn beach_adds_waves_and_asks_for_their_values() {
    let mut b = Beach::new();
    b.update(BeachMsg::UpdateCursor(40));
    assert_eq!(b.wavewindow.widget_state.cursor_location, 40);
    for (k, (id, n)) in [(7u32, "a"), (8, "b"), (7, "c")].into_iter().enumerate() {
        match b.update(BeachMsg::AddWave(Ok((id, wave(n))))) {
            BeachCommand::ReadValue { wave, at } => {
                assert_eq!(wave, k);
                assert_eq!(at, 40);
            }
            _ => panic!("expected a read of the new wave"),
        }
    }
    let failed = b.update(BeachMsg::AddWave(Err(Arc::new(Waverr::GenericErr("no".to_string())))));
    assert!(matches!(failed, BeachCommand::Nothing));
    assert_eq!(beach_ids(&b), vec![7, 8, 7]);
    assert_eq!(b.sigwindow.cells().len(), 3);
    assert!(matches!(b.update(BeachMsg::UpdateCursor(90)), BeachCommand::ReadValues(90)));
    b.update(BeachMsg::UpdateWaveValues(Some((7, "1".to_string()))));
    let values: Vec<Option<String>> = b.waves.iter().map(|w| w.val_under_cursor.clone()).collect();
    assert_eq!(values, vec![Some("1".to_string()), None, Some("1".to_string())]);
}

#[test]
fn beach_moves_along_the_selected_wave_and_removes_it() {
    let mut b = Beach::new();
    for (id, n) in [(1u32, "a"), (2, "b"), (3, "c")] {
        b.update(BeachMsg::AddWave(Ok((id, wave(n)))));
    }
    assert!(matches!(b.update(BeachMsg::Next), BeachCommand::Nothing));
    b.update(BeachMsg::UpdateCursor(25));
    b.update(BeachMsg::SelectedWave(1));
    match b.update(BeachMsg::Next) {
        BeachCommand::SeekNext { wave, from } => {
            assert_eq!(wave, 1);
            assert_eq!(from, 25);
        }
        _ => panic!("expected a seek forward"),
    }
    match b.update(BeachMsg::Prev) {
        BeachCommand::SeekPrev { wave, from } => {
            assert_eq!(wave, 1);
            assert_eq!(from, 25);
        }
        _ => panic!("expected a seek backward"),
    }
    b.update(BeachMsg::RemoveSelected);
    assert_eq!(beach_ids(&b), vec![1, 3]);
    assert_eq!(b.sigwindow.cells().len(), 2);
    assert_eq!(b.sigwindow.selected(), None);
    b.update(BeachMsg::ClearWaves);
    assert!(b.waves.is_empty());
}
