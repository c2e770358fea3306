use wave2::widgets::cell2::{
    get_entry, get_entry_list, stack_to_path_list, CellEvent, CellResponse, Entry, State as CellState,
};
use wave2::widgets::cell_list::{ListEvent, State as ListState};
use wave2::widgets::signal_window::State as AxisState;
use wave2::widgets::styles::cell2::StyleState;
use wave2::widgets::utils::{color_from_str, Rgb8};

#[test]
fn gray_str() {
    assert_eq!(
        color_from_str("#797986"),
        Rgb8 { r: 0x79, g: 0x79, b: 0x86 },
        "Colors arent equal!"
    );
}

#[test]
fn color_in_either_case_and_with_sign() {
    assert_eq!(color_from_str("#FFa000"), Rgb8 { r: 255, g: 160, b: 0 });
    assert_eq!(color_from_str("#+7+8+9"), Rgb8 { r: 7, g: 8, b: 9 });
    assert_eq!(color_from_str("x000001 and more"), Rgb8 { r: 0, g: 0, b: 1 });
}

#[test]
fn path_list_is_every_prefix() {
    let stack = [4usize, 5, 2];
    let list = stack_to_path_list(&stack);
    let expected: Vec<&[usize]> = vec![&[4], &[4, 5], &[4, 5, 2]];
    assert_eq!(list, expected);
    assert_eq!(stack_to_path_list(&[]).len(), 0);
}

type E = Entry<&'static str, u32, u32>;

fn menu() -> Vec<E> {
    vec![
        Entry::Item("open", Some(1)),
        Entry::Group(
            "view",
            vec![
                Entry::Toggle("grid", true, Some(7)),
                Entry::Separator,
                Entry::Group("zoom", vec![Entry::Item("in", Some(2)), Entry::Item("out", None)]),
            ],
        ),
    ]
}

#[test]
fn entries_by_path() {
    let entries = menu();
    assert!(matches!(get_entry(&entries, &[0]), Entry::Item("open", Some(1))));
    assert!(matches!(get_entry(&entries, &[1, 0]), Entry::Toggle("grid", true, Some(7))));
    assert!(matches!(get_entry(&entries, &[1, 2, 1]), Entry::Item("out", None)));
    // a path that reaches an item early stops at that item
    assert!(matches!(get_entry(&entries, &[0, 3]), Entry::Item("open", Some(1))));
}

#[test]
fn entry_lists_along_a_path() {
    let entries = menu();
    let lists = get_entry_list(&entries, &[1, 2]);
    assert_eq!(lists.len(), 3);
    assert_eq!(lists[0].len(), 2);
    assert_eq!(lists[1].len(), 3);
    assert_eq!(lists[2].len(), 2);
    assert_eq!(get_entry_list(&entries, &[]).len(), 1);
}

#[test]
fn cell_opens_menu_only_with_entries() {
    let mut s = CellState::new();
    assert_eq!(s.on_event(CellEvent::RightPressed, true, false), CellResponse::Ignored);
    assert!(!s.menu_open);
    assert_eq!(s.on_event(CellEvent::LeftPressed, true, true), CellResponse::Clicked);
    assert_eq!(s.on_event(CellEvent::RightPressed, false, true), CellResponse::Ignored);
    assert_eq!(s.on_event(CellEvent::RightPressed, true, true), CellResponse::MenuOpened);
    assert!(s.menu_open);
    assert_eq!(s.on_event(CellEvent::LeftPressed, true, true), CellResponse::Ignored);
}

fn click(s: &mut ListState<u8>, index: usize) {
    s.on_event(ListEvent::CursorMoved { hovered: Some(index) }, 10);
    s.on_event(ListEvent::LeftPressed { in_bounds: true }, 10);
}

#[test]
fn list_selection_by_click_ctrl_and_shift() {
    let mut s: ListState<u8> = ListState::new();
    click(&mut s, 3);
    assert_eq!(s.last_selection, vec![3]);
    s.on_event(ListEvent::ModifiersChanged { control: true, shift: false }, 10);
    click(&mut s, 5);
    assert_eq!(s.last_selection, vec![3, 5]);
    click(&mut s, 3);
    assert_eq!(s.last_selection, vec![5]);
    s.on_event(ListEvent::ModifiersChanged { control: false, shift: true }, 10);
    click(&mut s, 8);
    assert_eq!(s.last_selection, vec![5, 6, 7]);
    click(&mut s, 2);
    assert_eq!(s.last_selection, vec![2, 3, 4]);
    s.on_event(ListEvent::ModifiersChanged { control: false, shift: false }, 10);
    // an item past the end is not selected
    s.on_event(ListEvent::CursorMoved { hovered: Some(12) }, 10);
    s.on_event(ListEvent::LeftPressed { in_bounds: true }, 10);
    assert_eq!(s.last_selection, vec![2, 3, 4]);
    // moving outside the list keeps the hovered item
    s.on_event(ListEvent::CursorMoved { hovered: None }, 10);
    assert_eq!(s.hovered_option, Some(12));
}

#[test]
fn list_menu_toggles_on_right_click() {
    let mut s: ListState<u8> = ListState::new();
    assert!(!s.on_event(ListEvent::RightPressed, 10));
    click(&mut s, 1);
    assert!(s.on_event(ListEvent::RightPressed, 10));
    assert!(s.menu_open);
    // a left press while the menu is open closes it and holds the cursor
    assert!(!s.on_event(ListEvent::LeftPressed { in_bounds: true }, 10));
    assert!(!s.menu_open);
    assert!(s.cursor_held);
    assert!(!s.on_event(ListEvent::RightPressed, 10));
    s.on_event(ListEvent::LeftReleased, 10);
    assert!(!s.cursor_held);
    assert_eq!(s.last_selection, vec![1]);
}

#[test]
fn zoom_levels_and_frame_spans() {
    let mut axis = AxisState::new();
    assert_eq!((axis.zoom, axis.ns_per_frame), (0, 1));
    axis.calczoom(3);
    assert_eq!((axis.zoom, axis.ns_per_frame), (3, 8));
    axis.calczoom(1);
    assert_eq!((axis.zoom, axis.ns_per_frame), (4, 10));
    axis.calczoom(1);
    assert_eq!((axis.zoom, axis.ns_per_frame), (5, 100));
    axis.calczoom(5);
    assert_eq!((axis.zoom, axis.ns_per_frame), (10, 1000));
    axis.calczoom(1000);
    assert_eq!((axis.zoom, axis.ns_per_frame), (63, 10_000_000_000_000_000_000));
    axis.calczoom(-1000);
    assert_eq!((axis.zoom, axis.ns_per_frame), (0, 1));
}

#[test]
fn zoom_spans_agree_with_rounded_decades() {
    let mut axis = AxisState::new();
    for z in 4..=63 {
        axis.calczoom(z - axis.zoom);
        let nspf = (1u64 << z) as f64;
        let expected = 10f64.powi(nspf.log10().round() as i32);
        assert_eq!(axis.ns_per_frame as f64, expected, "zoom {}", z);
    }
}

#[test]
fn zoom_in_then_out_restores() {
    let mut axis = AxisState::new();
    axis.calczoom(7);
    let before = (axis.zoom, axis.ns_per_frame);
    axis.calczoom(-1);
    axis.calczoom(1);
    assert_eq!((axis.zoom, axis.ns_per_frame), before);
}

#[test]
fn init_bounds_sets_range_only() {
    let mut axis = AxisState::default();
    axis.cursor_location = 17;
    axis.init_bounds((100, 900));
    assert_eq!((axis.start_time, axis.end_time, axis.cursor_location), (100, 900, 17));
}

#[test]
fn style_states_are_ordered() {
    assert!(StyleState::Active < StyleState::Disabled);
}

use wave2::components::signals::sigwindow::WaveOptions;
use wave2::components::signals::Message as SignalsMessage;
use wave2::widgets::cell::{CellInput, CellOutput, ClickKind, State as OptionCellState};

#[test]
fn option_cell_clicks_selects_and_chooses() {
    let mut c: OptionCellState<WaveOptions> = OptionCellState::new();
    // a click while not hovered clears the selection
    let out = c.on_event(CellInput::LeftPressed { in_bounds: true, click: ClickKind::Single });
    assert!(matches!(out, CellOutput::Clicked));
    assert!(!c.selected);
    assert!(matches!(c.on_event(CellInput::RightPressed { in_bounds: true }), CellOutput::Ignored));
    c.on_event(CellInput::CursorMoved { in_bounds: true });
    assert!(c.hovered_option);
    let out = c.on_event(CellInput::LeftPressed { in_bounds: true, click: ClickKind::Double });
    assert!(matches!(out, CellOutput::DoubleClicked));
    assert!(c.selected);
    assert!(matches!(c.on_event(CellInput::RightPressed { in_bounds: true }), CellOutput::MenuToggled));
    assert!(c.menu_open);
    c.menu_last_selection = Some(WaveOptions::Delete);
    let out = c.on_event(CellInput::LeftPressed { in_bounds: false, click: ClickKind::Single });
    assert!(matches!(out, CellOutput::Chose(SignalsMessage::RemoveSelected)));
    assert!(!c.menu_open);
    assert!(c.menu_last_selection.is_none());
    c.set_selected(false);
    assert!(matches!(c.on_event(CellInput::Other), CellOutput::Ignored));
}

#[test]
fn ctrl_click_twice_restores_selection() {
    let mut s: ListState<u8> = ListState::new();
    click(&mut s, 2);
    s.on_event(ListEvent::ModifiersChanged { control: true, shift: false }, 10);
    click(&mut s, 6);
    click(&mut s, 6);
    assert_eq!(s.last_selection, vec![2]);
}

#[test]
fn entries_map_messages_and_handlers() {
    let mapped = Entry::Group("view", menu()).map(&|m: u32| m as u64 * 10, &|t: u32| t + 1);
    match mapped {
        Entry::Group("view", es) => {
            assert!(matches!(es[0], Entry::Item("open", Some(10))));
            match &es[1] {
                Entry::Group("view", inner) => {
                    assert!(matches!(inner[0], Entry::Toggle("grid", true, Some(8))));
                    assert!(matches!(inner[1], Entry::Separator));
                    match &inner[2] {
                        Entry::Group("zoom", z) => {
                            assert!(matches!(z[0], Entry::Item("in", Some(20))));
                            assert!(matches!(z[1], Entry::Item("out", None)));
                        }
                        _ => panic!("zoom group lost"),
                    }
                }
                _ => panic!("view group lost"),
            }
        }
        _ => panic!("group lost"),
    }
}
