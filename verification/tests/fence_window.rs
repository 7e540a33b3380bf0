use orbirus::config::{FenceConfig, Real};
use orbirus::fence::{
    click_target, ClickAction, DownAction, FenceState, MoveAction, Press, RollAction, UpAction,
};
use orbirus::geometry::Point;

fn strings(v: &[&str]) -> Vec<String> {
    v.iter().map(|s| s.to_string()).collect()
}

fn window() -> FenceState {
    let mut f = FenceConfig::plain("fence-1".to_string(), "Apps", 0, 0, 300, 200);
    f.color = "#14532D".to_string();
    FenceState::new(&f)
}

fn press(x: i32, y: i32, control: bool) -> Press {
    Press { at: Point { x, y }, control, titlebar: 28, client_right: 300, dpi: 96 }
}

#[test]
fn a_new_window_takes_over_the_fence() {
    let s = window();
    assert_eq!(s.id, "fence-1");
    assert_eq!(s.title, "Apps");
    assert_eq!(s.color, 0x14532D);
    assert_eq!(s.restore_height, 200);
    assert!(s.peek_armed && !s.peeking && !s.rolled_up);
    assert_eq!(s.initial_height(28), 200);
}

#[test]
fn a_bad_color_is_replaced() {
    let mut f = FenceConfig::plain("fence-1".to_string(), "Apps", 0, 0, 300, 200);
    f.color = "red".to_string();
    assert_eq!(FenceState::new(&f).color, 0x1E1E2E);
}

#[test]
fn a_press_on_the_title_bar_moves_the_window() {
    let mut s = window();
    s.displace(40, "fence-2");
    assert_eq!(s.left_button_down(press(290, 5, false), None, &vec![]), DownAction::BeginMove);
    assert!(s.displaced.is_none());
}

#[test]
fn the_chevron_of_a_rolled_up_fence_toggles_it() {
    let mut s = window();
    assert_eq!(s.chevron(), None);
    s.toggle_rollup(200, 28);
    assert_eq!(s.chevron(), Some('\u{25B8}'));
    assert_eq!(s.left_button_down(press(273, 5, false), None, &vec![]), DownAction::BeginMove);
    assert_eq!(s.left_button_down(press(274, 5, false), None, &vec![]), DownAction::ToggleRollup);
}

#[test]
fn control_click_toggles_membership() {
    let items = strings(&["a", "b"]);
    let mut s = window();
    assert_eq!(s.left_button_down(press(50, 50, true), Some(0), &items), DownAction::Repaint);
    assert_eq!(s.left_button_down(press(50, 50, true), Some(1), &items), DownAction::Repaint);
    assert_eq!(s.selected, items);
    assert_eq!(s.left_button_down(press(50, 50, true), Some(0), &items), DownAction::Repaint);
    assert_eq!(s.selected, strings(&["b"]));
    assert!(s.drag.is_none());
}

#[test]
fn a_press_on_an_unselected_icon_selects_it_alone() {
    let items = strings(&["a", "b"]);
    let mut s = window();
    s.selected = strings(&["b"]);
    let r = s.left_button_down(press(50, 50, false), Some(0), &items);
    assert_eq!(r, DownAction::BeginDrag { repaint: true });
    assert_eq!(s.selected, strings(&["a"]));
    assert_eq!(s.drag.as_ref().map(|d| d.paths.clone()), Some(strings(&["a"])));
}

#[test]
fn a_drag_of_a_selected_icon_carries_the_selection() {
    let items = strings(&["a", "b", "c"]);
    let mut s = window();
    s.selected = strings(&["c", "a"]);
    let r = s.left_button_down(press(50, 50, false), Some(0), &items);
    assert_eq!(r, DownAction::BeginDrag { repaint: false });
    let m = s.mouse_move(Point { x: 54, y: 50 }, 4, 4);
    assert!(!m.dragging && !m.load_ghost);
    let m = s.mouse_move(Point { x: 50, y: 45 }, 4, 4);
    assert!(m.dragging && m.load_ghost);
    let m = s.mouse_move(Point { x: 50, y: 50 }, 4, 4);
    assert!(m.dragging && !m.load_ghost);
    match s.left_button_up() {
        UpAction::Drop { paths } => assert_eq!(paths, strings(&["c", "a"])),
        other => panic!("{other:?}"),
    }
    assert!(s.drag.is_none());
    assert!(matches!(s.left_button_up(), UpAction::Nothing));
}

#[test]
fn a_click_is_no_drag() {
    let items = strings(&["a"]);
    let mut s = window();
    s.left_button_down(press(50, 50, false), Some(0), &items);
    s.mouse_move(Point { x: 51, y: 51 }, 4, 4);
    assert!(matches!(s.left_button_up(), UpAction::EndPress));
}

#[test]
fn a_press_beyond_the_items_does_nothing() {
    let mut s = window();
    let r = s.left_button_down(press(50, 50, false), Some(3), &strings(&["a"]));
    assert_eq!(r, DownAction::Nothing);
}

#[test]
fn a_rubber_band_selects_what_it_touches() {
    let items = strings(&["a", "b", "c"]);
    let mut s = window();
    s.selected = strings(&["b"]);
    let r = s.left_button_down(press(50, 50, false), None, &items);
    assert_eq!(r, DownAction::BeginBand { clear_all: true });
    assert!(s.selected.is_empty());
    let m = s.mouse_move(Point { x: 90, y: 95 }, 4, 4);
    let only_band =
        MoveAction { band: true, load_ghost: false, dragging: false, peek: None, track: false };
    assert_eq!(m, only_band);
    assert_eq!(s.band.map(|b| (b.start, b.current)), Some((Point { x: 50, y: 50 }, Point { x: 90, y: 95 })));
    s.select_touched(&items, &vec![true, false, true]);
    assert_eq!(s.selected, strings(&["a", "c"]));
    assert_eq!(s.selected_indices(&items), vec![0, 2]);
    assert!(matches!(s.left_button_up(), UpAction::EndBand));
    assert!(s.band.is_none());
}

#[test]
fn a_rubber_band_with_control_keeps_the_selection() {
    let mut s = window();
    s.selected = strings(&["b"]);
    let r = s.left_button_down(press(50, 50, true), None, &vec![]);
    assert_eq!(r, DownAction::BeginBand { clear_all: false });
    assert_eq!(s.selected, strings(&["b"]));
    let c = s.capture_changed();
    assert!(c.repaint && !c.end_drag);
    assert!(s.band.is_none());
}

#[test]
fn losing_the_capture_ends_a_drag() {
    let mut s = window();
    s.left_button_down(press(50, 50, false), Some(0), &strings(&["a"]));
    let c = s.capture_changed();
    assert!(c.end_drag && !c.repaint);
    assert!(s.drag.is_none());
}

#[test]
fn rolling_up_and_opening_keeps_the_height() {
    let mut s = window();
    assert_eq!(s.toggle_rollup(240, 28), RollAction::RollUp { height: 28 });
    assert!(s.rolled_up);
    assert_eq!(s.initial_height(28), 28);
    assert_eq!(s.toggle_rollup(28, 28), RollAction::Open { height: 240 });
    assert!(!s.rolled_up);
}

#[test]
fn a_rolled_up_fence_peeks_once_the_mouse_has_left() {
    let at = Point { x: 5, y: 5 };
    let mut s = window();
    s.toggle_rollup(200, 28);
    let m = s.mouse_move(at, 4, 4);
    assert_eq!((m.peek, m.track), (None, true));
    let l = s.mouse_leave();
    assert!(!l.collapse && !l.unhover);
    let m = s.mouse_move(at, 4, 4);
    assert_eq!((m.peek, m.track), (Some(200), true));
    assert!(s.peeking && s.can_scroll());
    assert_eq!(s.chevron(), Some('\u{25BE}'));
    let m = s.mouse_move(at, 4, 4);
    assert_eq!((m.peek, m.track), (None, false));
    let l = s.mouse_leave();
    assert!(l.collapse);
    assert!(!s.peeking && s.rolled_up && !s.can_scroll());
}

#[test]
fn hovering() {
    let mut s = window();
    assert!(s.update_hover(Some(2)));
    assert!(!s.update_hover(Some(2)));
    assert_eq!(s.hover, Some(2));
    assert!(s.update_hover(None));
    assert!(s.update_hover(Some(1)));
    assert!(s.mouse_leave().unhover);
    assert_eq!(s.hover, None);
    s.toggle_rollup(200, 28);
    assert!(!s.update_hover(Some(1)));
    assert_eq!(s.hover, None);
}

#[test]
fn the_scrollbar_shows_for_a_while() {
    let mut s = window();
    assert!(!s.scrollbar_timeout());
    s.scrolled();
    assert!(s.scrollbar_visible);
    assert!(s.scrollbar_timeout());
    assert!(!s.scrollbar_visible);
}

#[test]
fn clearing_the_selection() {
    let mut s = window();
    assert!(!s.clear_selection());
    s.selected = strings(&["a"]);
    assert!(s.clear_selection());
    assert!(s.selected.is_empty());
}

#[test]
fn a_pushed_fence_returns_for_the_fence_that_pushed_it() {
    let mut s = window();
    s.displace(40, "fence-2");
    assert_eq!(s.restore_displaced_by("fence-3"), None);
    assert_eq!(s.restore_displaced_by("fence-2"), Some(40));
    assert_eq!(s.restore_displaced_by("fence-2"), None);
}

#[test]
fn clicks_find_the_title_bar_and_the_items() {
    let items = strings(&["a", "b"]);
    assert!(matches!(click_target(27, 28, Some(0), &items), ClickAction::TitleBar));
    match click_target(28, 28, Some(1), &items) {
        ClickAction::Item { path } => assert_eq!(path, "b"),
        other => panic!("{other:?}"),
    }
    assert!(matches!(click_target(60, 28, Some(2), &items), ClickAction::Nothing));
    assert!(matches!(click_target(60, 28, None, &items), ClickAction::Nothing));
}

#[test]
fn a_window_takes_over_a_new_look() {
    let mut s = window();
    s.set_title("Work");
    s.set_color(0x111111);
    s.set_opacity(Real { bits: 0.9f32.to_bits() });
    s.set_radius(Real { bits: 6f32.to_bits() });
    assert_eq!((s.title.as_str(), s.color), ("Work", 0x111111));
    assert_eq!(f32::from_bits(s.opacity.bits), 0.9);
    assert_eq!(f32::from_bits(s.corner_radius.bits), 6.0);
}
