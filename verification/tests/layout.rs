use orbirus::config::{all_items, Config, FenceConfig, Real};
use orbirus::fence::FenceState;
use orbirus::geometry::Rect;
use orbirus::layout::{
    commit_rename, complete_drop, delete_fence, drop_indicator, fence_items, fences_without_window,
    has_successor, indicator_for, set_all_color, set_all_opacity, set_all_radius, set_drop_target,
    set_icon_size, sort_fence_by_color, sync_to_config, Deletion, DropIndicator, DropTarget,
};

fn strings(v: &[&str]) -> Vec<String> {
    v.iter().map(|s| s.to_string()).collect()
}

fn fence(id: &str, title: &str, items: &[&str]) -> FenceConfig {
    let mut f = FenceConfig::plain(id.to_string(), title, 10, 20, 300, 200);
    f.items = strings(items);
    f
}

fn layout(fences: Vec<FenceConfig>) -> Config {
    Config { version: 2, icon_size: 48, fences }
}

#[test]
fn drop_within_a_fence_moves_the_selection_together() {
    let mut cfg = layout(vec![fence("fence-1", "A", &["a", "b", "c", "d", "e"])]);
    assert!(complete_drop(&mut cfg, "fence-1", "fence-1", &strings(&["d", "a"]), Some(2)));
    assert_eq!(cfg.fences[0].items, strings(&["b", "a", "d", "c", "e"]));
}

#[test]
fn drop_within_a_fence_behind_the_last_item() {
    let mut cfg = layout(vec![fence("fence-1", "A", &["a", "b", "c"])]);
    assert!(complete_drop(&mut cfg, "fence-1", "fence-1", &strings(&["a"]), Some(99)));
    assert_eq!(cfg.fences[0].items, strings(&["b", "c", "a"]));
}

#[test]
fn drop_within_a_fence_outside_of_the_grid_does_nothing() {
    let mut cfg = layout(vec![fence("fence-1", "A", &["a", "b"])]);
    assert!(!complete_drop(&mut cfg, "fence-1", "fence-1", &strings(&["a"]), None));
    assert_eq!(cfg.fences[0].items, strings(&["a", "b"]));
}

#[test]
fn drop_on_another_fence_inserts_at_the_cell() {
    let mut cfg = layout(vec![
        fence("fence-1", "A", &["a", "b", "c"]),
        fence("fence-2", "B", &["x", "y"]),
    ]);
    assert!(complete_drop(&mut cfg, "fence-1", "fence-2", &strings(&["c", "a"]), Some(1)));
    assert_eq!(cfg.fences[0].items, strings(&["b"]));
    assert_eq!(cfg.fences[1].items, strings(&["x", "a", "c", "y"]));
    assert_eq!(all_items(&cfg).len(), 5);
}

#[test]
fn drop_on_another_fence_appends_elsewhere() {
    let mut cfg = layout(vec![fence("fence-1", "A", &["a"]), fence("fence-2", "B", &["x"])]);
    assert!(complete_drop(&mut cfg, "fence-1", "fence-2", &strings(&["a"]), None));
    assert_eq!(cfg.fences[1].items, strings(&["x", "a"]));
    assert!(complete_drop(&mut cfg, "fence-2", "fence-1", &strings(&["x"]), Some(0)));
    assert_eq!(cfg.fences[0].items, strings(&["x"]));
}

#[test]
fn drop_of_nothing_or_from_nowhere_does_nothing() {
    let mut cfg = layout(vec![fence("fence-1", "A", &["a"]), fence("fence-2", "B", &[])]);
    assert!(!complete_drop(&mut cfg, "fence-1", "fence-2", &strings(&["z"]), None));
    assert!(!complete_drop(&mut cfg, "fence-9", "fence-2", &strings(&["a"]), None));
    assert_eq!(cfg.fences[0].items, strings(&["a"]));
}

#[test]
fn drop_on_a_fence_that_is_gone_does_nothing() {
    let mut cfg = layout(vec![fence("fence-1", "A", &["a", "b"])]);
    assert!(!complete_drop(&mut cfg, "fence-1", "fence-9", &strings(&["a"]), None));
    assert!(!complete_drop(&mut cfg, "fence-1", "fence-9", &strings(&["a"]), Some(0)));
    assert_eq!(cfg.fences[0].items, strings(&["a", "b"]));
}

#[test]
fn deleting_a_fence_gives_its_items_to_unsorted() {
    let mut cfg = layout(vec![
        fence("fence-1", "Apps", &["a", "b"]),
        fence("fence-2", "Unsorted", &["u"]),
    ]);
    assert!(has_successor(&cfg, "fence-1"));
    match delete_fence(&mut cfg, "fence-1") {
        Deletion::MovedTo { id } => assert_eq!(id, "fence-2"),
        other => panic!("{other:?}"),
    }
    assert_eq!(cfg.fences.len(), 1);
    assert_eq!(cfg.fences[0].items, strings(&["u", "a", "b"]));
}

#[test]
fn deleting_a_fence_makes_unsorted_if_there_is_none() {
    let mut cfg = layout(vec![fence("fence-1", "Apps", &["a"]), fence("fence-4", "B", &[])]);
    match delete_fence(&mut cfg, "fence-1") {
        Deletion::MovedTo { id } => assert_eq!(id, "fence-5"),
        other => panic!("{other:?}"),
    }
    assert_eq!(cfg.fences[1].title, "Unsorted");
    assert_eq!(cfg.fences[1].items, strings(&["a"]));
    assert_eq!((cfg.fences[1].x, cfg.fences[1].y), (100, 80));
    assert_eq!((cfg.fences[1].w, cfg.fences[1].h), (420, 300));
}

#[test]
fn deleting_an_empty_fence_removes_it() {
    let mut cfg = layout(vec![fence("fence-1", "Unsorted", &[])]);
    assert!(matches!(delete_fence(&mut cfg, "fence-1"), Deletion::Removed));
    assert!(cfg.fences.is_empty());
}

#[test]
fn unsorted_with_items_and_unknown_fences_are_not_deleted() {
    let mut cfg = layout(vec![fence("fence-1", "Unsorted", &["a"])]);
    assert!(matches!(delete_fence(&mut cfg, "fence-1"), Deletion::Refused));
    assert!(matches!(delete_fence(&mut cfg, "fence-7"), Deletion::Refused));
    assert_eq!(cfg.fences.len(), 1);
}

#[test]
fn no_successor_without_a_free_number() {
    let cfg = layout(vec![
        fence("fence-1", "Apps", &["a"]),
        fence("fence-4294967295", "B", &["b"]),
    ]);
    assert!(!has_successor(&cfg, "fence-1"));
    assert!(has_successor(&cfg, "fence-4294967295"));
    assert!(has_successor(&cfg, "fence-9"));
}

#[test]
fn the_layout_follows_a_window() {
    let mut cfg = layout(vec![fence("fence-1", "A", &[])]);
    let state = FenceState::new(&cfg.fences[0]);
    let rc = Rect { left: 5, top: 6, right: 405, bottom: 306 };
    assert!(sync_to_config(&mut cfg, &state, rc, 1));
    let f = &cfg.fences[0];
    assert_eq!((f.x, f.y, f.w, f.h, f.monitor, f.rolled_up), (5, 6, 400, 300, 1, false));
    assert!(!sync_to_config(&mut cfg, &state, rc, 1));
}

#[test]
fn a_rolled_up_window_keeps_its_height_in_the_layout() {
    let mut cfg = layout(vec![fence("fence-1", "A", &[])]);
    let mut state = FenceState::new(&cfg.fences[0]);
    state.toggle_rollup(200, 28);
    let rc = Rect { left: 10, top: 20, right: 310, bottom: 48 };
    assert!(sync_to_config(&mut cfg, &state, rc, 0));
    assert_eq!(cfg.fences[0].h, 200);
    assert!(cfg.fences[0].rolled_up);
}

#[test]
fn a_pushed_window_is_not_followed() {
    let mut cfg = layout(vec![fence("fence-1", "A", &[])]);
    let mut state = FenceState::new(&cfg.fences[0]);
    state.displace(20, "fence-2");
    let rc = Rect { left: 10, top: 500, right: 310, bottom: 700 };
    assert!(!sync_to_config(&mut cfg, &state, rc, 0));
    assert_eq!(cfg.fences[0].y, 20);
}

#[test]
fn renaming_trims_and_ignores_white_space() {
    let mut cfg = layout(vec![fence("fence-1", "A", &[])]);
    assert_eq!(commit_rename(&mut cfg, "fence-1", "  Work \t"), Some("Work".to_string()));
    assert_eq!(cfg.fences[0].title, "Work");
    assert_eq!(commit_rename(&mut cfg, "fence-1", " \u{3000}\n"), None);
    assert_eq!(cfg.fences[0].title, "Work");
    assert_eq!(commit_rename(&mut cfg, "fence-3", "X"), Some("X".to_string()));
    assert_eq!(cfg.fences[0].title, "Work");
}

#[test]
fn items_of_a_fence() {
    let cfg = layout(vec![fence("fence-1", "A", &["a", "b"])]);
    assert_eq!(fence_items(&cfg, "fence-1"), strings(&["a", "b"]));
    assert!(fence_items(&cfg, "fence-2").is_empty());
}

#[test]
fn appearance_applies_to_every_fence() {
    let mut cfg = layout(vec![fence("fence-1", "A", &["a"]), fence("fence-2", "B", &[])]);
    set_all_color(&mut cfg, 0x0C4A6E);
    set_all_opacity(&mut cfg, Real { bits: 0.5f32.to_bits() });
    set_all_radius(&mut cfg, Real { bits: 20f32.to_bits() });
    set_icon_size(&mut cfg, 64);
    for f in &cfg.fences {
        assert_eq!(f.color, "#0C4A6E");
        assert_eq!(f32::from_bits(f.opacity.bits), 0.5);
        assert_eq!(f32::from_bits(f.corner_radius.bits), 20.0);
    }
    assert_eq!(cfg.icon_size, 64);
    assert_eq!(cfg.fences[0].items, strings(&["a"]));
}

#[test]
fn sorting_by_color_is_stable() {
    let mut cfg = layout(vec![fence("fence-1", "A", &["a", "b", "c", "d"])]);
    sort_fence_by_color(&mut cfg, "fence-1", &vec![7, 3, 7, 1]);
    assert_eq!(cfg.fences[0].items, strings(&["d", "b", "a", "c"]));
    sort_fence_by_color(&mut cfg, "fence-9", &vec![]);
    assert_eq!(cfg.fences[0].items, strings(&["d", "b", "a", "c"]));
}

#[test]
fn fences_that_need_a_window() {
    let cfg = layout(vec![fence("fence-1", "A", &[]), fence("fence-2", "B", &["b"])]);
    let missing = fences_without_window(&cfg, &strings(&["fence-1"]));
    assert_eq!(missing.len(), 1);
    assert_eq!(missing[0].id, "fence-2");
    assert_eq!(missing[0].items, strings(&["b"]));
}

#[test]
fn drop_indicators() {
    assert_eq!(drop_indicator(false, Some(1), 5), DropIndicator::Ring);
    assert_eq!(drop_indicator(true, Some(1), 5), DropIndicator::Caret { index: 1 });
    assert_eq!(drop_indicator(true, Some(9), 5), DropIndicator::Caret { index: 5 });
    assert_eq!(drop_indicator(true, None, 5), DropIndicator::Caret { index: 5 });
    let t = Some(DropTarget { window: 7, indicator: DropIndicator::Ring });
    assert_eq!(indicator_for(t, 7), DropIndicator::Ring);
    assert_eq!(indicator_for(t, 8), DropIndicator::Nothing);
    assert_eq!(indicator_for(None, 7), DropIndicator::Nothing);
}

#[test]
fn drop_target_changes_repaint_both_windows() {
    let a = Some(DropTarget { window: 1, indicator: DropIndicator::Ring });
    let b = Some(DropTarget { window: 2, indicator: DropIndicator::Caret { index: 0 } });
    let mut target = None;
    assert_eq!(set_drop_target(&mut target, a), (None, Some(1)));
    assert_eq!(set_drop_target(&mut target, a), (None, None));
    assert_eq!(set_drop_target(&mut target, b), (Some(1), Some(2)));
    assert_eq!(target, b);
    assert_eq!(set_drop_target(&mut target, None), (Some(2), None));
    assert_eq!(set_drop_target(&mut target, None), (None, None));
}
