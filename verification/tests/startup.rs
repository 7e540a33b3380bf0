use std::path::PathBuf;

use orbirus::config::{
    all_items, bad_path, bring_up, ensure_unsorted, fence_index, layout_file, layout_text,
    load_result, next_id_for, number_is_free, own_path, own_path_below, path, snapshots_dir,
    temporary_path, unsorted_index, Config, FenceConfig, LayoutFile, LoadResult,
};
use orbirus::geometry::Rect;
use orbirus::rules::RuleKind;
use orbirus::snapshots::{label_for_name, list_snapshots, snapshot_label, snapshot_name, LocalTime};
use orbirus::startup::{
    asks_for_new_fence, autostart_value, create_new_fence, first_run_config, has_room_for_starters,
    is_outside_click, is_shell_menu_message, launch_failed, open_rect, placeholders,
    rescue_offscreen, saves_at_start, second_launch, shell_new_entries, shell_verb, start_config,
    SecondLaunch,
};

fn strings(v: &[&str]) -> Vec<String> {
    v.iter().map(|s| s.to_string()).collect()
}

fn fence(id: &str, title: &str, items: &[&str]) -> FenceConfig {
    let mut f = FenceConfig::plain(id.to_string(), title, 10, 20, 300, 200);
    f.items = strings(items);
    f
}

fn layout(fences: Vec<FenceConfig>) -> Config {
    Config { version: 2, icon_size: 48, fences }
}

fn screen(right: i32) -> Rect {
    Rect { left: 0, top: 0, right, bottom: 1080 }
}

#[test]
fn the_default_layout() {
    let c = Config::default();
    assert_eq!((c.version, c.icon_size), (2, 48));
    assert_eq!(c.fences.len(), 1);
    let f = &c.fences[0];
    assert_eq!((f.id.as_str(), f.title.as_str()), ("fence-1", "Unsorted"));
    assert_eq!((f.x, f.y, f.w, f.h), (100, 80, 420, 300));
    assert_eq!(f.color, "#1E1E2E");
    assert_eq!(f32::from_bits(f.opacity.bits), 0.78);
    assert_eq!(f32::from_bits(f.corner_radius.bits), 12.0);
}

#[test]
fn ids_are_numbered() {
    let mut cfg = layout(vec![
        fence("fence-2", "A", &[]),
        fence("fence-x", "B", &[]),
        fence("other-9", "C", &[]),
        fence("fence-+7", "D", &[]),
    ]);
    assert_eq!(next_id_for(&cfg), "fence-8");
    assert_eq!(unsorted_index(&cfg), None);
    assert_eq!(ensure_unsorted(&mut cfg), 4);
    assert_eq!(cfg.fences[4].id, "fence-8");
    assert_eq!(ensure_unsorted(&mut cfg), 4);
    assert_eq!(cfg.fences.len(), 5);
    assert_eq!(fence_index(&cfg, "fence-x"), Some(1));
    assert_eq!(fence_index(&cfg, "fence-3"), None);
    assert_eq!(next_id_for(&layout(vec![])), "fence-1");
    assert!(number_is_free(&cfg));
    assert!(!number_is_free(&layout(vec![fence("fence-4294967295", "A", &[])])));
}

#[test]
fn a_layout_is_brought_up_to_date() {
    let mut cfg = layout(vec![fence("fence-1", "A", &["a", "b"]), fence("fence-2", "B", &["c"])]);
    cfg.version = 1;
    assert_eq!(all_items(&cfg), strings(&["a", "b", "c"]));
    bring_up(&mut cfg, &strings(&["b", "c"]));
    assert_eq!(cfg.version, 2);
    assert_eq!(cfg.fences[0].items, strings(&["b"]));
    assert_eq!(cfg.fences[1].items, strings(&["c"]));
}

#[test]
fn loading() {
    assert_eq!(layout_text("\u{feff}\u{feff}{}"), "{}");
    assert_eq!(layout_text("{\u{feff}}"), "{\u{feff}}");
    assert!(matches!(load_result(&LayoutFile::Absent, None, &vec![]), LoadResult::Missing));
    assert!(matches!(load_result(&LayoutFile::NoText, None, &vec![]), LoadResult::Corrupt));
    let text = LayoutFile::Text("{".to_string());
    assert!(matches!(load_result(&text, None, &vec![]), LoadResult::Corrupt));
    let mut old = layout(vec![fence("fence-1", "A", &["a"])]);
    old.version = 1;
    match load_result(&LayoutFile::Text("{}".to_string()), Some(old), &vec![]) {
        LoadResult::Loaded(c) => {
            assert_eq!(c.version, 2);
            assert!(c.fences[0].items.is_empty());
        }
        other => panic!("{other:?}"),
    }
}

#[test]
fn a_layout_file_is_text_or_set_aside() {
    match layout_file(vec![0xEF, 0xBB, 0xBF, b'{', 0xC3, 0xA4, b'}']) {
        LayoutFile::Text(t) => assert_eq!(t, "{\u{e4}}"),
        other => panic!("{other:?}"),
    }
    assert!(matches!(layout_file(vec![]), LayoutFile::Text(t) if t.is_empty()));
    for bytes in [vec![0xFF, 0xFE, b'{', 0], vec![0xC3], vec![0xED, 0xA0, 0x80], vec![0xC0, 0x80]] {
        let file = layout_file(bytes);
        assert!(matches!(file, LayoutFile::NoText));
        assert!(matches!(load_result(&file, None, &vec![]), LoadResult::Corrupt));
    }
}

#[test]
fn the_layout_to_start_with() {
    let (c, first) = start_config(LoadResult::Missing, screen(1920));
    assert!(first);
    assert_eq!(c.fences.len(), 5);
    let (c, first) = start_config(LoadResult::Corrupt, screen(1920));
    assert!(!first);
    assert_eq!(c.fences.len(), 1);
    let (c, first) =
        start_config(LoadResult::Loaded(layout(vec![fence("fence-7", "X", &[])])), screen(1920));
    assert!(!first);
    assert_eq!(c.fences[0].id, "fence-7");
    assert!(saves_at_start(true, false, false));
    assert!(saves_at_start(false, false, true));
    assert!(!saves_at_start(false, false, false));
}

#[test]
fn the_first_fences() {
    assert!(has_room_for_starters(screen(1920)));
    let c = first_run_config(screen(1920));
    let titles: Vec<&str> = c.fences.iter().map(|f| f.title.as_str()).collect();
    assert_eq!(titles, vec!["Apps", "Documents", "Pictures", "Folders", "Unsorted"]);
    let ids: Vec<&str> = c.fences.iter().map(|f| f.id.as_str()).collect();
    assert_eq!(ids, vec!["fence-1", "fence-2", "fence-3", "fence-4", "fence-5"]);
    let spots: Vec<(i32, i32)> = c.fences.iter().map(|f| (f.x, f.y)).collect();
    assert_eq!(spots, vec![(24, 24), (468, 24), (912, 24), (1356, 24), (24, 348)]);
    assert_eq!(c.fences[2].rules.len(), 1);
    assert_eq!(c.fences[2].rules[0].kind, RuleKind::Category);
    assert_eq!(c.fences[2].rules[0].value, "pictures");
    assert!(c.fences[4].rules.is_empty());
    let narrow = first_run_config(screen(300));
    let spots: Vec<(i32, i32)> = narrow.fences.iter().map(|f| (f.x, f.y)).collect();
    assert_eq!(spots, vec![(24, 348), (24, 672), (24, 996), (24, 1320), (24, 1644)]);
    let far = Rect { left: 0x7FFF_FF00, top: 0, right: 0x7FFF_FFFF, bottom: 100 };
    assert!(has_room_for_starters(far));
    let beyond = Rect { left: 0x7FFF_FFF0, top: 0, right: 0x7FFF_FFFF, bottom: 100 };
    assert!(!has_room_for_starters(beyond));
}

#[test]
fn fences_off_screen_are_pulled_back() {
    let mut cfg =
        layout(vec![fence("fence-1", "A", &[]), fence("fence-2", "B", &[]), fence("fence-3", "C", &[])]);
    assert!(rescue_offscreen(&mut cfg, &vec![true, false, true]));
    assert_eq!((cfg.fences[0].x, cfg.fences[0].y), (100, 80));
    assert_eq!((cfg.fences[1].x, cfg.fences[1].y), (10, 20));
    assert_eq!((cfg.fences[2].x, cfg.fences[2].y), (180, 160));
    assert!(!rescue_offscreen(&mut cfg, &vec![false, false, false]));
    let rc = open_rect(&cfg.fences[1]);
    assert_eq!(rc, Rect { left: 10, top: 20, right: 310, bottom: 220 });
}

#[test]
fn a_new_fence_is_centered() {
    let mut cfg = layout(vec![fence("fence-3", "A", &[])]);
    let i = create_new_fence(&mut cfg, screen(1920));
    assert_eq!(i, 1);
    let f = &cfg.fences[1];
    assert_eq!((f.id.as_str(), f.title.as_str()), ("fence-4", "New Fence"));
    assert_eq!((f.x, f.y, f.w, f.h), (810, 440, 300, 200));
    assert!(f.rules.is_empty() && f.items.is_empty());
}

#[test]
fn arguments() {
    let args = strings(&["orbirus.exe", "/ShellNew", "C:\\x\\New.OrbirusFence", "other.txt"]);
    assert!(asks_for_new_fence(&args));
    assert_eq!(placeholders(&args), strings(&["C:\\x\\New.OrbirusFence"]));
    let args = strings(&["orbirus.exe", "C:\\x\\New.orbirusfence"]);
    assert!(!asks_for_new_fence(&args));
    assert!(placeholders(&args).is_empty());
    assert_eq!(second_launch(true), SecondLaunch::ForwardNewFence);
    assert_eq!(second_launch(false), SecondLaunch::FocusRunning);
}

#[test]
fn what_is_registered() {
    let entries = shell_new_entries("C:\\o.exe");
    let got: Vec<(&str, Option<&str>, &str)> =
        entries.iter().map(|e| (e.key.as_str(), e.value.as_deref(), e.data.as_str())).collect();
    assert_eq!(
        got,
        vec![
            ("Software\\Classes\\.orbirusfence", None, "Orbirus.Fence"),
            ("Software\\Classes\\Orbirus.Fence", None, "Orbirus Fence"),
            ("Software\\Classes\\Orbirus.Fence\\DefaultIcon", None, "\"C:\\o.exe\",0"),
            (
                "Software\\Classes\\.orbirusfence\\ShellNew",
                Some("Command"),
                "\"C:\\o.exe\" /shellnew \"%1\""
            ),
        ]
    );
    assert_eq!(autostart_value(&vec![0x43, 0x3A]), vec![0x22, 0x43, 0x3A, 0x22, 0]);
}

#[test]
fn small_decisions_about_the_system() {
    assert!(is_outside_click(0, 0x0201, "Progman"));
    assert!(!is_outside_click(0, 0x0201, "OrbirusFence"));
    assert!(!is_outside_click(0, 0x0202, "Progman"));
    assert!(!is_outside_click(-1, 0x0201, "Progman"));
    assert!(launch_failed(32) && launch_failed(2) && !launch_failed(33));
    assert!(is_shell_menu_message(0x0117));
    assert!(is_shell_menu_message(0x002B) && is_shell_menu_message(0x002C));
    assert!(!is_shell_menu_message(0x0111));
    assert_eq!(shell_verb(0), None);
    assert_eq!(shell_verb(1), Some(0));
    assert_eq!(shell_verb(-4), None);
}

#[test]
fn the_files_of_the_program() {
    let dir = PathBuf::from("C:\\Users\\me\\AppData\\Roaming");
    let place = own_path(dir.clone(), "config.json");
    assert_eq!(place.dir, dir);
    assert_eq!(place.names, strings(&["orbirus", "config.json"]));
    assert!(own_path_below(None, "config.json").is_none());
    let place = own_path_below(Some(dir.clone()), "snapshots").unwrap();
    assert_eq!(place.dir, dir);
    assert_eq!(place.names, strings(&["orbirus", "snapshots"]));
    let places = [
        (path(), "config.json"),
        (bad_path(), "config.json.bad"),
        (temporary_path(), "config.json.tmp"),
        (snapshots_dir(), "snapshots"),
    ];
    for (place, name) in places {
        match (place, dirs::config_dir()) {
            (Some(p), Some(dir)) => {
                assert_eq!(p.dir, dir);
                assert_eq!(p.names, strings(&["orbirus", name]));
            }
            (None, None) => {}
            other => panic!("{other:?}"),
        }
    }
}

#[test]
fn snapshots_are_named_and_labeled() {
    let t = LocalTime { year: 2026, month: 7, day: 2, hour: 15, minute: 30, second: 45 };
    assert_eq!(snapshot_name(t), "layout-20260702-153045.json");
    assert_eq!(snapshot_label("/s/layout-20260702-153045.json"), "2026-07-02 15:30:45");
    assert_eq!(label_for_name(&Some("layout-20260702-153045.json".into())), "2026-07-02 15:30:45");
    assert_eq!(label_for_name(&Some("mine.json".into())), "mine");
    assert_eq!(label_for_name(&None), "?");
    assert_eq!(snapshot_label("/"), "?");
}

#[test]
fn the_latest_snapshots_are_offered() {
    let mut names: Vec<String> = (1..=12).map(|d| format!("layout-202607{d:02}-000000.json")).collect();
    names.push("notes.txt".to_string());
    names.push("layout-20260713-000000.JSON".to_string());
    names.push("aaa.json".to_string());
    let got = list_snapshots(&names);
    assert_eq!(got.len(), 10);
    assert_eq!(got[0], "layout-20260712-000000.json");
    assert_eq!(got[9], "layout-20260703-000000.json");
    assert_eq!(list_snapshots(&strings(&["b.json", "a.json", "c"])), strings(&["b.json", "a.json"]));
    assert!(list_snapshots(&vec![]).is_empty());
}
