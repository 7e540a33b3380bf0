use orbirus::color::{
    color_from_hex, current_menu_color, current_settings_color, format_color, parse_color, Rgb,
};
use orbirus::config::{Config, FenceConfig, Real, DEFAULT_OPACITY_BITS, DEFAULT_RADIUS_BITS};
use orbirus::dialog::{
    rename_dialog, rules_dialog, rules_dialog_size, settings_dialog, settings_dialog_size,
    ControlKind, DialogSize, Place,
};
use orbirus::menu::{
    color_presets, decode_fence_command, decode_rename_command, decode_settings_command,
    decode_timer, decode_tray_command, fence_look, fence_menu, icon_size_presets, opacity_presets,
    place_of_value, preset_value, radius_presets, settings_look, settings_rows, tray_menu, Entry,
    FenceCommand, Look, MenuItem, RenameCommand, SettingsCommand, TimerEvent, TrayCommand,
};
use orbirus::rules::{Rule, RuleKind};
use orbirus::rules_ui::{
    add_rule, decode_rules_command, label_for_rule, labels, remove_selected, rule_from_ui,
    rule_labels, takes_text, Addition, RulesCommand,
};

fn strings(v: &[&str]) -> Vec<String> {
    v.iter().map(|s| s.to_string()).collect()
}

fn fence(id: &str, title: &str, items: &[&str]) -> FenceConfig {
    let mut f = FenceConfig::plain(id.to_string(), title, 10, 20, 300, 200);
    f.items = strings(items);
    f
}

fn layout(fences: Vec<FenceConfig>) -> Config {
    Config { version: 2, icon_size: 48, fences }
}

fn entries_of<'a>(menu: &'a [MenuItem], name: &str) -> &'a Vec<Entry> {
    for m in menu {
        if let MenuItem::Submenu { label, entries } = m {
            if label == name {
                return entries;
            }
        }
    }
    panic!("no submenu {name}");
}

fn entry_of<'a>(menu: &'a [MenuItem], name: &str) -> &'a Entry {
    for m in menu {
        if let MenuItem::Command { entry } = m {
            if entry.label == name {
                return entry;
            }
        }
    }
    panic!("no entry {name}");
}

#[test]
fn colors_are_parsed_and_written() {
    assert_eq!(parse_color("#0C4A6E"), 0x0C4A6E);
    assert_eq!(parse_color("#0c4a6e"), 0x0C4A6E);
    for bad in ["", "0C4A6E", "#0C4A6", "#0C4A6EF", "#GGGGGG", "#+12345", "#é12345"] {
        assert_eq!(parse_color(bad), 0x1E1E2E);
    }
    assert_eq!(format_color(0x00ABCD), "#00ABCD");
    assert_eq!(parse_color(&format_color(0x7F1D1D)), 0x7F1D1D);
    assert_eq!(color_from_hex(0x0C4A6E), Rgb { r: 0x0C, g: 0x4A, b: 0x6E });
    assert_eq!(color_from_hex(0x7F00FF), Rgb { r: 0x7F, g: 0, b: 0xFF });
}

#[test]
fn the_current_color_of_menu_and_settings() {
    assert_eq!(current_menu_color("#FF"), 0xFF);
    assert_eq!(current_menu_color("FF"), 0x1E1E2E);
    assert_eq!(current_menu_color("##FF"), 0x1E1E2E);
    assert_eq!(current_settings_color("##FF"), 0xFF);
    assert_eq!(current_settings_color("FF"), 0xFF);
    assert_eq!(current_settings_color("nope"), 0x1E1E2E);
    assert_eq!(current_menu_color(&format_color(0x581C87)), 0x581C87);
    assert_eq!(current_settings_color(&format_color(0x581C87)), 0x581C87);
}

#[test]
fn presets() {
    let names: Vec<String> = color_presets().into_iter().map(|p| p.name).collect();
    assert_eq!(
        names,
        strings(&["Midnight", "Charcoal", "Slate", "Ocean", "Forest", "Plum", "Wine", "Amber"])
    );
    let values: Vec<u32> = opacity_presets().iter().map(|p| p.value).collect();
    assert_eq!(values, vec![50, 65, 78, 90]);
    let values: Vec<u32> = radius_presets().iter().map(|p| p.value).collect();
    assert_eq!(values, vec![0, 6, 12, 20]);
    let values: Vec<u32> = icon_size_presets().iter().map(|p| p.value).collect();
    assert_eq!(values, vec![32, 48, 64]);
    assert_eq!(preset_value(&icon_size_presets(), 2), Some(64));
    assert_eq!(preset_value(&icon_size_presets(), 3), None);
    assert_eq!(place_of_value(&icon_size_presets(), 64, 1), 2);
    assert_eq!(place_of_value(&icon_size_presets(), 50, 1), 1);
}

#[test]
fn the_menu_of_a_fence() {
    let menu = fence_menu(true, 0x334155, 78, 12, 48);
    assert_eq!(menu.len(), 9);
    let colors = entries_of(&menu, "Color");
    let marked: Vec<&str> =
        colors.iter().filter(|e| e.checked).map(|e| e.label.as_str()).collect();
    assert_eq!(marked, vec!["Slate"]);
    assert_eq!(decode_fence_command(colors[3].id), FenceCommand::Color { hex: 0x0C4A6E });
    let sizes = entries_of(&menu, "Icon size");
    assert!(sizes[1].checked && !sizes[0].checked && !sizes[2].checked);
    assert_eq!(decode_fence_command(sizes[2].id), FenceCommand::IconSize { size: 64 });
    assert!(entries_of(&menu, "Opacity")[2].checked);
    assert!(entries_of(&menu, "Corner radius")[2].checked);
    assert!(matches!(menu[7], MenuItem::Separator));
    assert!(!entry_of(&menu, "Delete fence").grayed);
    assert!(entry_of(&fence_menu(false, 0, 0, 0, 0), "Delete fence").grayed);
    assert_eq!(
        decode_fence_command(entry_of(&menu, "Sorting rules\u{2026}").id),
        FenceCommand::EditRules
    );
}

#[test]
fn commands_of_a_fence() {
    assert_eq!(decode_fence_command(100), FenceCommand::Delete);
    assert_eq!(decode_fence_command(101), FenceCommand::Rename);
    assert_eq!(decode_fence_command(103), FenceCommand::SortByColor);
    assert_eq!(decode_fence_command(117), FenceCommand::Color { hex: 0x78350F });
    assert_eq!(decode_fence_command(118), FenceCommand::Nothing);
    assert_eq!(decode_fence_command(121), FenceCommand::Opacity { percent: 65 });
    assert_eq!(decode_fence_command(124), FenceCommand::Nothing);
    assert_eq!(decode_fence_command(130), FenceCommand::Radius { radius: 0 });
    assert_eq!(decode_fence_command(143), FenceCommand::Nothing);
    assert_eq!(decode_fence_command(0), FenceCommand::Nothing);
}

#[test]
fn the_look_of_a_fence() {
    let mut cfg = layout(vec![fence("fence-1", "Unsorted", &["a"]), fence("fence-2", "B", &["b"])]);
    cfg.fences[0].color = "#111111".to_string();
    cfg.fences[0].opacity = Real { bits: 0.5f32.to_bits() };
    let (deletable, look) = fence_look(&cfg, "fence-1");
    assert!(!deletable);
    assert_eq!(look.color, 0x111111);
    assert_eq!(f32::from_bits(look.opacity.bits), 0.5);
    assert!(fence_look(&cfg, "fence-2").0);
    cfg.fences[0].items.clear();
    assert!(fence_look(&cfg, "fence-1").0);
    let standard = Look {
        color: 0x1E1E2E,
        opacity: Real { bits: DEFAULT_OPACITY_BITS },
        corner_radius: Real { bits: DEFAULT_RADIUS_BITS },
    };
    assert_eq!(fence_look(&cfg, "fence-9"), (false, standard));
    assert_eq!(settings_look(&cfg).color, 0x111111);
    assert_eq!(settings_look(&layout(vec![])), standard);
    assert_eq!(f32::from_bits(DEFAULT_OPACITY_BITS), 0.78);
    assert_eq!(f32::from_bits(DEFAULT_RADIUS_BITS), 12.0);
}

#[test]
fn the_menu_of_the_tray() {
    let menu = tray_menu(false, &vec![], true);
    assert!(entry_of(&menu, "Undo last sort").grayed);
    assert!(entry_of(&menu, "Start with Windows").checked);
    let restore = entries_of(&menu, "Restore layout");
    assert_eq!(restore.len(), 1);
    assert_eq!(restore[0].label, "(no snapshots)");
    assert!(restore[0].grayed);
    let menu = tray_menu(true, &strings(&["x", "y"]), false);
    assert!(!entry_of(&menu, "Undo last sort").grayed);
    assert!(!entry_of(&menu, "Start with Windows").checked);
    let restore = entries_of(&menu, "Restore layout");
    assert_eq!(restore[1].label, "y");
    assert_eq!(decode_tray_command(restore[1].id as u64), TrayCommand::Restore { index: 1 });
    let names: Vec<&str> = menu
        .iter()
        .map(|m| match m {
            MenuItem::Command { entry } => entry.label.as_str(),
            MenuItem::Submenu { label, .. } => label.as_str(),
            MenuItem::Separator => "-",
        })
        .collect();
    assert_eq!(
        names,
        vec![
            "New Fence",
            "Sort Unsorted now",
            "Undo last sort",
            "Save layout",
            "Restore layout",
            "Start with Windows",
            "Settings\u{2026}",
            "Exit"
        ]
    );
}

#[test]
fn commands_of_the_tray() {
    let want = [
        (1, TrayCommand::Exit),
        (2, TrayCommand::NewFence),
        (3, TrayCommand::Settings),
        (4, TrayCommand::SortUnsorted),
        (5, TrayCommand::ToggleAutostart),
        (6, TrayCommand::UndoSort),
        (7, TrayCommand::SaveLayout),
        (8, TrayCommand::Nothing),
        (699, TrayCommand::Nothing),
        (709, TrayCommand::Restore { index: 9 }),
        (710, TrayCommand::Nothing),
        (0x5_0002, TrayCommand::NewFence),
    ];
    for (id, command) in want {
        assert_eq!(decode_tray_command(id), command);
    }
    assert_eq!(decode_timer(1), TimerEvent::Save);
    assert_eq!(decode_timer(2), TimerEvent::Refresh);
    assert_eq!(decode_timer(7), TimerEvent::Nothing);
}

#[test]
fn the_rows_of_the_settings() {
    let rows = settings_rows(0x14532D, 65, 20, 32);
    let current: Vec<usize> = rows.iter().map(|r| r.current).collect();
    assert_eq!(current, vec![4, 1, 3, 0]);
    let rows = settings_rows(0x123456, 1, 1, 1);
    let current: Vec<usize> = rows.iter().map(|r| r.current).collect();
    assert_eq!(current, vec![0, 2, 2, 1]);
    let ids: Vec<u32> = rows.iter().map(|r| r.id).collect();
    assert_eq!(ids, vec![20, 21, 22, 23]);
    let labels: Vec<&str> = rows.iter().map(|r| r.label.as_str()).collect();
    assert_eq!(labels, vec!["Color", "Opacity", "Corner radius", "Icon size"]);
}

#[test]
fn commands_of_the_settings() {
    assert_eq!(decode_settings_command(1), SettingsCommand::Close);
    assert_eq!(decode_settings_command(2), SettingsCommand::Close);
    assert_eq!(decode_settings_command(24), SettingsCommand::Autostart);
    assert_eq!(decode_settings_command(20), SettingsCommand::Nothing);
    assert_eq!(decode_settings_command(0x1_0014), SettingsCommand::Color);
    assert_eq!(decode_settings_command(0x1_0015), SettingsCommand::Opacity);
    assert_eq!(decode_settings_command(0x1_0016), SettingsCommand::Radius);
    assert_eq!(decode_settings_command(0x1_0017), SettingsCommand::IconSize);
    assert_eq!(decode_settings_command(0x2_0017), SettingsCommand::Nothing);
    assert_eq!(decode_rename_command(1), RenameCommand::Commit);
    assert_eq!(decode_rename_command(2), RenameCommand::Cancel);
    assert_eq!(decode_rename_command(100), RenameCommand::Nothing);
}

#[test]
fn rules_are_labeled() {
    let label = |kind: RuleKind, value: &str| {
        label_for_rule(&Rule { kind, value: value.to_string() })
    };
    assert_eq!(label(RuleKind::Category, "apps"), "are apps or shortcuts");
    assert_eq!(label(RuleKind::Category, "media"), "are videos or music");
    assert_eq!(label(RuleKind::Category, "odd"), "odd");
    assert_eq!(label(RuleKind::NameContains, "x"), "have a name containing \"x\"");
    assert_eq!(label(RuleKind::Extension, "txt"), "have the file type \"txt\"");
    assert_eq!(labels().len(), 7);
}

#[test]
fn rules_are_made_of_what_was_entered() {
    let made = |choice: i64, text: &str| rule_from_ui(choice, text).map(|r| (r.kind, r.value));
    assert_eq!(made(-1, "x"), None);
    assert_eq!(made(7, "x"), None);
    assert_eq!(made(2, ""), Some((RuleKind::Category, "apps".to_string())));
    assert_eq!(made(5, "  "), None);
    assert_eq!(made(5, " My Text "), Some((RuleKind::NameContains, "My Text".to_string())));
    assert_eq!(made(6, " ..TXT "), Some((RuleKind::Extension, "txt".to_string())));
    assert_eq!(made(6, " .. "), None);
    assert!(takes_text(5) && takes_text(6) && !takes_text(4));
}

#[test]
fn a_rule_is_added_once() {
    let mut cfg = layout(vec![fence("fence-1", "Apps", &[]), fence("fence-2", "Texts", &[])]);
    assert!(matches!(add_rule(&mut cfg, "fence-2", 6, ".TXT"), Addition::Added));
    assert!(matches!(add_rule(&mut cfg, "fence-2", 2, ""), Addition::Added));
    match add_rule(&mut cfg, "fence-1", 6, "txt") {
        Addition::Taken { message } => {
            assert_eq!(message, "The fence \"Texts\" already has this rule.")
        }
        other => panic!("{other:?}"),
    }
    assert!(matches!(add_rule(&mut cfg, "fence-1", 6, "."), Addition::Incomplete));
    assert!(cfg.fences[0].rules.is_empty());
    assert_eq!(
        rule_labels(&cfg, "fence-2"),
        strings(&["have the file type \"txt\"", "are apps or shortcuts"])
    );
    assert!(rule_labels(&cfg, "fence-9").is_empty());
    assert!(!remove_selected(&mut cfg, "fence-2", -1));
    assert!(remove_selected(&mut cfg, "fence-2", 5));
    assert_eq!(cfg.fences[1].rules.len(), 2);
    assert!(remove_selected(&mut cfg, "fence-2", 0));
    assert_eq!(rule_labels(&cfg, "fence-2"), strings(&["are apps or shortcuts"]));
}

#[test]
fn commands_of_the_rules_dialog() {
    assert_eq!(decode_rules_command(1), RulesCommand::Add);
    assert_eq!(decode_rules_command(2), RulesCommand::Close);
    assert_eq!(decode_rules_command(3), RulesCommand::Remove);
    assert_eq!(decode_rules_command(0x1_000A), RulesCommand::Choose);
    assert_eq!(decode_rules_command(10), RulesCommand::Nothing);
    assert_eq!(decode_rules_command(12), RulesCommand::Nothing);
}

#[test]
fn the_controls_of_the_rules_dialog() {
    let controls = rules_dialog(96);
    assert_eq!(controls.len(), 8);
    assert_eq!(controls[0].text, "Move files that");
    assert_eq!(controls[1].place, Place { x: 110, y: 12, w: 170, h: 220 });
    assert_eq!((controls[1].kind, controls[1].id), (ControlKind::Choice, 10));
    assert!(!controls[3].visible);
    assert_eq!((controls[4].kind, controls[4].id), (ControlKind::DefaultButton, 1));
    let large = rules_dialog(144);
    assert_eq!(large[7].place, Place { x: 480, y: 174, w: 126, h: 39 });
    assert_eq!(rules_dialog_size(144), DialogSize { w: 645, h: 517, font: 22 });
}

#[test]
fn the_controls_of_the_settings() {
    let rows = settings_rows(0x1E1E2E, 78, 12, 48);
    let controls = settings_dialog(&rows, 48);
    assert_eq!(controls.len(), 10);
    assert_eq!(controls[2].text, "Opacity");
    assert_eq!(controls[2].place, Place { x: 12, y: 54, w: 110, h: 20 });
    assert_eq!(controls[7].place, Place { x: 130, y: 122, w: 168, h: 200 });
    assert_eq!(controls[7].id, 23);
    assert_eq!((controls[8].kind, controls[8].id), (ControlKind::Check, 24));
    assert_eq!((controls[9].text.as_str(), controls[9].id), ("Close", 2));
    assert_eq!(settings_dialog_size(48), DialogSize { w: 320, h: 260, font: 15 });
    assert_eq!(settings_dialog_size(192), DialogSize { w: 640, h: 520, font: 30 });
}

#[test]
fn the_controls_of_the_rename_dialog() {
    let controls = rename_dialog("Apps");
    assert_eq!(controls.len(), 3);
    assert_eq!((controls[0].text.as_str(), controls[0].id), ("Apps", 100));
    assert_eq!(controls[0].place, Place { x: 10, y: 12, w: 244, h: 24 });
    assert_eq!((controls[1].text.as_str(), controls[1].id), ("OK", 1));
    assert_eq!((controls[2].text.as_str(), controls[2].id), ("Cancel", 2));
}
