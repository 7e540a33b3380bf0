use orbirus::config::{Config, FenceConfig};
use orbirus::desktop::{enumerate, refresh, shows, try_refresh, DesktopItem, Found};
use orbirus::rules::{
    category_contains, match_fence, match_fence_name, rule_matches, rule_matches_name, Rule,
    RuleKind,
};
use orbirus::sorting::{
    apply_sort, plan_sort, sort_question, sort_request, undo_last_sort, PlannedMove, SortRecord,
};

fn strings(v: &[&str]) -> Vec<String> {
    v.iter().map(|s| s.to_string()).collect()
}

fn rule(kind: RuleKind, value: &str) -> Rule {
    Rule { kind, value: value.to_string() }
}

fn fence(id: &str, title: &str, items: &[&str], rules: Vec<Rule>) -> FenceConfig {
    let mut f = FenceConfig::plain(id.to_string(), title, 10, 20, 300, 200);
    f.items = strings(items);
    f.rules = rules;
    f
}

fn layout(fences: Vec<FenceConfig>) -> Config {
    Config { version: 2, icon_size: 48, fences }
}

fn file(path: &str) -> DesktopItem {
    DesktopItem { path: path.to_string(), is_dir: false }
}

fn folder(path: &str) -> DesktopItem {
    DesktopItem { path: path.to_string(), is_dir: true }
}

fn starter_fences() -> Config {
    layout(vec![
        fence("fence-1", "Apps", &[], vec![rule(RuleKind::Category, "apps")]),
        fence("fence-2", "Documents", &[], vec![rule(RuleKind::Category, "documents")]),
        fence("fence-3", "Folders", &[], vec![rule(RuleKind::Category, "folders")]),
        fence("fence-4", "Unsorted", &[], vec![]),
    ])
}

#[test]
fn categories_hold_their_extensions() {
    assert!(category_contains("pictures", "heic"));
    assert!(category_contains("documents", "odt"));
    assert!(category_contains("apps", "lnk"));
    assert!(category_contains("media", "m4a"));
    assert!(!category_contains("pictures", "pdf"));
    assert!(!category_contains("folders", "png"));
    assert!(category_contains("Pictures", "png"));
    assert!(category_contains("DOCUMENTS", "odt"));
    assert!(!category_contains("Folders", "png"));
    assert!(!category_contains("other", "png"));
}

#[test]
fn rules_match_by_category() {
    let r = rule(RuleKind::Category, "pictures");
    assert!(rule_matches(&r, "/desk/Photo.JPG", false));
    assert!(!rule_matches(&r, "/desk/Photo.JPG", true));
    assert!(!rule_matches(&r, "/desk/.png", false));
    assert!(!rule_matches(&r, "/desk/png", false));
    assert!(rule_matches(&rule(RuleKind::Category, "Pictures"), "/d/a.png", false));
    assert!(rule_matches(&rule(RuleKind::Category, "MEDIA"), "/d/a.Mp3", false));
    assert!(!rule_matches(&rule(RuleKind::Category, "Other"), "/d/a.png", false));
    let f = rule(RuleKind::Category, "folders");
    assert!(rule_matches(&rule(RuleKind::Category, "Folders"), "/d/a", true));
    assert!(!rule_matches(&rule(RuleKind::Category, "Folders"), "/d/a.png", false));
    assert!(rule_matches(&f, "/desk/Photo.JPG", true));
    assert!(!rule_matches(&f, "/desk/Photo.JPG", false));
}

#[test]
fn rules_match_by_name() {
    let r = rule(RuleKind::NameContains, "Report");
    assert!(rule_matches(&r, "/report/Q1-REPORT.pdf", false));
    assert!(!rule_matches(&r, "/report/summary.pdf", false));
    assert!(rule_matches(&r, "/desk/my report", true));
    assert!(!rule_matches(&rule(RuleKind::NameContains, ""), "/desk/a", false));
    assert!(rule_matches(&rule(RuleKind::NameContains, "ÄRGER"), "/desk/ärger.txt", false));
}

#[test]
fn rules_match_by_extension() {
    let r = rule(RuleKind::Extension, "..TXT");
    assert!(rule_matches(&r, "/desk/a.b.txt", false));
    assert!(!rule_matches(&r, "/desk/a.txt", true));
    assert!(!rule_matches(&r, "/desk/a.txt.bak", false));
    assert!(!rule_matches(&rule(RuleKind::Extension, "."), "/desk/a.", false));
}

#[test]
fn case_does_not_matter_in_matching() {
    let rules = [
        (RuleKind::Category, "pictures", "PICTURES"),
        (RuleKind::Category, "folders", "FoldErs"),
        (RuleKind::NameContains, "photo", "pHOTo"),
        (RuleKind::NameContains, "\u{e4}rger", "\u{c4}RGER"),
        (RuleKind::Extension, ".png", ".PNG"),
    ];
    let names = [("photo.png", "PHOTO.PnG"), ("\u{e4}rger", "\u{c4}rgER"), (".png", ".PNG")];
    for (kind, a, b) in rules {
        for (m, n) in names {
            for is_dir in [false, true] {
                assert_eq!(
                    rule_matches_name(&rule(kind, a), &Some(m.to_string()), is_dir),
                    rule_matches_name(&rule(kind, b), &Some(n.to_string()), is_dir)
                );
            }
        }
    }
    assert!(rule_matches_name(
        &rule(RuleKind::NameContains, "\u{c4}RGER"),
        &Some("kein \u{e4}rgER".to_string()),
        false
    ));
    let cfg = layout(vec![fence("fence-1", "A", &[], vec![rule(RuleKind::Category, "Apps")])]);
    assert_eq!(match_fence("/d/x.EXE", false, &cfg), match_fence("/d/X.exe", false, &cfg));
    assert_eq!(match_fence("/d/x.EXE", false, &cfg), Some("fence-1".to_string()));
}

#[test]
fn rules_of_a_path_without_a_file_name() {
    assert!(!rule_matches(&rule(RuleKind::NameContains, "a"), "/", false));
    assert!(!rule_matches_name(&rule(RuleKind::NameContains, "a"), &None, false));
    assert!(rule_matches_name(&rule(RuleKind::Category, "folders"), &None, true));
}

#[test]
fn same_rules_differ_in_case_at_most() {
    let a = rule(RuleKind::Extension, "TXT");
    assert!(a.same_as(&rule(RuleKind::Extension, "txt")));
    assert!(!a.same_as(&rule(RuleKind::NameContains, "txt")));
    assert!(!a.same_as(&rule(RuleKind::Extension, "tx")));
}

#[test]
fn the_first_matching_fence_decides() {
    let cfg = layout(vec![
        fence("fence-1", "A", &[], vec![rule(RuleKind::NameContains, "x"), rule(RuleKind::Extension, "pdf")]),
        fence("fence-2", "B", &[], vec![rule(RuleKind::Extension, "pdf")]),
    ]);
    assert_eq!(match_fence("/desk/a.pdf", false, &cfg), Some("fence-1".to_string()));
    assert_eq!(match_fence("/desk/a.doc", false, &cfg), None);
    assert_eq!(match_fence_name(&Some("x".to_string()), true, &cfg), Some("fence-1".to_string()));
    assert_eq!(match_fence_name(&None, true, &cfg), None);
}

#[test]
fn new_items_are_sorted_and_the_rest_lands_in_unsorted() {
    let mut cfg = starter_fences();
    let disk = vec![file("/d/a.exe"), file("/d/b.pdf"), folder("/d/c"), file("/d/song.mp3")];
    let (changed, added) = try_refresh(&mut cfg, &disk).unwrap();
    assert!(changed);
    assert_eq!(added, strings(&["/d/a.exe", "/d/b.pdf", "/d/c", "/d/song.mp3"]));
    assert_eq!(cfg.fences[0].items, strings(&["/d/a.exe"]));
    assert_eq!(cfg.fences[1].items, strings(&["/d/b.pdf"]));
    assert_eq!(cfg.fences[2].items, strings(&["/d/c"]));
    assert_eq!(cfg.fences[3].items, strings(&["/d/song.mp3"]));
    let (changed, added) = refresh(&mut cfg, &disk);
    assert!(!changed);
    assert!(added.is_empty());
}

#[test]
fn vanished_items_are_dropped_and_case_does_not_matter() {
    let mut cfg = starter_fences();
    cfg.fences[0].items = strings(&["/D/A.TXT", "/d/gone.txt"]);
    let (changed, added) = try_refresh(&mut cfg, &vec![file("/d/a.txt")]).unwrap();
    assert!(changed);
    assert!(added.is_empty());
    assert_eq!(cfg.fences[0].items, strings(&["/D/A.TXT"]));
}

#[test]
fn items_that_were_placed_by_hand_stay() {
    let mut cfg = starter_fences();
    cfg.fences[1].items = strings(&["/d/tool.exe"]);
    let (changed, _) = try_refresh(&mut cfg, &vec![file("/d/tool.exe")]).unwrap();
    assert!(!changed);
    assert_eq!(cfg.fences[1].items, strings(&["/d/tool.exe"]));
}

#[test]
fn unsorted_is_made_when_it_is_needed() {
    let mut cfg = layout(vec![fence("fence-3", "A", &[], vec![])]);
    try_refresh(&mut cfg, &vec![file("/d/a.txt")]).unwrap();
    assert_eq!(cfg.fences[1].id, "fence-4");
    assert_eq!(cfg.fences[1].title, "Unsorted");
    assert_eq!(cfg.fences[1].items, strings(&["/d/a.txt"]));
}

#[test]
fn no_refresh_without_a_free_number() {
    let mut cfg = layout(vec![fence("fence-4294967295", "A", &["/d/x"], vec![])]);
    assert!(try_refresh(&mut cfg, &vec![file("/d/a.txt")]).is_none());
    assert_eq!(cfg.fences[0].items, strings(&["/d/x"]));
    let (changed, added) = try_refresh(&mut cfg, &vec![]).unwrap();
    assert!(changed && added.is_empty());
    cfg.fences[0].rules = vec![rule(RuleKind::Extension, "txt")];
    assert!(try_refresh(&mut cfg, &vec![file("/d/a.txt")]).is_some());
    assert_eq!(cfg.fences[0].items, strings(&["/d/a.txt"]));
}

#[test]
fn the_settings_of_a_folder_are_not_shown() {
    assert!(!shows("desktop.ini"));
    assert!(!shows("Desktop.INI"));
    assert!(shows("desktop.ini.txt"));
    let found = vec![
        Found { name: "DESKTOP.ini".into(), path: "/d/DESKTOP.ini".into(), is_dir: false },
        Found { name: "a".into(), path: "/d/a".into(), is_dir: true },
    ];
    let items = enumerate(&found);
    assert_eq!(items.len(), 1);
    assert_eq!(items[0].path, "/d/a");
    assert!(items[0].is_dir);
}

#[test]
fn sorting_unsorted_and_undoing_it() {
    let mut cfg = starter_fences();
    cfg.fences[3].items = strings(&["/d/a.exe", "/d/x.bin", "/d/b.pdf", "/d/dir", "/d/c.exe"]);
    let (moves, uid) = plan_sort(&cfg, &strings(&["/d/dir"]));
    assert_eq!(uid, "fence-4");
    let plan: Vec<(String, String)> =
        moves.iter().map(|m| (m.item.clone(), m.target.clone())).collect();
    assert_eq!(
        plan,
        vec![
            ("/d/a.exe".to_string(), "fence-1".to_string()),
            ("/d/b.pdf".to_string(), "fence-2".to_string()),
            ("/d/dir".to_string(), "fence-3".to_string()),
            ("/d/c.exe".to_string(), "fence-1".to_string()),
        ]
    );
    assert_eq!(
        sort_question(&cfg, &moves),
        "This will move 4 items:\n\n2 \u{2192} Apps\n1 \u{2192} Documents\n1 \u{2192} Folders\n\nContinue?"
    );
    let applied = apply_sort(&mut cfg, &moves, &uid);
    assert_eq!(applied.len(), 4);
    assert_eq!(cfg.fences[0].items, strings(&["/d/a.exe", "/d/c.exe"]));
    assert_eq!(cfg.fences[3].items, strings(&["/d/x.bin"]));
    undo_last_sort(&mut cfg, &applied);
    assert!(cfg.fences[0].items.is_empty());
    assert_eq!(
        cfg.fences[3].items,
        strings(&["/d/x.bin", "/d/a.exe", "/d/b.pdf", "/d/dir", "/d/c.exe"])
    );
}

#[test]
fn nothing_to_sort() {
    let cfg = starter_fences();
    let (moves, uid) = plan_sort(&cfg, &vec![]);
    assert!(moves.is_empty());
    assert_eq!(uid, "fence-4");
    let none = layout(vec![fence("fence-1", "A", &["/d/a"], vec![rule(RuleKind::NameContains, "a")])]);
    let (moves, uid) = plan_sort(&none, &vec![]);
    assert!(moves.is_empty());
    assert_eq!(uid, "");
}

#[test]
fn a_sort_skips_what_is_no_longer_there() {
    let mut cfg = starter_fences();
    cfg.fences[3].items = strings(&["/d/a.exe"]);
    let moves = vec![
        PlannedMove { item: "/d/gone.exe".into(), target: "fence-1".into() },
        PlannedMove { item: "/d/a.exe".into(), target: "fence-1".into() },
    ];
    let applied = apply_sort(&mut cfg, &moves, "fence-4");
    assert_eq!(applied.len(), 1);
    assert_eq!(applied[0].item, "/d/a.exe");
    assert_eq!((applied[0].from_id.as_str(), applied[0].to_id.as_str()), ("fence-4", "fence-1"));
}

#[test]
fn an_undo_leaves_what_was_moved_since() {
    let mut cfg = starter_fences();
    cfg.fences[3].items = strings(&["/d/a.exe"]);
    let (moves, uid) = plan_sort(&cfg, &vec![]);
    let applied = apply_sort(&mut cfg, &moves, &uid);
    cfg.fences[0].items.clear();
    cfg.fences[1].items = strings(&["/d/a.exe"]);
    undo_last_sort(&mut cfg, &applied);
    assert_eq!(cfg.fences[1].items, strings(&["/d/a.exe"]));
    assert!(cfg.fences[3].items.is_empty());
}

#[test]
fn an_undo_keeps_what_has_nowhere_to_go_back_to() {
    let mut cfg = starter_fences();
    cfg.fences[3].items = strings(&["/d/a.exe"]);
    let (moves, uid) = plan_sort(&cfg, &vec![]);
    let applied = apply_sort(&mut cfg, &moves, &uid);
    cfg.fences.remove(3);
    undo_last_sort(&mut cfg, &applied);
    assert_eq!(cfg.fences[0].items, strings(&["/d/a.exe"]));
}

#[test]
fn a_sort_keeps_what_has_nowhere_to_go() {
    let mut cfg = starter_fences();
    cfg.fences[3].items = strings(&["/d/a.exe", "/d/b.pdf"]);
    let (moves, uid) = plan_sort(&cfg, &vec![]);
    cfg.fences.remove(0);
    let applied = apply_sort(&mut cfg, &moves, &uid);
    assert_eq!(applied.len(), 1);
    assert_eq!(cfg.fences[0].items, strings(&["/d/b.pdf"]));
    assert_eq!(cfg.fences[2].items, strings(&["/d/a.exe"]));
}

#[test]
fn the_record_of_the_last_sort() {
    let mut cfg = starter_fences();
    let mut last = SortRecord::new();
    assert!(sort_request(&cfg, &vec![]).is_none());
    assert!(!last.can_undo());
    assert!(!last.undo(&mut cfg));
    cfg.fences[3].items = strings(&["/d/a.exe", "/d/x.bin"]);
    let request = sort_request(&cfg, &vec![]).unwrap();
    assert_eq!(request.unsorted, "fence-4");
    assert_eq!(request.question, "This will move 1 items:\n\n1 \u{2192} Apps\n\nContinue?");
    assert!(!last.answer(&mut cfg, &request, false));
    assert!(!last.can_undo());
    assert_eq!(cfg.fences[3].items, strings(&["/d/a.exe", "/d/x.bin"]));
    assert!(last.answer(&mut cfg, &request, true));
    assert!(last.can_undo());
    assert_eq!(cfg.fences[0].items, strings(&["/d/a.exe"]));
    assert!(last.undo(&mut cfg));
    assert!(!last.can_undo());
    assert!(cfg.fences[0].items.is_empty());
    assert_eq!(cfg.fences[3].items, strings(&["/d/x.bin", "/d/a.exe"]));
    assert!(!last.undo(&mut cfg));
    assert_eq!(cfg.fences[3].items, strings(&["/d/x.bin", "/d/a.exe"]));
    assert!(last.answer(&mut cfg, &request, true));
    last.forget();
    assert!(!last.can_undo());
}
