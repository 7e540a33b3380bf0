use orbirus::icons::{extraction_size, ghost_pixels, prepare, rainbow_key, IconPixels};
use orbirus::list::{contains, position, select, stable_order};
use orbirus::number::{parse_number, push_numeral, push_padded};
use orbirus::path::{extension_of_name, stem_of_name};
use orbirus::render::{
    cell_of, display_name, display_name_of, index_of, middle_truncate, row_count,
    truncated_full_name, Cell,
};
use orbirus::text::{
    contains_text, eq_ignore_ascii_case, has_suffix, strip_prefix, to_ascii_lowercase, trim,
    trim_leading, wide,
};

fn strings(v: &[&str]) -> Vec<String> {
    v.iter().map(|s| s.to_string()).collect()
}

#[test]
fn items_are_called_by_their_names() {
    assert_eq!(display_name("/desk/Game.lnk"), "Game");
    assert_eq!(display_name("/desk/Site.URL"), "Site");
    assert_eq!(display_name("/desk/a.tar.gz"), "a.tar.gz");
    assert_eq!(display_name("/desk/.lnk"), ".lnk");
    assert_eq!(display_name("/"), "/");
    assert_eq!(display_name_of("C:\\", &None), "C:\\");
    assert_eq!(display_name_of("x", &Some("Tool.LNK".to_string())), "Tool");
}

#[test]
fn long_names_lose_their_middle() {
    assert_eq!(middle_truncate("abcdefghij", 7), "abc\u{2026}hij");
    assert_eq!(middle_truncate("abcdefghij", 8), "abcd\u{2026}hij");
    assert_eq!(middle_truncate("abcdefghij", 10), "abcdefghij");
    assert_eq!(middle_truncate("abcdefghij", 3), "a\u{2026}j");
    assert_eq!(middle_truncate("abcdefghij", 2), "abcdefghij");
    assert_eq!(middle_truncate("\u{e4}\u{f6}\u{fc}\u{df}", 3), "\u{e4}\u{2026}\u{df}");
}

#[test]
fn tooltips_show_names_that_are_cut() {
    assert_eq!(truncated_full_name("/d/abcdefgh.lnk", 7), Some("abcdefgh".to_string()));
    assert_eq!(truncated_full_name("/d/abcdefg.lnk", 7), None);
    assert_eq!(truncated_full_name("/d/abcdefgh.lnk", 2), None);
}

#[test]
fn cells_and_places() {
    assert_eq!(cell_of(7, 3), Cell { row: 2, col: 1 });
    assert_eq!(index_of(Cell { row: 2, col: 1 }, 3), Some(7));
    assert_eq!(index_of(Cell { row: 2, col: 3 }, 3), None);
    assert_eq!((row_count(0, 4), row_count(8, 4), row_count(9, 4)), (0, 2, 3));
    for i in 0..20 {
        assert_eq!(index_of(cell_of(i, 4), 4), Some(i));
    }
}

#[test]
fn pixels_are_prepared() {
    assert_eq!(prepare(&vec![10, 20, 30, 0, 40, 50, 60, 0]), vec![10, 20, 30, 255, 40, 50, 60, 255]);
    assert_eq!(prepare(&vec![255, 100, 51, 128, 9, 9, 9, 0]), vec![128, 50, 25, 128, 0, 0, 0, 0]);
    assert_eq!(prepare(&vec![1, 2, 3, 255, 7]), vec![1, 2, 3, 255, 7]);
    assert_eq!(prepare(&vec![]), Vec::<u8>::new());
    assert_eq!(ghost_pixels(&vec![0, 5, 100, 255]), vec![0, 3, 60, 153]);
    let icon = IconPixels::from_extracted(1, &vec![255, 100, 51, 128]);
    assert_eq!((icon.size, icon.bgra.clone()), (1, vec![128, 50, 25, 128]));
    assert_eq!(icon.ghost(), vec![76, 30, 15, 76]);
    assert_eq!(extraction_size(8), 16);
    assert_eq!(extraction_size(72), 72);
}

#[test]
fn icons_follow_the_rainbow() {
    let solid = |r: u8, g: u8, b: u8| rainbow_key(&Some(vec![b, g, r, 255]));
    let red = solid(255, 0, 0);
    let yellow = solid(255, 255, 0);
    let green = solid(0, 255, 0);
    let cyan = solid(0, 255, 255);
    let blue = solid(0, 0, 255);
    let magenta = solid(255, 0, 255);
    let white = solid(255, 255, 255);
    let gray = solid(100, 110, 105);
    let black = solid(0, 0, 0);
    assert_eq!((red, yellow, green, cyan, blue, magenta), (0, 256, 512, 768, 1024, 1280));
    assert_eq!((white, gray, black), (1536, 1536 + 145, 1536 + 255));
    assert_eq!(rainbow_key(&Some(vec![0, 0, 0, 0])), 1792);
    assert_eq!(rainbow_key(&None), 1792);
    // Half transparent red is still red.
    assert_eq!(rainbow_key(&Some(vec![0, 0, 128, 128])), 0);
}

#[test]
fn texts() {
    assert_eq!(trim(" \t a b \u{a0}"), "a b");
    assert_eq!(trim_leading("..a.", '.'), "a.");
    assert!(contains_text("hello", "ell") && contains_text("x", "") && !contains_text("a", "ab"));
    assert_eq!(strip_prefix("fence-3", "fence-"), Some("3".to_string()));
    assert_eq!(strip_prefix("fenc", "fence-"), None);
    assert!(eq_ignore_ascii_case("AbC", "aBc") && !eq_ignore_ascii_case("\u{c4}", "\u{e4}"));
    assert_eq!(to_ascii_lowercase("A\u{c4}z"), "a\u{c4}z");
    assert!(has_suffix("abc", "bc") && !has_suffix("c", "bc") && has_suffix("c", ""));
    let text = "a\u{e9}\u{1F600}";
    let mut units: Vec<u16> = text.encode_utf16().collect();
    units.push(0);
    assert_eq!(wide(text), units);
}

#[test]
fn numbers() {
    assert_eq!(parse_number("42", 10), Some(42));
    assert_eq!(parse_number("+7", 10), Some(7));
    assert_eq!(parse_number("4294967295", 10), Some(u32::MAX));
    assert_eq!(parse_number("4294967296", 10), None);
    assert_eq!(parse_number("", 10), None);
    assert_eq!(parse_number("-1", 10), None);
    assert_eq!(parse_number("fF", 16), Some(255));
    let mut s = String::from("n=");
    push_numeral(&mut s, 1305, 10);
    push_padded(&mut s, 10, 16, 4);
    assert_eq!(s, "n=1305000A");
}

#[test]
fn file_names() {
    assert_eq!(extension_of_name("a.tar.gz"), Some("gz".to_string()));
    assert_eq!(extension_of_name(".hidden"), None);
    assert_eq!(extension_of_name("a."), Some(String::new()));
    assert_eq!(stem_of_name("a.tar.gz"), "a.tar");
    assert_eq!(stem_of_name(".hidden"), ".hidden");
}

#[test]
fn lists() {
    let v = strings(&["a", "b", "a", "c"]);
    assert_eq!(position(&v, "a"), Some(0));
    assert_eq!(position(&v, "z"), None);
    assert!(contains(&v, "c"));
    assert_eq!(select(&v, 1, 4, &strings(&["a", "c"]), true), strings(&["a", "c"]));
    assert_eq!(select(&v, 0, 4, &strings(&["a", "c"]), false), strings(&["b"]));
    assert_eq!(stable_order(&vec![2, 1, 2, 0]), vec![3, 1, 0, 2]);
}
