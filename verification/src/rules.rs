//! Sorting rules. A rule belongs to a fence; a new desktop item is tested
//! against the fences in their order and against each fence's rules in their
//! order, and the first match decides where it goes. Matching is without regard
//! to case throughout: in names and extensions, and in the values of rules.

use vstd::prelude::*;
use crate::config::{Config, FenceView};
use crate::list::{first_index, lemma_is_first, lemma_is_nowhere};
use crate::path::{extension_of_name, file_name, name_extension, path_file_name};
use crate::text::{
    ascii_lowered, contains_text, eq_ignore_ascii_case, fold_case, folded, occurs_in, opt_text,
    same_but_ascii_case, same_text, trim_leading, without_leading,
};

verus! {

#[derive(Clone, Copy, PartialEq, Eq, Structural, Debug)]
pub enum RuleKind {
    Category,
    NameContains,
    Extension,
}

#[derive(Debug)]
pub struct Rule {
    pub kind: RuleKind,
    pub value: String,
}

pub struct RuleView {
    pub kind: RuleKind,
    pub value: Seq<char>,
}

impl View for Rule {
    type V = RuleView;

    open spec fn view(&self) -> RuleView {
        RuleView { kind: self.kind, value: self.value@ }
    }
}

impl Clone for Rule {
    fn clone(&self) -> (r: Self)
        ensures
            r@ == self@,
    {
        Rule { kind: self.kind, value: self.value.clone() }
    }
}

/// Same kind, and values that agree but for case.
pub open spec fn same_rule(a: RuleView, b: RuleView) -> bool {
    a.kind == b.kind && folded(a.value) == folded(b.value)
}

impl Rule {
    /// Identity for duplicate detection: same kind, value compared without
    /// regard to case.
    pub fn same_as(&self, other: &Rule) -> (r: bool)
        ensures
            r == same_rule(self@, other@),
    {
        self.kind == other.kind && same_text(
            &fold_case(&self.value),
            &fold_case(&other.value),
        )
    }
}

/// Whether files with the extension `ext`, in lower case, belong to a
/// category, which may be written in any case. The category "folders" is no
/// set of extensions.
pub open spec fn in_category(category: Seq<char>, ext: Seq<char>) -> bool {
    ||| same_but_ascii_case(category, "pictures"@) && {
        ||| ext == "png"@
        ||| ext == "jpg"@
        ||| ext == "jpeg"@
        ||| ext == "gif"@
        ||| ext == "bmp"@
        ||| ext == "webp"@
        ||| ext == "heic"@
        ||| ext == "svg"@
    }
    ||| same_but_ascii_case(category, "documents"@) && {
        ||| ext == "pdf"@
        ||| ext == "doc"@
        ||| ext == "docx"@
        ||| ext == "xls"@
        ||| ext == "xlsx"@
        ||| ext == "ppt"@
        ||| ext == "pptx"@
        ||| ext == "txt"@
        ||| ext == "rtf"@
        ||| ext == "csv"@
        ||| ext == "odt"@
    }
    ||| same_but_ascii_case(category, "apps"@) && {
        ||| ext == "exe"@
        ||| ext == "lnk"@
        ||| ext == "url"@
    }
    ||| same_but_ascii_case(category, "media"@) && {
        ||| ext == "mp4"@
        ||| ext == "mkv"@
        ||| ext == "mov"@
        ||| ext == "avi"@
        ||| ext == "mp3"@
        ||| ext == "wav"@
        ||| ext == "flac"@
        ||| ext == "m4a"@
    }
}

/// Whether the extension `ext`, in lower case, is one of a category.
pub fn category_contains(category: &str, ext: &str) -> (r: bool)
    ensures
        r == in_category(category@, ext@),
{
    if eq_ignore_ascii_case(category, "pictures") {
        if same_text(ext, "png") || same_text(ext, "jpg") || same_text(ext, "jpeg") || same_text(
            ext,
            "gif",
        ) || same_text(ext, "bmp") || same_text(ext, "webp") || same_text(ext, "heic")
            || same_text(ext, "svg") {
            return true;
        }
    }
    if eq_ignore_ascii_case(category, "documents") {
        if same_text(ext, "pdf") || same_text(ext, "doc") || same_text(ext, "docx") || same_text(
            ext,
            "xls",
        ) || same_text(ext, "xlsx") || same_text(ext, "ppt") || same_text(ext, "pptx")
            || same_text(ext, "txt") || same_text(ext, "rtf") || same_text(ext, "csv")
            || same_text(ext, "odt") {
            return true;
        }
    }
    if eq_ignore_ascii_case(category, "apps") {
        if same_text(ext, "exe") || same_text(ext, "lnk") || same_text(ext, "url") {
            return true;
        }
    }
    if eq_ignore_ascii_case(category, "media") {
        if same_text(ext, "mp4") || same_text(ext, "mkv") || same_text(ext, "mov") || same_text(
            ext,
            "avi",
        ) || same_text(ext, "mp3") || same_text(ext, "wav") || same_text(ext, "flac")
            || same_text(ext, "m4a") {
            return true;
        }
    }
    false
}

/// The name that rules see of an item: its file name in lower case.
pub open spec fn matched_name(name: Option<Seq<char>>) -> Seq<char> {
    match name {
        Some(n) => folded(n),
        None => Seq::empty(),
    }
}

/// The extension that rules see of an item, in lower case.
pub open spec fn matched_extension(name: Option<Seq<char>>) -> Option<Seq<char>> {
    match name {
        Some(n) => match name_extension(n) {
            Some(e) => Some(folded(e)),
            None => None,
        },
        None => None,
    }
}

/// Whether a rule accepts the item whose file name is `name`.
pub open spec fn rule_accepts(rule: RuleView, name: Option<Seq<char>>, is_dir: bool) -> bool {
    let ext = matched_extension(name);
    match rule.kind {
        RuleKind::Category => if same_but_ascii_case(rule.value, "folders"@) {
            is_dir
        } else {
            !is_dir && ext is Some && in_category(rule.value, ext->0)
        },
        RuleKind::NameContains => rule.value.len() > 0 && occurs_in(
            folded(rule.value),
            matched_name(name),
        ),
        RuleKind::Extension => {
            let wanted = folded(without_leading(rule.value, '.'));
            wanted.len() > 0 && !is_dir && ext == Some(wanted)
        },
    }
}

/// Whether a rule accepts an item, given the item's file name and whether the
/// item is a directory.
pub fn rule_matches_name(rule: &Rule, name: &Option<String>, is_dir: bool) -> (r: bool)
    ensures
        r == rule_accepts(rule@, opt_text(*name), is_dir),
{
    let shown = match name {
        Some(n) => fold_case(n),
        None => String::new(),
    };
    assert(shown@ == matched_name(opt_text(*name)));
    let ext = match name {
        Some(n) => match extension_of_name(n) {
            Some(e) => Some(fold_case(&e)),
            None => None,
        },
        None => None,
    };
    assert(opt_text(ext) == matched_extension(opt_text(*name)));
    match rule.kind {
        RuleKind::Category => {
            if eq_ignore_ascii_case(&rule.value, "folders") {
                return is_dir;
            }
            if is_dir {
                return false;
            }
            match ext {
                Some(e) => category_contains(&rule.value, &e),
                None => false,
            }
        },
        RuleKind::NameContains => {
            !rule.value.as_str().is_empty() && contains_text(&shown, &fold_case(&rule.value))
        },
        RuleKind::Extension => {
            let wanted = fold_case(&trim_leading(&rule.value, '.'));
            if wanted.as_str().is_empty() || is_dir {
                return false;
            }
            match ext {
                Some(e) => same_text(&e, &wanted),
                None => false,
            }
        },
    }
}

/// Whether a rule accepts the item at `path`. Whether that item is a
/// directory is for the caller to find out.
pub fn rule_matches(rule: &Rule, path: &str, is_dir: bool) -> (r: bool)
    ensures
        r == rule_accepts(rule@, path_file_name(path@), is_dir),
{
    let name = file_name(path);
    rule_matches_name(rule, &name, is_dir)
}

/// Whether some rule of a fence accepts an item.
pub open spec fn fence_accepts(name: Option<Seq<char>>, is_dir: bool) -> spec_fn(
    FenceView,
) -> bool {
    |f: FenceView|
        exists|k: int|
            0 <= k < f.rules.len() && rule_accepts(#[trigger] f.rules[k], name, is_dir)
}

/// The id of the first fence with a rule that accepts an item.
pub open spec fn matching_fence(
    fences: Seq<FenceView>,
    name: Option<Seq<char>>,
    is_dir: bool,
) -> Option<Seq<char>> {
    match first_index(fences, fence_accepts(name, is_dir)) {
        Some(i) => Some(fences[i].id),
        None => None,
    }
}

/// First fence with a rule that accepts the item whose file name is `name`.
pub fn match_fence_name(name: &Option<String>, is_dir: bool, cfg: &Config) -> (r: Option<String>)
    ensures
        opt_text(r) == matching_fence(cfg@.fences, opt_text(*name), is_dir),
{
    let ghost accepts = fence_accepts(opt_text(*name), is_dir);
    let mut i: usize = 0;
    while i < cfg.fences.len()
        invariant
            accepts == fence_accepts(opt_text(*name), is_dir),
            i <= cfg.fences@.len(),
            forall|j: int| 0 <= j < i ==> !accepts(#[trigger] cfg@.fences[j]),
        decreases cfg.fences@.len() - i,
    {
        let mut k: usize = 0;
        while k < cfg.fences[i].rules.len()
            invariant
                accepts == fence_accepts(opt_text(*name), is_dir),
                i < cfg.fences@.len(),
                k <= cfg.fences@[i as int].rules@.len(),
                forall|j: int| 0 <= j < i ==> !accepts(#[trigger] cfg@.fences[j]),
                forall|j: int|
                    0 <= j < k ==> !rule_accepts(
                        #[trigger] cfg@.fences[i as int].rules[j],
                        opt_text(*name),
                        is_dir,
                    ),
            decreases cfg.fences@[i as int].rules@.len() - k,
        {
            if rule_matches_name(&cfg.fences[i].rules[k], name, is_dir) {
                proof {
                    assert(rule_accepts(
                        cfg@.fences[i as int].rules[k as int],
                        opt_text(*name),
                        is_dir,
                    ));
                    lemma_is_first(cfg@.fences, accepts, i as int);
                }
                return Some(cfg.fences[i].id.clone());
            }
            k = k + 1;
        }
        i = i + 1;
    }
    proof {
        lemma_is_nowhere(cfg@.fences, accepts);
    }
    None
}

/// First fence, in layout order, with a rule, in list order, that accepts the
/// item at `path`.
pub fn match_fence(path: &str, is_dir: bool, cfg: &Config) -> (r: Option<String>)
    ensures
        opt_text(r) == matching_fence(cfg@.fences, path_file_name(path@), is_dir),
{
    let name = file_name(path);
    match_fence_name(&name, is_dir, cfg)
}

/// Whether two file names, if there are any, are the same but for the case of
/// ASCII letters.
pub open spec fn same_names(a: Option<Seq<char>>, b: Option<Seq<char>>) -> bool {
    match (a, b) {
        (Some(x), Some(y)) => same_but_ascii_case(x, y),
        (None, None) => true,
        _ => false,
    }
}

/// Case does not move dots.
proof fn lemma_same_dots(a: Seq<char>, b: Seq<char>)
    requires
        same_but_ascii_case(a, b),
    ensures
        a.len() == b.len(),
        forall|i: int| 0 <= i < a.len() ==> (#[trigger] a[i] == '.') == (b[i] == '.'),
{
    assert(ascii_lowered(a).len() == a.len());
    assert(ascii_lowered(b).len() == b.len());
    assert forall|i: int| 0 <= i < a.len() implies (#[trigger] a[i] == '.') == (b[i] == '.') by {
        assert(ascii_lowered(a)[i] == ascii_lowered(b)[i]);
    }
}

/// What is behind a place is the same but for case if the whole is.
proof fn lemma_same_behind(a: Seq<char>, b: Seq<char>, n: int)
    requires
        same_but_ascii_case(a, b),
        0 <= n <= a.len(),
    ensures
        same_but_ascii_case(a.skip(n), b.skip(n)),
{
    lemma_same_dots(a, b);
    assert(ascii_lowered(a.skip(n)) =~= ascii_lowered(a).skip(n));
    assert(ascii_lowered(b.skip(n)) =~= ascii_lowered(b).skip(n));
}

proof fn lemma_same_without_dots(a: Seq<char>, b: Seq<char>)
    requires
        same_but_ascii_case(a, b),
    ensures
        same_but_ascii_case(without_leading(a, '.'), without_leading(b, '.')),
    decreases a.len(),
{
    lemma_same_dots(a, b);
    if a.len() > 0 && a[0] == '.' {
        lemma_same_behind(a, b, 1);
        lemma_same_without_dots(a.skip(1), b.skip(1));
    }
}

proof fn lemma_same_extension(a: Seq<char>, b: Seq<char>)
    requires
        same_but_ascii_case(a, b),
    ensures
        same_names(name_extension(a), name_extension(b)),
{
    lemma_same_dots(a, b);
    a.index_of_last_ensures('.');
    b.index_of_last_ensures('.');
    match a.index_of_last('.') {
        Some(i) => {
            assert(b[i] == '.');
            assert(b.contains('.'));
            assert(b.index_of_last('.') == Some(i)) by {
                let j = b.index_of_last('.')->0;
                assert(a[j] == '.');
            }
            lemma_same_behind(a, b, i + 1);
        },
        None => {
            assert forall|j: int| 0 <= j < b.len() implies b[j] != '.' by {
                assert(a[j] != '.') by {
                    if a[j] == '.' {
                        assert(a.contains('.'));
                    }
                }
            }
        },
    }
}

/// Matching is without regard to case: rules whose values agree but for the
/// case of ASCII letters accept the same items, and items whose file names
/// agree but for the case of ASCII letters are accepted by the same rules.
pub proof fn law_matching_ignores_case(
    a: RuleView,
    b: RuleView,
    m: Option<Seq<char>>,
    n: Option<Seq<char>>,
    is_dir: bool,
)
    requires
        a.kind == b.kind,
        same_but_ascii_case(a.value, b.value),
        same_names(m, n),
    ensures
        rule_accepts(a, m, is_dir) == rule_accepts(b, n, is_dir),
{
    lemma_same_dots(a.value, b.value);
    lemma_same_without_dots(a.value, b.value);
    if m is Some {
        lemma_same_extension(m->0, n->0);
    }
}

/// Which fence an item goes to does not depend on the case of ASCII letters
/// in its file name.
pub proof fn law_placing_ignores_case(
    fences: Seq<FenceView>,
    m: Option<Seq<char>>,
    n: Option<Seq<char>>,
    is_dir: bool,
)
    requires
        same_names(m, n),
    ensures
        matching_fence(fences, m, is_dir) == matching_fence(fences, n, is_dir),
{
    let p = fence_accepts(m, is_dir);
    let q = fence_accepts(n, is_dir);
    assert forall|f: FenceView| #[trigger] p(f) == q(f) by {
        assert forall|k: int| 0 <= k < f.rules.len() implies rule_accepts(
            #[trigger] f.rules[k],
            m,
            is_dir,
        ) == rule_accepts(f.rules[k], n, is_dir) by {
            law_matching_ignores_case(f.rules[k], f.rules[k], m, n, is_dir);
        }
    }
    assert(p =~= q);
}

/// The pictures are the files with these extensions and no others.
pub proof fn law_pictures(ext: Seq<char>)
    ensures
        in_category("pictures"@, ext) <==> seq![
            "png"@,
            "jpg"@,
            "jpeg"@,
            "gif"@,
            "bmp"@,
            "webp"@,
            "heic"@,
            "svg"@,
        ].contains(ext),
{
    lemma_categories_differ();
    let all = seq![
        "png"@,
        "jpg"@,
        "jpeg"@,
        "gif"@,
        "bmp"@,
        "webp"@,
        "heic"@,
        "svg"@,
    ];
    assert(all.len() == 8);
    assert(all[0] == "png"@ && all[1] == "jpg"@ && all[2] == "jpeg"@ && all[3] == "gif"@);
    assert(all[4] == "bmp"@ && all[5] == "webp"@ && all[6] == "heic"@ && all[7] == "svg"@);
    if all.contains(ext) {
        let k = choose|k: int| 0 <= k < 8 && all[k] == ext;
    }
}

/// The documents are the files with these extensions and no others.
pub proof fn law_documents(ext: Seq<char>)
    ensures
        in_category("documents"@, ext) <==> seq![
            "pdf"@,
            "doc"@,
            "docx"@,
            "xls"@,
            "xlsx"@,
            "ppt"@,
            "pptx"@,
            "txt"@,
            "rtf"@,
            "csv"@,
            "odt"@,
        ].contains(ext),
{
    lemma_categories_differ();
    let all = seq![
        "pdf"@,
        "doc"@,
        "docx"@,
        "xls"@,
        "xlsx"@,
        "ppt"@,
        "pptx"@,
        "txt"@,
        "rtf"@,
        "csv"@,
        "odt"@,
    ];
    assert(all.len() == 11);
    assert(all[0] == "pdf"@ && all[1] == "doc"@ && all[2] == "docx"@ && all[3] == "xls"@);
    assert(all[4] == "xlsx"@ && all[5] == "ppt"@ && all[6] == "pptx"@ && all[7] == "txt"@);
    assert(all[8] == "rtf"@ && all[9] == "csv"@ && all[10] == "odt"@);
    if all.contains(ext) {
        let k = choose|k: int| 0 <= k < 11 && all[k] == ext;
    }
}

/// Apps and shortcuts are the files with these extensions and no others.
pub proof fn law_apps(ext: Seq<char>)
    ensures
        in_category("apps"@, ext) <==> seq!["exe"@, "lnk"@, "url"@].contains(ext),
{
    lemma_categories_differ();
    let all = seq!["exe"@, "lnk"@, "url"@];
    assert(all.len() == 3);
    assert(all[0] == "exe"@ && all[1] == "lnk"@ && all[2] == "url"@);
    if all.contains(ext) {
        let k = choose|k: int| 0 <= k < 3 && all[k] == ext;
    }
}

/// Videos and music are the files with these extensions and no others.
pub proof fn law_media(ext: Seq<char>)
    ensures
        in_category("media"@, ext) <==> seq![
            "mp4"@,
            "mkv"@,
            "mov"@,
            "avi"@,
            "mp3"@,
            "wav"@,
            "flac"@,
            "m4a"@,
        ].contains(ext),
{
    lemma_categories_differ();
    let all = seq![
        "mp4"@,
        "mkv"@,
        "mov"@,
        "avi"@,
        "mp3"@,
        "wav"@,
        "flac"@,
        "m4a"@,
    ];
    assert(all.len() == 8);
    assert(all[0] == "mp4"@ && all[1] == "mkv"@ && all[2] == "mov"@ && all[3] == "avi"@);
    assert(all[4] == "mp3"@ && all[5] == "wav"@ && all[6] == "flac"@ && all[7] == "m4a"@);
    if all.contains(ext) {
        let k = choose|k: int| 0 <= k < 8 && all[k] == ext;
    }
}

/// The names of the categories differ in more than case.
proof fn lemma_categories_differ()
    ensures
        !same_but_ascii_case("pictures"@, "documents"@),
        !same_but_ascii_case("pictures"@, "apps"@),
        !same_but_ascii_case("pictures"@, "media"@),
        !same_but_ascii_case("pictures"@, "folders"@),
        !same_but_ascii_case("documents"@, "apps"@),
        !same_but_ascii_case("documents"@, "media"@),
        !same_but_ascii_case("documents"@, "folders"@),
        !same_but_ascii_case("apps"@, "media"@),
        !same_but_ascii_case("apps"@, "folders"@),
        !same_but_ascii_case("media"@, "folders"@),
{
    reveal_strlit("pictures");
    reveal_strlit("documents");
    reveal_strlit("apps");
    reveal_strlit("media");
    reveal_strlit("folders");
    assert(ascii_lowered("pictures"@).len() == 8);
    assert(ascii_lowered("documents"@).len() == 9);
    assert(ascii_lowered("apps"@).len() == 4);
    assert(ascii_lowered("media"@).len() == 5);
    assert(ascii_lowered("folders"@).len() == 7);
}

/// The extensions of different categories begin differently.
proof fn lemma_extensions_differ(ext: Seq<char>)
    ensures
        ({
            let p = in_category("pictures"@, ext);
            let d = in_category("documents"@, ext);
            let a = in_category("apps"@, ext);
            let m = in_category("media"@, ext);
            &&& !(p && d) && !(p && a) && !(p && m) && !(d && a) && !(d && m) && !(a && m)
        }),
{
    lemma_categories_differ();
    reveal_strlit("png");
    reveal_strlit("jpg");
    reveal_strlit("jpeg");
    reveal_strlit("gif");
    reveal_strlit("bmp");
    reveal_strlit("webp");
    reveal_strlit("heic");
    reveal_strlit("svg");
    reveal_strlit("pdf");
    reveal_strlit("doc");
    reveal_strlit("docx");
    reveal_strlit("xls");
    reveal_strlit("xlsx");
    reveal_strlit("ppt");
    reveal_strlit("pptx");
    reveal_strlit("txt");
    reveal_strlit("rtf");
    reveal_strlit("csv");
    reveal_strlit("odt");
    reveal_strlit("exe");
    reveal_strlit("lnk");
    reveal_strlit("url");
    reveal_strlit("mp4");
    reveal_strlit("mkv");
    reveal_strlit("mov");
    reveal_strlit("avi");
    reveal_strlit("mp3");
    reveal_strlit("wav");
    reveal_strlit("flac");
    reveal_strlit("m4a");
    assert(in_category("pictures"@, ext) ==> {
        ||| ext[0] == 'p' && ext[1] == 'n'
        ||| ext[0] == 'j' && ext[1] == 'p'
        ||| ext[0] == 'g' && ext[1] == 'i'
        ||| ext[0] == 'b' && ext[1] == 'm'
        ||| ext[0] == 'w' && ext[1] == 'e'
        ||| ext[0] == 'h' && ext[1] == 'e'
        ||| ext[0] == 's' && ext[1] == 'v'
    });
    assert(in_category("documents"@, ext) ==> {
        ||| ext[0] == 'p' && ext[1] == 'd'
        ||| ext[0] == 'd' && ext[1] == 'o'
        ||| ext[0] == 'x' && ext[1] == 'l'
        ||| ext[0] == 'p' && ext[1] == 'p'
        ||| ext[0] == 't' && ext[1] == 'x'
        ||| ext[0] == 'r' && ext[1] == 't'
        ||| ext[0] == 'c' && ext[1] == 's'
        ||| ext[0] == 'o' && ext[1] == 'd'
    });
    assert(in_category("apps"@, ext) ==> {
        ||| ext[0] == 'e' && ext[1] == 'x'
        ||| ext[0] == 'l' && ext[1] == 'n'
        ||| ext[0] == 'u' && ext[1] == 'r'
    });
    assert(in_category("media"@, ext) ==> {
        ||| ext[0] == 'm' && ext[1] == 'p'
        ||| ext[0] == 'm' && ext[1] == 'k'
        ||| ext[0] == 'm' && ext[1] == 'o'
        ||| ext[0] == 'a' && ext[1] == 'v'
        ||| ext[0] == 'w' && ext[1] == 'a'
        ||| ext[0] == 'f' && ext[1] == 'l'
        ||| ext[0] == 'm' && ext[1] == '4'
    });
}

/// No extension belongs to two categories, a category may be written in any
/// case, and there are no other categories of extensions; "folders" has none.
pub proof fn law_categories_are_apart(a: Seq<char>, b: Seq<char>, ext: Seq<char>)
    ensures
        in_category(a, ext) && in_category(b, ext) ==> same_but_ascii_case(a, b),
        same_but_ascii_case(a, b) ==> in_category(a, ext) == in_category(b, ext),
        in_category(a, ext) ==> same_but_ascii_case(a, "pictures"@) || same_but_ascii_case(
            a,
            "documents"@,
        ) || same_but_ascii_case(a, "apps"@) || same_but_ascii_case(a, "media"@),
        !in_category("folders"@, ext),
{
    lemma_categories_differ();
    lemma_extensions_differ(ext);
}

/// A rule for a category of files accepts a file whose name has an extension
/// of that category behind its last dot, in any case, and neither a directory
/// nor a file without an extension.
pub proof fn law_category_rule(value: Seq<char>, stem: Seq<char>, ext: Seq<char>, is_dir: bool)
    requires
        !ext.contains('.'),
        !same_but_ascii_case(value, "folders"@),
    ensures
        ({
            let rule = RuleView { kind: RuleKind::Category, value };
            &&& stem.len() > 0 ==> rule_accepts(rule, Some(stem.push('.') + ext), is_dir) == (
            !is_dir && in_category(value, folded(ext)))
            &&& !rule_accepts(rule, Some(ext), is_dir)
            &&& !rule_accepts(rule, Some(seq!['.'] + ext), is_dir)
            &&& !rule_accepts(rule, None, is_dir)
        }),
{
    crate::path::law_extension_and_stem(stem, ext);
}

/// The rule for folders accepts every directory and nothing else, whatever it
/// is called.
pub proof fn law_folder_rule(value: Seq<char>, name: Option<Seq<char>>, is_dir: bool)
    requires
        same_but_ascii_case(value, "folders"@),
    ensures
        rule_accepts(RuleView { kind: RuleKind::Category, value }, name, is_dir) == is_dir,
{
}

/// A rule by name accepts files and directories whose names hold its text
/// somewhere, in any case; a rule without a text accepts nothing.
pub proof fn law_name_rule(
    value: Seq<char>,
    name: Seq<char>,
    front: Seq<char>,
    back: Seq<char>,
    is_dir: bool,
)
    ensures
        ({
            let rule = RuleView { kind: RuleKind::NameContains, value };
            &&& value.len() > 0 && folded(name) == front + folded(value) + back ==> rule_accepts(
                rule,
                Some(name),
                is_dir,
            )
            &&& rule_accepts(rule, Some(name), is_dir) ==> value.len() > 0 && exists|
                a: Seq<char>,
                b: Seq<char>,
            |
                folded(name) == #[trigger] (a + folded(value) + b)
            &&& rule_accepts(rule, Some(name), true) == rule_accepts(rule, Some(name), false)
        }),
{
    crate::text::law_occurring(front, folded(value), back, folded(name));
}

/// A rule by file type accepts files whose extension is its value, in any
/// case and whether the value is written with a dot or without; it accepts no
/// directory and no file without an extension, and without a value nothing.
pub proof fn law_extension_rule(value: Seq<char>, stem: Seq<char>, ext: Seq<char>, is_dir: bool)
    requires
        !ext.contains('.'),
        value.len() > 0 ==> value[0] != '.',
    ensures
        ({
            let rule = RuleView { kind: RuleKind::Extension, value };
            let dotted = RuleView { kind: RuleKind::Extension, value: seq!['.'] + value };
            let file = Some(stem.push('.') + ext);
            &&& stem.len() > 0 ==> rule_accepts(rule, file, is_dir) == (!is_dir && folded(
                value,
            ).len() > 0 && folded(ext) == folded(value))
            &&& rule_accepts(dotted, file, is_dir) == rule_accepts(rule, file, is_dir)
            &&& !rule_accepts(rule, Some(ext), is_dir)
            &&& !rule_accepts(rule, Some(seq!['.'] + ext), is_dir)
            &&& !rule_accepts(rule, None, is_dir)
        }),
{
    crate::path::law_extension_and_stem(stem, ext);
    let dotted = seq!['.'] + value;
    assert(dotted.skip(1) =~= value);
    reveal_with_fuel(without_leading, 2);
}

/// Rules are the same if they are of one kind and their values agree but for
/// case.
pub proof fn law_same_rules(a: RuleView, b: RuleView)
    ensures
        a.kind != b.kind ==> !same_rule(a, b),
        a.kind == b.kind && same_but_ascii_case(a.value, b.value) ==> same_rule(a, b),
        same_rule(a, b) ==> folded(a.value) == folded(b.value),
        same_rule(a, b) == same_rule(b, a),
{
}

/// The first fence with a rule that accepts an item gets it: some rule of that
/// fence accepts the item and no rule of an earlier fence does. No fence gets
/// it only if no rule at all accepts it.
pub proof fn law_first_match_decides(
    fences: Seq<FenceView>,
    name: Option<Seq<char>>,
    is_dir: bool,
)
    ensures
        match matching_fence(fences, name, is_dir) {
            Some(id) => exists|i: int|
                {
                    &&& 0 <= i < fences.len()
                    &&& (#[trigger] fences[i]).id == id
                    &&& some_rule_accepts(fences[i].rules, name, is_dir)
                    &&& forall|j: int|
                        0 <= j < i ==> !some_rule_accepts(
                            (#[trigger] fences[j]).rules,
                            name,
                            is_dir,
                        )
                },
            None => forall|j: int|
                0 <= j < fences.len() ==> !some_rule_accepts(
                    (#[trigger] fences[j]).rules,
                    name,
                    is_dir,
                ),
        },
{
    let p = fence_accepts(name, is_dir);
    crate::list::lemma_first_index(fences, p);
    assert forall|j: int| 0 <= j < fences.len() implies p(#[trigger] fences[j])
        == some_rule_accepts(fences[j].rules, name, is_dir) by {}
    if first_index(fences, p) is Some {
        let i = first_index(fences, p)->0;
        assert(fences[i].id == matching_fence(fences, name, is_dir)->0);
    }
}

/// Whether a rule of a list accepts an item.
pub open spec fn some_rule_accepts(
    rules: Seq<RuleView>,
    name: Option<Seq<char>>,
    is_dir: bool,
) -> bool {
    exists|k: int| 0 <= k < rules.len() && rule_accepts(#[trigger] rules[k], name, is_dir)
}

} // verus!
