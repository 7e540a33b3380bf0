//! The layout: fences, where they stand, what they look like, which items
//! they hold and which rules they sort by.

use std::path::PathBuf;
use vstd::prelude::*;
use vstd::utf8::{decode_utf8, valid_utf8};
use crate::list::{
    among, copy_of, extend, first_index, lemma_filter_all, lemma_first_index, lemma_is_first,
    lemma_is_nowhere, select,
};
use crate::number::{decimal, law_numeral_round_trip, parse_number, parsed, push_numeral};
use crate::path::{config_dir, opt_place, Place, PlaceView};
use crate::rules::{Rule, RuleView};
use crate::text::{
    same_text, strip_prefix, stripped_prefix, text_of_bytes, texts, trim_leading,
    without_leading,
};

verus! {

/// A single-precision number, carried by its IEEE 754 bit pattern. The
/// library keeps and copies such numbers and never computes with them.
#[derive(Clone, Copy, PartialEq, Eq, Structural, Debug)]
pub struct Real {
    pub bits: u32,
}

/// The bit pattern of 0.78.
pub const DEFAULT_OPACITY_BITS: u32 = 0x3F47_AE14;

/// The bit pattern of 12.
pub const DEFAULT_RADIUS_BITS: u32 = 0x4140_0000;

/// One fence of the layout. Coordinates are physical pixels of the virtual
/// desktop. While a fence is rolled up, `h` keeps its restored height.
#[derive(Debug)]
pub struct FenceConfig {
    pub id: String,
    pub title: String,
    pub x: i32,
    pub y: i32,
    pub w: i32,
    pub h: i32,
    pub monitor: u32,
    pub rolled_up: bool,
    pub color: String,
    pub opacity: Real,
    pub corner_radius: Real,
    pub items: Vec<String>,
    pub rules: Vec<Rule>,
}

#[derive(Debug)]
pub struct Config {
    pub version: u32,
    pub icon_size: u32,
    pub fences: Vec<FenceConfig>,
}

#[verifier::ext_equal]
pub struct FenceView {
    pub id: Seq<char>,
    pub title: Seq<char>,
    pub x: i32,
    pub y: i32,
    pub w: i32,
    pub h: i32,
    pub monitor: u32,
    pub rolled_up: bool,
    pub color: Seq<char>,
    pub opacity: Real,
    pub corner_radius: Real,
    pub items: Seq<Seq<char>>,
    pub rules: Seq<RuleView>,
}

#[verifier::ext_equal]
pub struct ConfigView {
    pub version: u32,
    pub icon_size: u32,
    pub fences: Seq<FenceView>,
}

/// A fence with other items.
pub open spec fn holding(f: FenceView, items: Seq<Seq<char>>) -> FenceView {
    FenceView { items, ..f }
}

/// The rules of a list, each by its kind and characters.
pub open spec fn rule_views(v: Seq<Rule>) -> Seq<RuleView> {
    Seq::new(v.len(), |i: int| v[i]@)
}

impl View for FenceConfig {
    type V = FenceView;

    open spec fn view(&self) -> FenceView {
        FenceView {
            id: self.id@,
            title: self.title@,
            x: self.x,
            y: self.y,
            w: self.w,
            h: self.h,
            monitor: self.monitor,
            rolled_up: self.rolled_up,
            color: self.color@,
            opacity: self.opacity,
            corner_radius: self.corner_radius,
            items: texts(self.items@),
            rules: rule_views(self.rules@),
        }
    }
}

pub open spec fn fence_views(v: Seq<FenceConfig>) -> Seq<FenceView> {
    Seq::new(v.len(), |i: int| v[i]@)
}

impl View for Config {
    type V = ConfigView;

    open spec fn view(&self) -> ConfigView {
        ConfigView {
            version: self.version,
            icon_size: self.icon_size,
            fences: fence_views(self.fences@),
        }
    }
}

impl Clone for FenceConfig {
    fn clone(&self) -> (r: Self)
        ensures
            r@ == self@,
    {
        let mut rules: Vec<Rule> = Vec::new();
        let mut i: usize = 0;
        while i < self.rules.len()
            invariant
                i <= self.rules@.len(),
                rules@.len() == i,
                forall|k: int| 0 <= k < i ==> (#[trigger] rules@[k])@ == self.rules@[k]@,
            decreases self.rules@.len() - i,
        {
            rules.push(self.rules[i].clone());
            i = i + 1;
        }
        assert(rule_views(rules@) =~= rule_views(self.rules@));
        FenceConfig {
            id: self.id.clone(),
            title: self.title.clone(),
            x: self.x,
            y: self.y,
            w: self.w,
            h: self.h,
            monitor: self.monitor,
            rolled_up: self.rolled_up,
            color: self.color.clone(),
            opacity: self.opacity,
            corner_radius: self.corner_radius,
            items: copy_of(&self.items),
            rules,
        }
    }
}

/// A fence with the standard color, opacity and corners, on the first
/// monitor, open, without items and rules.
pub open spec fn plain_fence(
    id: Seq<char>,
    title: Seq<char>,
    x: i32,
    y: i32,
    w: i32,
    h: i32,
) -> FenceView {
    FenceView {
        id,
        title,
        x,
        y,
        w,
        h,
        monitor: 0,
        rolled_up: false,
        color: "#1E1E2E"@,
        opacity: Real { bits: DEFAULT_OPACITY_BITS },
        corner_radius: Real { bits: DEFAULT_RADIUS_BITS },
        items: Seq::empty(),
        rules: Seq::empty(),
    }
}

impl FenceConfig {
    pub fn plain(id: String, title: &str, x: i32, y: i32, w: i32, h: i32) -> (r: Self)
        ensures
            r@ == plain_fence(id@, title@, x, y, w, h),
    {
        let r = FenceConfig {
            id,
            title: title.to_owned(),
            x,
            y,
            w,
            h,
            monitor: 0,
            rolled_up: false,
            color: "#1E1E2E".to_owned(),
            opacity: Real { bits: DEFAULT_OPACITY_BITS },
            corner_radius: Real { bits: DEFAULT_RADIUS_BITS },
            items: Vec::new(),
            rules: Vec::new(),
        };
        assert(texts(r.items@) =~= Seq::<Seq<char>>::empty());
        assert(rule_views(r.rules@) =~= Seq::<RuleView>::empty());
        r
    }
}

/// The catch-all fence, as it is created.
pub open spec fn new_unsorted(id: Seq<char>) -> FenceView {
    plain_fence(id, "Unsorted"@, 100, 80, 420, 300)
}

/// The layout of a program that has none yet: one catch-all fence.
pub open spec fn default_config() -> ConfigView {
    ConfigView { version: 2, icon_size: 48, fences: seq![new_unsorted("fence-1"@)] }
}

impl Default for Config {
    fn default() -> (r: Self)
        ensures
            r@ == default_config(),
    {
        let mut fences: Vec<FenceConfig> = Vec::new();
        fences.push(FenceConfig::plain("fence-1".to_owned(), "Unsorted", 100, 80, 420, 300));
        assert(fence_views(fences@) =~= seq![new_unsorted("fence-1"@)]);
        Config { version: 2, icon_size: 48, fences }
    }
}

/// The number N of an id "fence-N".
pub open spec fn fence_number(id: Seq<char>) -> Option<u32> {
    match stripped_prefix(id, "fence-"@) {
        Some(rest) => parsed(rest, 10),
        None => None,
    }
}

/// The highest number of any fence; 0 if none is numbered.
pub open spec fn highest_number(fences: Seq<FenceView>) -> nat
    decreases fences.len(),
{
    if fences.len() == 0 {
        0
    } else {
        let rest = highest_number(fences.drop_last());
        match fence_number(fences.last().id) {
            Some(n) => if n as nat > rest {
                n as nat
            } else {
                rest
            },
            None => rest,
        }
    }
}

/// The id after the highest number of any fence.
pub open spec fn next_id(fences: Seq<FenceView>) -> Seq<char> {
    "fence-"@ + decimal(highest_number(fences) + 1)
}

/// Whether another fence can be numbered.
pub open spec fn has_free_number(fences: Seq<FenceView>) -> bool {
    highest_number(fences) < u32::MAX
}

/// The highest number of any fence.
fn highest(cfg: &Config) -> (r: u32)
    ensures
        r == highest_number(cfg@.fences),
{
    let mut highest: u32 = 0;
    let mut i: usize = 0;
    let ghost all = cfg@.fences;
    while i < cfg.fences.len()
        invariant
            all == cfg@.fences,
            i <= cfg.fences@.len(),
            highest == highest_number(all.take(i as int)),
        decreases cfg.fences@.len() - i,
    {
        proof {
            assert(all.take(i + 1).drop_last() =~= all.take(i as int));
            assert(all.take(i + 1).last().id == cfg.fences@[i as int].id@);
        }
        match strip_prefix(&cfg.fences[i].id, "fence-") {
            Some(rest) => match parse_number(&rest, 10) {
                Some(n) => {
                    if n > highest {
                        highest = n;
                    }
                },
                None => {},
            },
            None => {},
        }
        i = i + 1;
    }
    assert(all.take(all.len() as int) =~= all);
    highest
}

/// Whether another fence can be numbered.
pub fn number_is_free(cfg: &Config) -> (r: bool)
    ensures
        r == has_free_number(cfg@.fences),
{
    highest(cfg) < u32::MAX
}

/// Next unused "fence-N" id.
pub fn next_id_for(cfg: &Config) -> (r: String)
    requires
        has_free_number(cfg@.fences),
    ensures
        r@ == next_id(cfg@.fences),
{
    let mut id = "fence-".to_owned();
    push_numeral(&mut id, highest(cfg) as u64 + 1, 10);
    id
}

proof fn lemma_highest_number(fences: Seq<FenceView>, i: int)
    requires
        0 <= i < fences.len(),
    ensures
        fence_number(fences[i].id) matches Some(n) ==> n <= highest_number(fences),
    decreases fences.len(),
{
    if i < fences.len() - 1 {
        lemma_highest_number(fences.drop_last(), i);
        assert(fences.drop_last()[i] == fences[i]);
    }
}

/// The next id is the id of no fence, and is itself numbered one above the
/// highest.
pub proof fn law_next_id_is_unused(fences: Seq<FenceView>)
    requires
        has_free_number(fences),
    ensures
        fence_number(next_id(fences)) == Some((highest_number(fences) + 1) as u32),
        forall|i: int| 0 <= i < fences.len() ==> (#[trigger] fences[i]).id != next_id(fences),
{
    let id = next_id(fences);
    let n = highest_number(fences) + 1;
    law_numeral_round_trip(n, 10);
    assert(id.take("fence-"@.len() as int) =~= "fence-"@);
    assert(id.skip("fence-"@.len() as int) =~= decimal(n));
    assert forall|i: int| 0 <= i < fences.len() implies (#[trigger] fences[i]).id != id by {
        lemma_highest_number(fences, i);
    }
}

/// Whether a fence has the id `id`.
pub open spec fn has_id(id: Seq<char>) -> spec_fn(FenceView) -> bool {
    |f: FenceView| f.id == id
}

/// Whether a fence is titled "Unsorted".
pub open spec fn is_unsorted() -> spec_fn(FenceView) -> bool {
    |f: FenceView| f.title == "Unsorted"@
}

/// Where the first fence with an id stands.
pub open spec fn fence_at(fences: Seq<FenceView>, id: Seq<char>) -> Option<int> {
    first_index(fences, has_id(id))
}

/// Where the catch-all fence stands: the first one titled "Unsorted".
pub open spec fn unsorted_at(fences: Seq<FenceView>) -> Option<int> {
    first_index(fences, is_unsorted())
}

/// Finds the fence with an id.
pub fn fence_index(cfg: &Config, id: &str) -> (r: Option<usize>)
    ensures
        match r {
            Some(i) => fence_at(cfg@.fences, id@) == Some(i as int) && i < cfg.fences@.len(),
            None => fence_at(cfg@.fences, id@) is None,
        },
{
    let mut i: usize = 0;
    while i < cfg.fences.len()
        invariant
            i <= cfg.fences@.len(),
            forall|j: int| 0 <= j < i ==> (#[trigger] cfg@.fences[j]).id != id@,
        decreases cfg.fences@.len() - i,
    {
        if same_text(&cfg.fences[i].id, id) {
            proof {
                assert(cfg@.fences[i as int].id == id@);
                lemma_is_first(cfg@.fences, has_id(id@), i as int);
            }
            return Some(i);
        }
        i = i + 1;
    }
    proof {
        lemma_is_nowhere(cfg@.fences, has_id(id@));
    }
    None
}

/// Finds the catch-all fence.
pub fn unsorted_index(cfg: &Config) -> (r: Option<usize>)
    ensures
        match r {
            Some(i) => unsorted_at(cfg@.fences) == Some(i as int) && i < cfg.fences@.len(),
            None => unsorted_at(cfg@.fences) is None,
        },
{
    let mut i: usize = 0;
    while i < cfg.fences.len()
        invariant
            i <= cfg.fences@.len(),
            forall|j: int| 0 <= j < i ==> (#[trigger] cfg@.fences[j]).title != "Unsorted"@,
        decreases cfg.fences@.len() - i,
    {
        if same_text(&cfg.fences[i].title, "Unsorted") {
            proof {
                assert(cfg@.fences[i as int].title == "Unsorted"@);
                lemma_is_first(cfg@.fences, is_unsorted(), i as int);
            }
            return Some(i);
        }
        i = i + 1;
    }
    proof {
        lemma_is_nowhere(cfg@.fences, is_unsorted());
    }
    None
}

/// The fences with a catch-all fence among them.
pub open spec fn with_unsorted(fences: Seq<FenceView>) -> Seq<FenceView> {
    if unsorted_at(fences) is Some {
        fences
    } else {
        fences.push(new_unsorted(next_id(fences)))
    }
}

/// Whether a catch-all fence is there or can be made.
pub open spec fn can_have_unsorted(fences: Seq<FenceView>) -> bool {
    unsorted_at(fences) is Some || has_free_number(fences)
}

/// Index of the "Unsorted" fence, which is created with its standard
/// geometry if there is none.
pub fn ensure_unsorted(cfg: &mut Config) -> (r: usize)
    requires
        can_have_unsorted(old(cfg)@.fences),
    ensures
        final(cfg)@ == (ConfigView { fences: with_unsorted(old(cfg)@.fences), ..old(cfg)@ }),
        unsorted_at(final(cfg)@.fences) == Some(r as int),
        r < final(cfg).fences@.len(),
{
    match unsorted_index(cfg) {
        Some(i) => i,
        None => {
            let ghost before = cfg@.fences;
            let id = next_id_for(cfg);
            cfg.fences.push(FenceConfig::plain(id, "Unsorted", 100, 80, 420, 300));
            proof {
                assert(cfg@.fences =~= before.push(new_unsorted(next_id(before))));
                lemma_first_index(before, is_unsorted());
                assert forall|j: int| 0 <= j < before.len() implies !is_unsorted()(
                    #[trigger] cfg@.fences[j],
                ) by {
                    assert(before[j] == cfg@.fences[j]);
                }
                lemma_is_first(cfg@.fences, is_unsorted(), before.len() as int);
            }
            cfg.fences.len() - 1
        },
    }
}

impl Clone for Config {
    fn clone(&self) -> (r: Self)
        ensures
            r@ == self@,
    {
        let mut fences: Vec<FenceConfig> = Vec::new();
        let mut i: usize = 0;
        while i < self.fences.len()
            invariant
                i <= self.fences@.len(),
                fences@.len() == i,
                forall|k: int| 0 <= k < i ==> (#[trigger] fences@[k])@ == self.fences@[k]@,
            decreases self.fences@.len() - i,
        {
            fences.push(self.fences[i].clone());
            i = i + 1;
        }
        assert(fence_views(fences@) =~= fence_views(self.fences@));
        Config { version: self.version, icon_size: self.icon_size, fences }
    }
}

/// The items of all fences, fence by fence.
pub open spec fn items_of(fences: Seq<FenceView>) -> Seq<Seq<char>>
    decreases fences.len(),
{
    if fences.len() == 0 {
        Seq::empty()
    } else {
        items_of(fences.drop_last()) + fences.last().items
    }
}

/// The items of all fences, fence by fence.
pub fn all_items(cfg: &Config) -> (r: Vec<String>)
    ensures
        texts(r@) == items_of(cfg@.fences),
{
    let ghost all = cfg@.fences;
    let mut out: Vec<String> = Vec::new();
    let mut i: usize = 0;
    assert(texts(out@) =~= items_of(all.take(0)));
    while i < cfg.fences.len()
        invariant
            all == cfg@.fences,
            i <= cfg.fences@.len(),
            texts(out@) == items_of(all.take(i as int)),
        decreases cfg.fences@.len() - i,
    {
        proof {
            assert(all.take(i + 1).drop_last() =~= all.take(i as int));
            assert(all.take(i + 1).last() == cfg.fences@[i as int]@);
        }
        extend(&mut out, &cfg.fences[i].items);
        i = i + 1;
    }
    assert(all.take(all.len() as int) =~= all);
    out
}

/// How often an item is in the fences, counted over all of them.
pub open spec fn times_held(fences: Seq<FenceView>, item: Seq<char>) -> nat {
    items_of(fences).to_multiset().count(item)
}

/// Changing one fence changes the count by what changed in that fence.
pub proof fn lemma_times_held_update(fences: Seq<FenceView>, i: int, f: FenceView, item: Seq<char>)
    requires
        0 <= i < fences.len(),
    ensures
        times_held(fences.update(i, f), item) + fences[i].items.to_multiset().count(item)
            == times_held(fences, item) + f.items.to_multiset().count(item),
    decreases fences.len(),
{
    let n = fences.len() - 1;
    let after = fences.update(i, f);
    let rest = fences.drop_last();
    vstd::seq_lib::lemma_multiset_commutative(items_of(rest), fences.last().items);
    vstd::seq_lib::lemma_multiset_commutative(items_of(after.drop_last()), after.last().items);
    if i < n {
        lemma_times_held_update(rest, i, f, item);
        assert(after.drop_last() =~= rest.update(i, f));
    } else {
        assert(after.drop_last() =~= rest);
    }
}

/// Taking a fence away takes its items away.
pub proof fn lemma_times_held_remove(fences: Seq<FenceView>, i: int, item: Seq<char>)
    requires
        0 <= i < fences.len(),
    ensures
        times_held(fences.remove(i), item) + fences[i].items.to_multiset().count(item)
            == times_held(fences, item),
    decreases fences.len(),
{
    let n = fences.len() - 1;
    let after = fences.remove(i);
    let rest = fences.drop_last();
    vstd::seq_lib::lemma_multiset_commutative(items_of(rest), fences.last().items);
    if i < n {
        vstd::seq_lib::lemma_multiset_commutative(items_of(after.drop_last()), after.last().items);
        lemma_times_held_remove(rest, i, item);
        assert(after.drop_last() =~= rest.remove(i));
        assert(after.last() == fences.last());
    } else {
        assert(after =~= rest);
    }
}

/// A new fence adds its items.
pub proof fn lemma_times_held_push(fences: Seq<FenceView>, f: FenceView, item: Seq<char>)
    ensures
        times_held(fences.push(f), item) == times_held(fences, item)
            + f.items.to_multiset().count(item),
{
    assert(fences.push(f).drop_last() =~= fences);
    vstd::seq_lib::lemma_multiset_commutative(items_of(fences), f.items);
}

/// Where a file of the program's own directory is, below the directory for
/// settings.
pub open spec fn own_file(dir: PathBuf, name: Seq<char>) -> PlaceView {
    PlaceView { dir, names: seq!["orbirus"@, name] }
}

/// Where a file of the program's own directory is.
pub fn own_path(dir: PathBuf, name: &str) -> (r: Place)
    ensures
        r@ == own_file(dir, name@),
{
    let mut names: Vec<String> = Vec::new();
    names.push("orbirus".to_owned());
    names.push(name.to_owned());
    assert(texts(names@) =~= seq!["orbirus"@, name@]);
    Place { dir, names }
}

/// Where a file of the program's own directory is, below a directory for
/// settings that may be missing: it has a place if and only if that directory
/// is there.
pub open spec fn own_file_below(dir: Option<PathBuf>, name: Seq<char>) -> Option<PlaceView> {
    match dir {
        Some(d) => Some(own_file(d, name)),
        None => None,
    }
}

/// Where a file of the program's own directory is, given the directory for
/// settings, if there is one.
pub fn own_path_below(dir: Option<PathBuf>, name: &str) -> (r: Option<Place>)
    ensures
        opt_place(r) == own_file_below(dir, name@),
{
    match dir {
        Some(d) => Some(own_path(d, name)),
        None => None,
    }
}

/// Where a file of the program's own directory is, below the directory for
/// settings that `config_dir` finds now. Whether it finds one, and which,
/// depends on the user and the machine.
fn own_path_now(name: &str) -> (r: Option<Place>)
    ensures
        exists|dir: Option<PathBuf>| opt_place(r) == #[trigger] own_file_below(dir, name@),
{
    own_path_below(config_dir(), name)
}

/// Where the layout is kept, if there is a directory for settings.
pub fn path() -> (r: Option<Place>)
    ensures
        exists|dir: Option<PathBuf>|
            opt_place(r) == #[trigger] own_file_below(dir, "config.json"@),
{
    own_path_now("config.json")
}

/// Where a layout that cannot be read is set aside, if there is a directory
/// for settings.
pub fn bad_path() -> (r: Option<Place>)
    ensures
        exists|dir: Option<PathBuf>|
            opt_place(r) == #[trigger] own_file_below(dir, "config.json.bad"@),
{
    own_path_now("config.json.bad")
}

/// Where the layout is written before it takes the place of the last one, if
/// there is a directory for settings.
pub fn temporary_path() -> (r: Option<Place>)
    ensures
        exists|dir: Option<PathBuf>|
            opt_place(r) == #[trigger] own_file_below(dir, "config.json.tmp"@),
{
    own_path_now("config.json.tmp")
}

/// The directory that holds snapshots of the layout, if there is a directory
/// for settings.
pub fn snapshots_dir() -> (r: Option<Place>)
    ensures
        exists|dir: Option<PathBuf>|
            opt_place(r) == #[trigger] own_file_below(dir, "snapshots"@),
{
    own_path_now("snapshots")
}

/// What became of the attempt to load the layout.
#[derive(Debug)]
pub enum LoadResult {
    Loaded(Config),
    /// There is no file.
    Missing,
    /// There is a file, and it does not hold a layout.
    Corrupt,
}

/// What was found where the layout is kept.
#[derive(Debug)]
pub enum LayoutFile {
    /// There is no file.
    Absent,
    /// There is a file, and no text can be read from it.
    NoText,
    /// The text of the file, without byte order marks in front.
    Text(String),
}

/// The text of a layout file without the byte order marks that an editor may
/// have put in front of it.
pub fn layout_text(text: &str) -> (r: String)
    ensures
        r@ == without_leading(text@, '\u{feff}'),
{
    trim_leading(text, '\u{feff}')
}

/// What a layout file with these bytes is: its text, if the bytes are UTF-8.
pub fn layout_file(bytes: Vec<u8>) -> (r: LayoutFile)
    ensures
        if valid_utf8(bytes@) {
            r matches LayoutFile::Text(t) && t@ == without_leading(
                decode_utf8(bytes@),
                '\u{feff}',
            )
        } else {
            r is NoText
        },
{
    match text_of_bytes(bytes) {
        Some(text) => LayoutFile::Text(layout_text(&text)),
        None => LayoutFile::NoText,
    }
}

/// A layout that was read: of the current version, and with only those items
/// that are still there.
pub open spec fn brought_up(c: ConfigView, existing: Seq<Seq<char>>) -> ConfigView {
    ConfigView {
        version: 2,
        fences: c.fences.map_values(
            |f: FenceView| FenceView { items: f.items.filter(among(existing, true)), ..f },
        ),
        ..c
    }
}

/// Brings a layout that was read up to date. `existing` are those of its
/// items that are still there.
pub fn bring_up(cfg: &mut Config, existing: &Vec<String>)
    ensures
        final(cfg)@ == brought_up(old(cfg)@, texts(existing@)),
{
    let ghost start = cfg@;
    let ghost want = brought_up(start, texts(existing@)).fences;
    cfg.version = 2;
    let mut i: usize = 0;
    while i < cfg.fences.len()
        invariant
            i <= cfg.fences@.len() == start.fences.len() == want.len(),
            want == brought_up(start, texts(existing@)).fences,
            cfg@.version == 2,
            cfg@.icon_size == start.icon_size,
            forall|k: int| 0 <= k < i ==> (#[trigger] cfg@.fences[k]) == want[k],
            forall|k: int| i <= k < start.fences.len() ==> (#[trigger] cfg@.fences[k])
                == start.fences[k],
        decreases cfg.fences@.len() - i,
    {
        let ghost before = cfg@.fences;
        let ghost f = before[i as int];
        let len: usize = cfg.fences[i].items.len();
        let items = select(&cfg.fences[i].items, 0, len, existing, true);
        assert(f.items.subrange(0, len as int) =~= f.items);
        cfg.fences[i].items = items;
        proof {
            assert(want[i as int] == (FenceView {
                items: f.items.filter(among(texts(existing@), true)),
                ..f
            }));
            assert(cfg@.fences =~= before.update(i as int, want[i as int]));
        }
        i = i + 1;
    }
    assert(cfg@.fences =~= want);
}

/// What became of the attempt to load the layout: `file` is what was found,
/// and `layout` is the layout that its text holds, if any. A file that is
/// there and holds none, be it for want of a text, is corrupt, and is to be
/// set aside.
pub fn load_result(file: &LayoutFile, layout: Option<Config>, existing: &Vec<String>) -> (r:
    LoadResult)
    ensures
        match *file {
            LayoutFile::Absent => r is Missing,
            LayoutFile::NoText => r is Corrupt,
            LayoutFile::Text(_) => match layout {
                Some(c) => r matches LoadResult::Loaded(l) && l@ == brought_up(
                    c@,
                    texts(existing@),
                ),
                None => r is Corrupt,
            },
        },
{
    match file {
        LayoutFile::Absent => LoadResult::Missing,
        LayoutFile::NoText => LoadResult::Corrupt,
        LayoutFile::Text(_) => match layout {
            Some(c) => {
                let mut cfg = c;
                bring_up(&mut cfg, existing);
                LoadResult::Loaded(cfg)
            },
            None => LoadResult::Corrupt,
        },
    }
}

/// Bringing a layout up to date twice does nothing more.
pub proof fn law_bring_up_is_idempotent(c: ConfigView, existing: Seq<Seq<char>>)
    ensures
        brought_up(brought_up(c, existing), existing) == brought_up(c, existing),
{
    let once = brought_up(c, existing);
    assert forall|i: int| 0 <= i < c.fences.len() implies once.fences[i].items.filter(
        among(existing, true),
    ) == #[trigger] once.fences[i].items by {
        let items = c.fences[i].items;
        let kept = items.filter(among(existing, true));
        assert forall|k: int| 0 <= k < kept.len() implies among(existing, true)(
            #[trigger] kept[k],
        ) by {
            items.lemma_filter_pred(among(existing, true), k);
        }
        lemma_filter_all(kept, among(existing, true));
    }
    assert(brought_up(once, existing).fences =~= once.fences);
}

/// A layout of the current version whose items are all still there is read
/// back as it is.
pub proof fn law_restore_keeps_layout(c: ConfigView, existing: Seq<Seq<char>>)
    requires
        c.version == 2,
        forall|i: int, k: int|
            #![trigger c.fences[i].items[k]]
            0 <= i < c.fences.len() && 0 <= k < c.fences[i].items.len() ==> existing.contains(
                c.fences[i].items[k],
            ),
    ensures
        brought_up(c, existing) == c,
{
    let p = among(existing, true);
    assert forall|i: int| 0 <= i < c.fences.len() implies brought_up(c, existing).fences[i]
        == #[trigger] c.fences[i] by {
        let items = c.fences[i].items;
        assert forall|k: int| 0 <= k < items.len() implies p(#[trigger] items[k]) by {
            assert(existing.contains(c.fences[i].items[k]));
        }
        lemma_filter_all(items, p);
    }
    assert(brought_up(c, existing).fences =~= c.fences);
}

/// A fence is found by its id: the first one that has it.
pub proof fn law_fence_of_an_id(fences: Seq<FenceView>, id: Seq<char>)
    ensures
        match fence_at(fences, id) {
            Some(i) => 0 <= i < fences.len() && fences[i].id == id && forall|j: int|
                0 <= j < i ==> (#[trigger] fences[j]).id != id,
            None => forall|j: int| 0 <= j < fences.len() ==> (#[trigger] fences[j]).id != id,
        },
{
    lemma_first_index(fences, has_id(id));
    assert forall|j: int| 0 <= j < fences.len() implies has_id(id)(#[trigger] fences[j]) == (
    fences[j].id == id) by {}
}

/// The catch-all fence is the first one titled "Unsorted".
pub proof fn law_catch_all_fence(fences: Seq<FenceView>)
    ensures
        match unsorted_at(fences) {
            Some(i) => 0 <= i < fences.len() && fences[i].title == "Unsorted"@ && forall|j: int|
                0 <= j < i ==> (#[trigger] fences[j]).title != "Unsorted"@,
            None => forall|j: int|
                0 <= j < fences.len() ==> (#[trigger] fences[j]).title != "Unsorted"@,
        },
{
    lemma_first_index(fences, is_unsorted());
    assert forall|j: int| 0 <= j < fences.len() implies is_unsorted()(#[trigger] fences[j]) == (
    fences[j].title == "Unsorted"@) by {}
}

/// Where there is a catch-all fence nothing is added. Where there is none, one
/// is added behind the others, with an id that no other has, empty, open and
/// without rules, at 100, 80, 420 wide and 300 high; the others stay as they
/// are.
pub proof fn law_making_a_catch_all_fence(fences: Seq<FenceView>)
    requires
        has_free_number(fences),
    ensures
        (exists|i: int| 0 <= i < fences.len() && (#[trigger] fences[i]).title == "Unsorted"@)
            ==> with_unsorted(fences) == fences,
        (forall|i: int| 0 <= i < fences.len() ==> (#[trigger] fences[i]).title != "Unsorted"@)
            ==> {
            let all = with_unsorted(fences);
            let f = all.last();
            &&& all.len() == fences.len() + 1
            &&& all.drop_last() == fences
            &&& f.title == "Unsorted"@
            &&& f.items.len() == 0
            &&& f.rules.len() == 0
            &&& !f.rolled_up
            &&& f.x == 100 && f.y == 80 && f.w == 420 && f.h == 300 && f.monitor == 0
            &&& f.color == "#1E1E2E"@
            &&& forall|i: int| 0 <= i < fences.len() ==> (#[trigger] fences[i]).id != f.id
        },
{
    law_catch_all_fence(fences);
    law_next_id_is_unused(fences);
    if unsorted_at(fences) is None {
        assert(with_unsorted(fences).drop_last() =~= fences);
    }
}

/// A fence that is made has the id, title and place that are asked for and
/// the standard look: midnight blue, 78 percent opaque, corners of 12 pixels.
/// It is open, on the first monitor, and has neither items nor rules.
pub proof fn law_plain_fence(
    id: Seq<char>,
    title: Seq<char>,
    x: i32,
    y: i32,
    w: i32,
    h: i32,
)
    ensures
        ({
            let f = plain_fence(id, title, x, y, w, h);
            &&& f.id == id && f.title == title
            &&& f.x == x && f.y == y && f.w == w && f.h == h
            &&& f.monitor == 0 && !f.rolled_up
            &&& f.color == "#1E1E2E"@
            &&& f.opacity.bits == 0x3F47_AE14u32
            &&& f.corner_radius.bits == 0x4140_0000u32
            &&& f.items.len() == 0 && f.rules.len() == 0
        }),
{
}

/// The default layout is of the second version, with icons of 48 pixels, and
/// holds nothing but an empty catch-all fence that is numbered one.
pub proof fn law_default_layout()
    ensures
        ({
            let c = default_config();
            &&& c.version == 2 && c.icon_size == 48
            &&& c.fences.len() == 1
            &&& unsorted_at(c.fences) == Some(0int)
            &&& c.fences[0].id == "fence-1"@
            &&& c.fences[0].items.len() == 0
            &&& c.fences == with_unsorted(Seq::empty())
        }),
{
    let c = default_config();
    lemma_is_first(c.fences, is_unsorted(), 0);
    reveal_strlit("fence-");
    reveal_strlit("fence-1");
    let none = Seq::<FenceView>::empty();
    lemma_is_nowhere(none, is_unsorted());
    assert(highest_number(none) == 0);
    assert(decimal(1) =~= seq!['1']);
    assert("fence-"@ + decimal(1) =~= "fence-1"@);
    assert(with_unsorted(none) =~= c.fences);
}

/// A fence with other items differs from it in nothing else.
pub proof fn law_holding(f: FenceView, items: Seq<Seq<char>>)
    ensures
        holding(f, items).items == items,
        holding(holding(f, items), f.items) == f,
{
}

/// The number of an id is what stands behind "fence-"; an id of another form
/// has none.
pub proof fn law_number_of_an_id(n: u32, id: Seq<char>)
    ensures
        fence_number("fence-"@ + decimal(n as nat)) == Some(n),
        (forall|rest: Seq<char>| id != #[trigger] ("fence-"@ + rest)) ==> fence_number(id) is None,
{
    crate::text::law_stripping_a_prefix(id, "fence-"@, decimal(n as nat));
    law_numeral_round_trip(n as nat, 10);
}

/// The highest number is at least that of every fence, and is that of some
/// fence unless it is zero.
pub proof fn law_highest_number(fences: Seq<FenceView>)
    ensures
        forall|i: int|
            0 <= i < fences.len() ==> (fence_number((#[trigger] fences[i]).id) matches Some(n)
                ==> n <= highest_number(fences)),
        highest_number(fences) == 0 || exists|i: int|
            0 <= i < fences.len() && fence_number((#[trigger] fences[i]).id) == Some(
                highest_number(fences) as u32,
            ),
        highest_number(fences) <= u32::MAX,
    decreases fences.len(),
{
    assert forall|i: int| 0 <= i < fences.len() implies (fence_number((#[trigger] fences[i]).id)
        matches Some(n) ==> n <= highest_number(fences)) by {
        lemma_highest_number(fences, i);
    }
    if fences.len() > 0 {
        let t = fences.drop_last();
        law_highest_number(t);
        if highest_number(fences) > 0 {
            if highest_number(fences) == highest_number(t) {
                let i = choose|i: int|
                    0 <= i < t.len() && fence_number((#[trigger] t[i]).id) == Some(
                        highest_number(t) as u32,
                    );
                assert(fences[i] == t[i]);
            } else {
                assert(fences[fences.len() - 1] == fences.last());
            }
        }
    }
}

/// The items of all fences are those that some fence holds, fence by fence.
pub proof fn law_items_of_all_fences(fences: Seq<FenceView>, f: FenceView, item: Seq<char>)
    ensures
        items_of(Seq::empty()) == Seq::<Seq<char>>::empty(),
        items_of(fences.push(f)) == items_of(fences) + f.items,
        items_of(fences).contains(item) <==> exists|i: int|
            0 <= i < fences.len() && (#[trigger] fences[i]).items.contains(item),
    decreases fences.len(),
{
    assert(fences.push(f).drop_last() =~= fences);
    if fences.len() > 0 {
        let t = fences.drop_last();
        let last = fences.last();
        law_items_of_all_fences(t, f, item);
        let all = items_of(fences);
        if all.contains(item) {
            let k = choose|k: int| 0 <= k < all.len() && all[k] == item;
            if k < items_of(t).len() {
                assert(items_of(t)[k] == item);
                let i = choose|i: int| 0 <= i < t.len() && (#[trigger] t[i]).items.contains(item);
                assert(fences[i] == t[i]);
            } else {
                assert(last.items[k - items_of(t).len()] == item);
                assert(fences[fences.len() - 1].items.contains(item));
            }
        }
        if exists|i: int| 0 <= i < fences.len() && (#[trigger] fences[i]).items.contains(item) {
            let i = choose|i: int|
                0 <= i < fences.len() && (#[trigger] fences[i]).items.contains(item);
            if i < t.len() {
                assert(t[i] == fences[i]);
                assert(items_of(t).contains(item));
                let k = choose|k: int| 0 <= k < items_of(t).len() && items_of(t)[k] == item;
                assert(all[k] == item);
            } else {
                let k = choose|k: int| 0 <= k < last.items.len() && last.items[k] == item;
                assert(all[items_of(t).len() + k] == item);
            }
        }
    }
}

/// A layout that is brought up to date is of the second version. Each fence
/// keeps exactly those of its items that are still there, in their order, and
/// everything else; the size of the icons stays.
pub proof fn law_bringing_up(c: ConfigView, existing: Seq<Seq<char>>, i: int)
    requires
        0 <= i < c.fences.len(),
    ensures
        brought_up(c, existing).version == 2,
        brought_up(c, existing).icon_size == c.icon_size,
        brought_up(c, existing).fences.len() == c.fences.len(),
        brought_up(c, existing).fences[i].items == c.fences[i].items.filter(
            |p: Seq<char>| existing.contains(p),
        ),
        holding(brought_up(c, existing).fences[i], c.fences[i].items) == c.fences[i],
{
    let p = |p: Seq<char>| existing.contains(p);
    assert(p =~= among(existing, true));
}

/// A file of the program lies in its own directory, which lies in the
/// directory for settings.
pub proof fn law_own_files(dir: PathBuf, name: Seq<char>)
    ensures
        own_file(dir, name).dir == dir,
        own_file(dir, name).names.len() == 2,
        own_file(dir, name).names[0] == "orbirus"@,
        own_file(dir, name).names[1] == name,
        own_file_below(Some(dir), name) == Some(own_file(dir, name)),
        own_file_below(None, name) is None,
{
}

/// A fence can still get a number unless one has the highest that there is, and
/// there can be a catch-all fence where there is one already or a new one can get
/// a number.
pub proof fn law_free_numbers(fences: Seq<FenceView>)
    ensures
        has_free_number(fences) <==> forall|i: int|
            0 <= i < fences.len() ==> fence_number((#[trigger] fences[i]).id) != Some(
                0xFFFF_FFFFu32,
            ),
        can_have_unsorted(fences) <==> has_free_number(fences) || exists|i: int|
            0 <= i < fences.len() && (#[trigger] fences[i]).title == "Unsorted"@,
{
    law_highest_number(fences);
    if !has_free_number(fences) {
        let i = choose|i: int|
            0 <= i < fences.len() && fence_number((#[trigger] fences[i]).id) == Some(
                highest_number(fences) as u32,
            );
        assert(fence_number(fences[i].id) == Some(0xFFFF_FFFFu32));
    }
    lemma_first_index(fences, is_unsorted());
    if exists|i: int| 0 <= i < fences.len() && (#[trigger] fences[i]).title == "Unsorted"@ {
        let i = choose|i: int| 0 <= i < fences.len() && (#[trigger] fences[i]).title == "Unsorted"@;
        assert(is_unsorted()(fences[i]));
    }
    if unsorted_at(fences) is Some {
        let i = unsorted_at(fences)->0;
        assert(is_unsorted()(fences[i]));
        assert(fences[i].title == "Unsorted"@);
    }
}

} // verus!
