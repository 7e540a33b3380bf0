//! The items of the Desktop folders and how the layout follows them. Items
//! stay where they are on disk; which fence shows an item is an assignment in
//! the layout, by path. Paths are compared without regard to case.

use vstd::prelude::*;
use crate::config::{
    can_have_unsorted, ensure_unsorted, fence_at, fence_index, has_id, highest_number, is_unsorted,
    number_is_free, unsorted_at, unsorted_index, with_unsorted, Config, ConfigView, FenceView,
};
use crate::list::{
    contains, first_index, lemma_filter_all, lemma_filter_places, lemma_filter_take,
    lemma_first_index, lemma_is_first, lemma_is_nowhere, lemma_same_first,
};
use crate::path::path_file_name;
use crate::rules::{fence_accepts, match_fence, matching_fence};
use crate::text::{
    eq_ignore_ascii_case, fold_case, folded, same_but_ascii_case, texts,
};

verus! {

broadcast use crate::text::lemma_texts_push;

/// An item found in a Desktop folder.
#[derive(Debug)]
pub struct DesktopItem {
    pub path: String,
    pub is_dir: bool,
}

pub struct ItemView {
    pub path: Seq<char>,
    pub is_dir: bool,
}

impl View for DesktopItem {
    type V = ItemView;

    open spec fn view(&self) -> ItemView {
        ItemView { path: self.path@, is_dir: self.is_dir }
    }
}

pub open spec fn item_views(v: Seq<DesktopItem>) -> Seq<ItemView> {
    Seq::new(v.len(), |i: int| v[i]@)
}

/// Whether a path is that of an item on disk.
pub open spec fn on_disk(disk: Seq<ItemView>) -> spec_fn(Seq<char>) -> bool {
    |p: Seq<char>|
        exists|i: int| 0 <= i < disk.len() && folded((#[trigger] disk[i]).path) == folded(p)
}

/// A fence with only those of its items that are on disk.
pub open spec fn kept_fence(f: FenceView, disk: Seq<ItemView>) -> FenceView {
    FenceView { items: f.items.filter(on_disk(disk)), ..f }
}

/// The fences, each with only those of its items that are on disk.
pub open spec fn kept(fences: Seq<FenceView>, disk: Seq<ItemView>) -> Seq<FenceView> {
    Seq::new(fences.len(), |i: int| kept_fence(fences[i], disk))
}

/// Whether some fence holds a path.
pub open spec fn is_assigned(fences: Seq<FenceView>, p: Seq<char>) -> bool {
    exists|i: int, k: int|
        0 <= i < fences.len() && 0 <= k < fences[i].items.len() && folded(
            #[trigger] fences[i].items[k],
        ) == folded(p)
}

/// Whether no fence holds an item.
pub open spec fn is_new(fences: Seq<FenceView>) -> spec_fn(ItemView) -> bool {
    |it: ItemView| !is_assigned(fences, it.path)
}

/// The items on disk that no fence holds, in the order they were found.
pub open spec fn arrivals(fences: Seq<FenceView>, disk: Seq<ItemView>) -> Seq<ItemView> {
    disk.filter(is_new(kept(fences, disk)))
}

/// The fences with `path` added to the items of fence `i`.
pub open spec fn with_item(fences: Seq<FenceView>, i: int, path: Seq<char>) -> Seq<FenceView> {
    fences.update(i, FenceView { items: fences[i].items.push(path), ..fences[i] })
}

/// Where the rules send an item.
pub open spec fn sent_to(fences: Seq<FenceView>, it: ItemView) -> Option<Seq<char>> {
    matching_fence(fences, path_file_name(it.path), it.is_dir)
}

/// The fences with a new item added to the fence that the rules choose, or to
/// the catch-all fence if no rule accepts it.
pub open spec fn placed_one(fences: Seq<FenceView>, it: ItemView) -> Seq<FenceView> {
    match sent_to(fences, it) {
        Some(id) => with_item(fences, fence_at(fences, id)->0, it.path),
        None => {
            let all = with_unsorted(fences);
            with_item(all, unsorted_at(all)->0, it.path)
        },
    }
}

/// The fences with new items added one after the other.
pub open spec fn placed(fences: Seq<FenceView>, items: Seq<ItemView>) -> Seq<FenceView>
    decreases items.len(),
{
    if items.len() == 0 {
        fences
    } else {
        placed_one(placed(fences, items.drop_last()), items.last())
    }
}

/// The layout that fits what is on disk: items that vanished are dropped from
/// every fence, and items that no fence holds are placed.
pub open spec fn reconciled(cfg: ConfigView, disk: Seq<ItemView>) -> ConfigView {
    ConfigView { fences: placed(kept(cfg.fences, disk), arrivals(cfg.fences, disk)), ..cfg }
}

/// Whether every new item has a fence to go to, or one can be made.
pub open spec fn can_place(fences: Seq<FenceView>, items: Seq<ItemView>) -> bool {
    can_have_unsorted(fences) || forall|i: int|
        0 <= i < items.len() ==> sent_to(fences, #[trigger] items[i]) is Some
}

/// Whether fences have the same ids, titles and rules, place by place: all
/// that decides where an item goes.
pub open spec fn same_heads(a: Seq<FenceView>, b: Seq<FenceView>) -> bool {
    a.len() == b.len() && forall|i: int|
        #![trigger a[i]]
        #![trigger b[i]]
        0 <= i < a.len() ==> a[i].id == b[i].id && a[i].title == b[i].title && a[i].rules
            == b[i].rules
}

/// What ids, titles and rules decide does not depend on the items.
pub proof fn lemma_items_do_not_matter(a: Seq<FenceView>, b: Seq<FenceView>)
    requires
        same_heads(a, b),
    ensures
        unsorted_at(a) == unsorted_at(b),
        highest_number(a) == highest_number(b),
        forall|id: Seq<char>| #[trigger] fence_at(a, id) == fence_at(b, id),
        forall|it: ItemView| #[trigger] sent_to(a, it) == sent_to(b, it),
    decreases a.len(),
{
    lemma_same_first(a, b, is_unsorted());
    assert forall|id: Seq<char>| #[trigger] fence_at(a, id) == fence_at(b, id) by {
        lemma_same_first(a, b, has_id(id));
    }
    assert forall|it: ItemView| #[trigger] sent_to(a, it) == sent_to(b, it) by {
        let p = fence_accepts(path_file_name(it.path), it.is_dir);
        lemma_same_first(a, b, p);
        lemma_first_index(a, p);
    }
    if a.len() > 0 {
        assert(same_heads(a.drop_last(), b.drop_last()));
        lemma_items_do_not_matter(a.drop_last(), b.drop_last());
    }
}

proof fn lemma_with_unsorted(fences: Seq<FenceView>)
    ensures
        unsorted_at(with_unsorted(fences)) is Some,
        0 <= unsorted_at(with_unsorted(fences))->0 < with_unsorted(fences).len(),
{
    let all = with_unsorted(fences);
    lemma_first_index(fences, is_unsorted());
    if unsorted_at(fences) is None {
        assert forall|j: int| 0 <= j < fences.len() implies !is_unsorted()(#[trigger] all[j]) by {
            assert(all[j] == fences[j]);
        }
        lemma_is_first(all, is_unsorted(), fences.len() as int);
    }
}

/// Placing an item changes the items of one fence.
proof fn lemma_placed_one(fences: Seq<FenceView>, it: ItemView)
    ensures
        match sent_to(fences, it) {
            Some(id) => {
                &&& fence_at(fences, id) is Some
                &&& 0 <= fence_at(fences, id)->0 < fences.len()
                &&& same_heads(fences, placed_one(fences, it))
            },
            None => same_heads(with_unsorted(fences), placed_one(fences, it)),
        },
{
    match sent_to(fences, it) {
        Some(id) => {
            let p = fence_accepts(path_file_name(it.path), it.is_dir);
            lemma_first_index(fences, p);
            let i = first_index(fences, p)->0;
            assert(has_id(id)(fences[i]));
            lemma_first_index(fences, has_id(id));
        },
        None => {
            lemma_with_unsorted(fences);
        },
    }
}

/// Placing an item leaves the items after it placeable.
proof fn lemma_can_place_next(fences: Seq<FenceView>, it: ItemView, rest: Seq<ItemView>)
    requires
        can_place(fences, seq![it] + rest),
    ensures
        can_place(placed_one(fences, it), rest),
{
    let all = seq![it] + rest;
    lemma_placed_one(fences, it);
    let next = placed_one(fences, it);
    if can_have_unsorted(fences) {
        match sent_to(fences, it) {
            Some(id) => {
                lemma_items_do_not_matter(fences, next);
            },
            None => {
                lemma_with_unsorted(fences);
                lemma_items_do_not_matter(with_unsorted(fences), next);
            },
        }
    } else {
        assert(all[0] == it);
        lemma_items_do_not_matter(fences, next);
        assert forall|i: int| 0 <= i < rest.len() implies sent_to(next, #[trigger] rest[i])
            is Some by {
            assert(all[i + 1] == rest[i]);
        }
    }
}

/// Dropping the items that vanished keeps ids, titles and rules.
proof fn lemma_kept(fences: Seq<FenceView>, disk: Seq<ItemView>)
    ensures
        same_heads(fences, kept(fences, disk)),
{
}

fn lowered(items: &Vec<DesktopItem>) -> (r: Vec<String>)
    ensures
        r@.len() == items@.len(),
        forall|i: int|
            0 <= i < items@.len() ==> (#[trigger] r@[i])@ == folded(items@[i].path@),
{
    let mut out: Vec<String> = Vec::new();
    let mut i: usize = 0;
    while i < items.len()
        invariant
            i <= items@.len(),
            out@.len() == i,
            forall|j: int| 0 <= j < i ==> (#[trigger] out@[j])@ == folded(items@[j].path@),
        decreases items@.len() - i,
    {
        out.push(fold_case(&items[i].path));
        i = i + 1;
    }
    out
}

/// The strings of `list` that are on disk, given the lower-case disk paths.
fn still_there(list: &Vec<String>, lows: &Vec<String>, Ghost(disk): Ghost<Seq<ItemView>>) -> (r:
    Vec<String>)
    requires
        lows@.len() == disk.len(),
        forall|i: int| 0 <= i < disk.len() ==> (#[trigger] lows@[i])@ == folded(disk[i].path),
    ensures
        texts(r@) == texts(list@).filter(on_disk(disk)),
{
    let mut out: Vec<String> = Vec::new();
    let ghost all = texts(list@);
    let ghost there = on_disk(disk);
    let mut i: usize = 0;
    proof {
        reveal(Seq::filter);
        assert(texts(out@) =~= all.take(0).filter(there));
    }
    while i < list.len()
        invariant
            lows@.len() == disk.len(),
            forall|i: int|
                0 <= i < disk.len() ==> (#[trigger] lows@[i])@ == folded(disk[i].path),
            all == texts(list@),
            there == on_disk(disk),
            i <= list@.len(),
            texts(out@) == all.take(i as int).filter(there),
        decreases list@.len() - i,
    {
        let low = fold_case(&list[i]);
        let found = contains(lows, &low);
        proof {
            lemma_filter_take(all, there, i as int);
            if found {
                let k = choose|k: int| 0 <= k < texts(lows@).len() && texts(lows@)[k] == low@;
                assert(lows@[k]@ == folded(disk[k].path));
                assert(there(all[i as int]));
            } else if there(all[i as int]) {
                let k = choose|k: int|
                    0 <= k < disk.len() && folded((#[trigger] disk[k]).path) == folded(
                        all[i as int],
                    );
                assert(lows@[k]@ == folded(disk[k].path));
                assert(texts(lows@)[k] == low@);
            }
        }
        if found {
            out.push(list[i].clone());
        }
        i = i + 1;
    }
    assert(all.take(all.len() as int) =~= all);
    out
}

/// Whether one of the first `n` fences holds a path that is `low` in lower
/// case.
spec fn held_among(fences: Seq<FenceView>, n: int, low: Seq<char>) -> bool {
    exists|a: int, b: int|
        0 <= a < n && 0 <= b < fences[a].items.len() && folded(#[trigger] fences[a].items[b])
            == low
}

/// The lower-case paths of the items of all fences.
fn held_paths(cfg: &Config) -> (r: Vec<String>)
    ensures
        forall|p: Seq<char>|
            texts(r@).contains(folded(p)) == #[trigger] is_assigned(cfg@.fences, p),
{
    let mut out: Vec<String> = Vec::new();
    let ghost fences = cfg@.fences;
    let mut i: usize = 0;
    while i < cfg.fences.len()
        invariant
            fences == cfg@.fences,
            i <= cfg.fences@.len(),
            forall|h: int|
                0 <= h < out@.len() ==> held_among(fences, i as int, (#[trigger] out@[h])@),
            forall|a: int, b: int|
                0 <= a < i && 0 <= b < fences[a].items.len() ==> texts(out@).contains(
                    folded(#[trigger] fences[a].items[b]),
                ),
        decreases cfg.fences@.len() - i,
    {
        let mut k: usize = 0;
        while k < cfg.fences[i].items.len()
            invariant
                fences == cfg@.fences,
                i < cfg.fences@.len(),
                k <= fences[i as int].items.len(),
                fences[i as int].items == texts(cfg.fences@[i as int].items@),
                forall|h: int|
                    0 <= h < out@.len() ==> held_among(fences, i + 1, (#[trigger] out@[h])@),
                forall|a: int, b: int|
                    0 <= a <= i && 0 <= b < fences[a].items.len() && (a < i || b < k) ==> texts(
                        out@,
                    ).contains(folded(#[trigger] fences[a].items[b])),
            decreases fences[i as int].items.len() - k,
        {
            let ghost before = out@;
            let low = fold_case(&cfg.fences[i].items[k]);
            assert(low@ == folded(fences[i as int].items[k as int]));
            out.push(low);
            proof {
                assert forall|h: int| 0 <= h < out@.len() implies held_among(
                    fences,
                    i + 1,
                    (#[trigger] out@[h])@,
                ) by {
                    if h < before.len() {
                        assert(out@[h] == before[h]);
                    } else {
                        assert(folded(fences[i as int].items[k as int]) == out@[h]@);
                    }
                }
                assert forall|a: int, b: int|
                    0 <= a <= i && 0 <= b < fences[a].items.len() && (a < i || b < k + 1)
                    implies texts(out@).contains(folded(#[trigger] fences[a].items[b])) by {
                    if a < i || b < k {
                        let x = folded(fences[a].items[b]);
                        let h = choose|h: int|
                            0 <= h < texts(before).len() && texts(before)[h] == x;
                        assert(texts(out@)[h] == x);
                    } else {
                        assert(texts(out@)[before.len() as int] == low@);
                    }
                }
            }
            k = k + 1;
        }
        i = i + 1;
    }
    proof {
        assert forall|p: Seq<char>|
            texts(out@).contains(folded(p)) == #[trigger] is_assigned(cfg@.fences, p) by {
            if texts(out@).contains(folded(p)) {
                let h = choose|h: int|
                    0 <= h < texts(out@).len() && texts(out@)[h] == folded(p);
                assert(held_among(fences, i as int, out@[h]@));
            }
        }
    }
    out
}

/// Adds `path` to the items of fence `i`.
pub(crate) fn add_item(cfg: &mut Config, i: usize, path: &String)
    requires
        i < old(cfg).fences@.len(),
    ensures
        final(cfg)@ == (ConfigView {
            fences: with_item(old(cfg)@.fences, i as int, path@),
            ..old(cfg)@
        }),
{
    let ghost before = cfg@.fences;
    cfg.fences[i].items.push(path.clone());
    assert(cfg@.fences =~= with_item(before, i as int, path@));
}

/// Brings the layout in line with the items on disk: items that vanished are
/// dropped from every fence; each item that no fence holds goes to the first
/// fence with a rule that accepts it, else to "Unsorted", which is created if
/// need be. Returns whether anything changed, and the paths that were new.
pub fn refresh(cfg: &mut Config, items: &Vec<DesktopItem>) -> (r: (bool, Vec<String>))
    requires
        can_place(old(cfg)@.fences, arrivals(old(cfg)@.fences, item_views(items@))),
    ensures
        final(cfg)@ == reconciled(old(cfg)@, item_views(items@)),
        r.0 == (kept(old(cfg)@.fences, item_views(items@)) != old(cfg)@.fences || arrivals(
            old(cfg)@.fences,
            item_views(items@),
        ).len() > 0),
        texts(r.1@) == arrivals(old(cfg)@.fences, item_views(items@)).map_values(
            |it: ItemView| it.path,
        ),
{
    let ghost disk = item_views(items@);
    let ghost start = cfg@;
    let lows = lowered(items);
    let mut changed = false;
    let mut i: usize = 0;
    while i < cfg.fences.len()
        invariant
            disk == item_views(items@),
            lows@.len() == disk.len(),
            forall|j: int|
                0 <= j < disk.len() ==> (#[trigger] lows@[j])@ == folded(disk[j].path),
            i <= cfg.fences@.len(),
            cfg.fences@.len() == start.fences.len(),
            cfg.version == start.version,
            cfg.icon_size == start.icon_size,
            forall|j: int|
                0 <= j < i ==> #[trigger] cfg@.fences[j] == kept_fence(start.fences[j], disk),
            forall|j: int|
                i <= j < start.fences.len() ==> #[trigger] cfg@.fences[j] == start.fences[j],
            changed == exists|j: int|
                0 <= j < i && kept_fence(start.fences[j], disk) != #[trigger] start.fences[j],
        decreases cfg.fences@.len() - i,
    {
        let ghost before = cfg@.fences;
        let there = still_there(&cfg.fences[i].items, &lows, Ghost(disk));
        assert(before[i as int] == start.fences[i as int]);
        let lost = there.len() != cfg.fences[i].items.len();
        proof {
            let s = start.fences[i as int].items;
            lemma_filter_all(s, on_disk(disk));
            assert(texts(there@).len() == s.filter(on_disk(disk)).len());
            assert(s.len() == cfg.fences@[i as int].items@.len());
            if lost {
                assert(kept_fence(start.fences[i as int], disk) != start.fences[i as int]);
            } else {
                assert(kept_fence(start.fences[i as int], disk) == start.fences[i as int]);
            }
        }
        cfg.fences[i].items = there;
        proof {
            assert(cfg@.fences[i as int] == kept_fence(start.fences[i as int], disk));
            assert forall|j: int| 0 <= j < start.fences.len() && j != i implies
                #[trigger] cfg@.fences[j] == before[j] by {}
        }
        changed = changed || lost;
        i = i + 1;
    }
    assert(cfg@.fences =~= kept(start.fences, disk));
    proof {
        if changed {
            let j = choose|j: int|
                0 <= j < i && kept_fence(start.fences[j], disk) != #[trigger] start.fences[j];
            assert(kept(start.fences, disk)[j] != start.fences[j]);
        } else {
            assert(kept(start.fences, disk) =~= start.fences);
        }
    }
    let ghost base = cfg@.fences;
    let ghost fresh = is_new(base);
    let held = held_paths(cfg);
    let mut added: Vec<String> = Vec::new();
    let mut dirs: Vec<bool> = Vec::new();
    let mut i: usize = 0;
    proof {
        reveal(Seq::filter);
        assert(disk.take(0).filter(fresh) =~= Seq::<ItemView>::empty());
    }
    while i < items.len()
        invariant
            disk == item_views(items@),
            fresh == is_new(base),
            i <= items@.len(),
            forall|p: Seq<char>|
                texts(held@).contains(folded(p)) == #[trigger] is_assigned(base, p),
            added@.len() == disk.take(i as int).filter(fresh).len(),
            dirs@.len() == added@.len(),
            forall|j: int|
                0 <= j < added@.len() ==> (#[trigger] disk.take(i as int).filter(fresh)[j])
                    == (ItemView { path: added@[j]@, is_dir: dirs@[j] }),
        decreases items@.len() - i,
    {
        let low = fold_case(&items[i].path);
        let known = contains(&held, &low);
        proof {
            assert(disk[i as int] == items@[i as int]@);
            assert(known == is_assigned(base, items@[i as int].path@));
            lemma_filter_take(disk, fresh, i as int);
        }
        if !known {
            added.push(items[i].path.clone());
            dirs.push(items[i].is_dir);
        }
        i = i + 1;
    }
    assert(disk.take(disk.len() as int) =~= disk);
    let ghost new_items = arrivals(start.fences, disk);
    assert(new_items == disk.filter(fresh));
    let mut i: usize = 0;
    proof {
        lemma_kept(start.fences, disk);
        lemma_items_do_not_matter(start.fences, base);
        assert(can_place(base, new_items));
        assert(new_items.take(0) =~= Seq::<ItemView>::empty());
        assert(new_items.skip(0) =~= new_items);
    }
    while i < added.len()
        invariant
            i <= added@.len(),
            added@.len() == new_items.len(),
            dirs@.len() == added@.len(),
            forall|j: int|
                0 <= j < added@.len() ==> (#[trigger] new_items[j]) == (ItemView {
                    path: added@[j]@,
                    is_dir: dirs@[j],
                }),
            cfg@.fences == placed(base, new_items.take(i as int)),
            cfg.version == start.version,
            cfg.icon_size == start.icon_size,
            can_place(cfg@.fences, new_items.skip(i as int)),
        decreases added@.len() - i,
    {
        let ghost now = cfg@.fences;
        let ghost it = new_items[i as int];
        let ghost rest = new_items.skip(i + 1);
        proof {
            assert(new_items.skip(i as int) =~= seq![it] + rest);
            lemma_placed_one(now, it);
            lemma_can_place_next(now, it, rest);
            assert(new_items.take(i + 1).drop_last() =~= new_items.take(i as int));
            assert(new_items.skip(i as int)[0] == it);
        }
        let target = match match_fence(&added[i], dirs[i], cfg) {
            Some(id) => match fence_index(cfg, &id) {
                Some(t) => t,
                None => 0,
            },
            None => ensure_unsorted(cfg),
        };
        add_item(cfg, target, &added[i]);
        i = i + 1;
    }
    assert(new_items.take(new_items.len() as int) =~= new_items);
    assert(texts(added@) =~= new_items.map_values(|it: ItemView| it.path));
    (changed || added.len() > 0, added)
}

/// Dropping what vanished does not change whether an item on disk is held.
proof fn lemma_kept_assigned(fences: Seq<FenceView>, disk: Seq<ItemView>, i: int)
    requires
        0 <= i < disk.len(),
    ensures
        is_assigned(kept(fences, disk), disk[i].path) == is_assigned(fences, disk[i].path),
{
    let p = disk[i].path;
    let base = kept(fences, disk);
    if is_assigned(base, p) {
        let (f, k) = choose|f: int, k: int|
            0 <= f < base.len() && 0 <= k < base[f].items.len() && folded(
                #[trigger] base[f].items[k],
            ) == folded(p);
        fences[f].items.lemma_filter_contains_rev(on_disk(disk), base[f].items[k]);
        let m = choose|m: int|
            0 <= m < fences[f].items.len() && fences[f].items[m] == base[f].items[k];
        assert(folded(fences[f].items[m]) == folded(p));
    }
    if is_assigned(fences, p) {
        let (f, k) = choose|f: int, k: int|
            0 <= f < fences.len() && 0 <= k < fences[f].items.len() && folded(
                #[trigger] fences[f].items[k],
            ) == folded(p);
        assert(folded(disk[i].path) == folded(fences[f].items[k]));
        fences[f].items.lemma_filter_contains(on_disk(disk), k);
        let m = choose|m: int|
            0 <= m < base[f].items.len() && base[f].items[m] == fences[f].items[k];
        assert(folded(base[f].items[m]) == folded(p));
    }
}

/// Whether the rules send every new item somewhere.
fn rules_place_all(cfg: &Config, items: &Vec<DesktopItem>) -> (r: bool)
    ensures
        r == forall|i: int|
            0 <= i < arrivals(cfg@.fences, item_views(items@)).len() ==> sent_to(
                cfg@.fences,
                #[trigger] arrivals(cfg@.fences, item_views(items@))[i],
            ) is Some,
{
    let ghost fences = cfg@.fences;
    let ghost disk = item_views(items@);
    let ghost fresh = is_new(kept(fences, disk));
    let held = held_paths(cfg);
    let mut i: usize = 0;
    while i < items.len()
        invariant
            fences == cfg@.fences,
            disk == item_views(items@),
            fresh == is_new(kept(fences, disk)),
            forall|p: Seq<char>|
                texts(held@).contains(folded(p)) == #[trigger] is_assigned(fences, p),
            i <= items@.len(),
            forall|j: int|
                0 <= j < i && fresh(#[trigger] disk[j]) ==> sent_to(fences, disk[j]) is Some,
        decreases items@.len() - i,
    {
        let low = fold_case(&items[i].path);
        let known = contains(&held, &low);
        proof {
            lemma_kept_assigned(fences, disk, i as int);
            assert(disk[i as int] == items@[i as int]@);
            assert(known == is_assigned(fences, items@[i as int].path@));
        }
        if !known && match_fence(&items[i].path, items[i].is_dir, cfg).is_none() {
            proof {
                disk.lemma_filter_contains(fresh, i as int);
                let all = arrivals(fences, disk);
                let j = choose|j: int| 0 <= j < all.len() && all[j] == disk[i as int];
                assert(sent_to(fences, all[j]) is None);
            }
            return false;
        }
        i = i + 1;
    }
    proof {
        let all = arrivals(fences, disk);
        assert forall|j: int| 0 <= j < all.len() implies sent_to(fences, #[trigger] all[j])
            is Some by {
            disk.lemma_filter_pred(fresh, j);
            disk.lemma_filter_contains_rev(fresh, all[j]);
            let k = choose|k: int| 0 <= k < disk.len() && disk[k] == all[j];
            assert(fresh(disk[k]));
        }
    }
    true
}

/// `refresh` where every new item has a fence to go to or one can be made;
/// `None`, with nothing changed, where some has none.
pub fn try_refresh(cfg: &mut Config, items: &Vec<DesktopItem>) -> (r: Option<(bool, Vec<String>)>)
    ensures
        r is Some == can_place(
            old(cfg)@.fences,
            arrivals(old(cfg)@.fences, item_views(items@)),
        ),
        r is None ==> final(cfg)@ == old(cfg)@,
        r matches Some(done) ==> {
            let disk = item_views(items@);
            &&& final(cfg)@ == reconciled(old(cfg)@, disk)
            &&& done.0 == (kept(old(cfg)@.fences, disk) != old(cfg)@.fences || arrivals(
                old(cfg)@.fences,
                disk,
            ).len() > 0)
            &&& texts(done.1@) == arrivals(old(cfg)@.fences, disk).map_values(
                |it: ItemView| it.path,
            )
        },
{
    if unsorted_index(cfg).is_none() && !number_is_free(cfg) && !rules_place_all(cfg, items) {
        return None;
    }
    Some(refresh(cfg, items))
}

/// The fences among which an item is placed.
spec fn receivers(fences: Seq<FenceView>, it: ItemView) -> Seq<FenceView> {
    match sent_to(fences, it) {
        Some(id) => fences,
        None => with_unsorted(fences),
    }
}

proof fn lemma_placed_one_items(fences: Seq<FenceView>, it: ItemView) -> (t: int)
    ensures
        0 <= t < receivers(fences, it).len(),
        placed_one(fences, it) == with_item(receivers(fences, it), t, it.path),
{
    lemma_placed_one(fences, it);
    lemma_with_unsorted(fences);
    match sent_to(fences, it) {
        Some(id) => fence_at(fences, id)->0,
        None => unsorted_at(with_unsorted(fences))->0,
    }
}

/// What placing does to the items: nothing is taken from a fence or moved
/// within it, every new item is in some fence, and nothing else is added.
proof fn lemma_placed(fences: Seq<FenceView>, items: Seq<ItemView>)
    ensures
        placed(fences, items).len() >= fences.len(),
        forall|f: int|
            0 <= f < fences.len() ==> fences[f].items.is_prefix_of(
                (#[trigger] placed(fences, items)[f]).items,
            ),
        forall|f: int, k: int|
            0 <= f < placed(fences, items).len() && 0 <= k < placed(fences, items)[f].items.len()
                ==> (f < fences.len() && fences[f].items.contains(
                #[trigger] placed(fences, items)[f].items[k],
            )) || exists|j: int|
                0 <= j < items.len() && (#[trigger] items[j]).path == placed(
                    fences,
                    items,
                )[f].items[k],
        forall|j: int|
            0 <= j < items.len() ==> is_assigned(placed(fences, items), (#[trigger] items[j]).path),
    decreases items.len(),
{
    let end = placed(fences, items);
    if items.len() == 0 {
        assert forall|f: int, k: int|
            0 <= f < end.len() && 0 <= k < end[f].items.len() implies fences[f].items.contains(
            #[trigger] end[f].items[k],
        ) by {
            assert(fences[f].items[k] == end[f].items[k]);
        }
    } else {
        let rest = items.drop_last();
        let it = items.last();
        let mid = placed(fences, rest);
        lemma_placed(fences, rest);
        let all = receivers(mid, it);
        let t = lemma_placed_one_items(mid, it);
        assert forall|f: int| 0 <= f < mid.len() implies #[trigger] all[f] == mid[f] by {}
        assert forall|f: int, k: int| 0 <= f < end.len() && 0 <= k < end[f].items.len() implies (f
            < fences.len() && fences[f].items.contains(#[trigger] end[f].items[k])) || exists|
            j: int,
        |
            0 <= j < items.len() && (#[trigger] items[j]).path == end[f].items[k] by {
            if f < mid.len() && k < mid[f].items.len() {
                assert(end[f].items[k] == mid[f].items[k]);
                if !(f < fences.len() && fences[f].items.contains(mid[f].items[k])) {
                    let j = choose|j: int|
                        0 <= j < rest.len() && (#[trigger] rest[j]).path == mid[f].items[k];
                    assert(items[j].path == end[f].items[k]);
                }
            } else {
                assert(end[f].items[k] == it.path);
                assert(items[items.len() - 1].path == end[f].items[k]);
            }
        }
        assert forall|j: int| 0 <= j < items.len() implies is_assigned(
            end,
            (#[trigger] items[j]).path,
        ) by {
            if j < rest.len() {
                assert(rest[j] == items[j]);
                let (f, k) = choose|f: int, k: int|
                    0 <= f < mid.len() && 0 <= k < mid[f].items.len() && folded(
                        #[trigger] mid[f].items[k],
                    ) == folded(items[j].path);
                assert(end[f].items[k] == mid[f].items[k]);
            } else {
                let k = all[t].items.len() as int;
                assert(end[t].items[k] == it.path);
            }
        }
        assert forall|f: int| 0 <= f < fences.len() implies fences[f].items.is_prefix_of(
            (#[trigger] end[f]).items,
        ) by {
            assert(fences[f].items.is_prefix_of(mid[f].items));
            assert(mid[f].items.is_prefix_of(end[f].items));
            assert(fences[f].items =~= end[f].items.subrange(0, fences[f].items.len() as int));
        }
    }
}

/// A catch-all fence that is made for the occasion attracts nothing by rule
/// and hides no fence.
proof fn lemma_unsorted_has_no_say(fences: Seq<FenceView>)
    ensures
        forall|it: ItemView| #[trigger] sent_to(with_unsorted(fences), it) == sent_to(fences, it),
        forall|id: Seq<char>|
            #![trigger fence_at(with_unsorted(fences), id)]
            fence_at(fences, id) is Some ==> fence_at(with_unsorted(fences), id) == fence_at(
                fences,
                id,
            ),
        with_unsorted(with_unsorted(fences)) == with_unsorted(fences),
{
    let all = with_unsorted(fences);
    lemma_with_unsorted(fences);
    if unsorted_at(fences) is None {
        let added = all.last();
        assert(added.rules == Seq::<crate::rules::RuleView>::empty());
        assert forall|it: ItemView| #[trigger] sent_to(all, it) == sent_to(fences, it) by {
            let p = fence_accepts(path_file_name(it.path), it.is_dir);
            lemma_first_index(fences, p);
            assert(!p(added));
            match first_index(fences, p) {
                Some(i) => {
                    assert forall|j: int| 0 <= j < i implies !p(#[trigger] all[j]) by {
                        assert(all[j] == fences[j]);
                    }
                    lemma_is_first(all, p, i);
                },
                None => {
                    assert forall|j: int| 0 <= j < all.len() implies !p(#[trigger] all[j]) by {
                        if j < fences.len() {
                            assert(all[j] == fences[j]);
                        }
                    }
                    lemma_is_nowhere(all, p);
                },
            }
        }
        assert forall|id: Seq<char>|
            #![trigger fence_at(all, id)]
            fence_at(fences, id) is Some implies fence_at(all, id) == fence_at(fences, id) by {
            lemma_first_index(fences, has_id(id));
            let i = fence_at(fences, id)->0;
            assert forall|j: int| 0 <= j < i implies !has_id(id)(#[trigger] all[j]) by {
                assert(all[j] == fences[j]);
            }
            lemma_is_first(all, has_id(id), i);
        }
    }
}

proof fn lemma_placed_heads(fences: Seq<FenceView>, items: Seq<ItemView>)
    ensures
        same_heads(placed(fences, items), fences) || same_heads(
            placed(fences, items),
            with_unsorted(fences),
        ),
    decreases items.len(),
{
    if items.len() > 0 {
        let mid = placed(fences, items.drop_last());
        let it = items.last();
        lemma_placed_heads(fences, items.drop_last());
        lemma_placed_one(mid, it);
        lemma_unsorted_has_no_say(fences);
        if same_heads(mid, fences) {
            lemma_items_do_not_matter(mid, fences);
            assert(same_heads(with_unsorted(mid), with_unsorted(fences)));
        } else {
            lemma_items_do_not_matter(mid, with_unsorted(fences));
            assert(same_heads(with_unsorted(mid), with_unsorted(fences)));
        }
    }
}

/// Each new item goes to the first fence with a rule that accepts it, and to
/// the catch-all fence if there is none.
pub proof fn law_rules_decide(cfg: ConfigView, disk: Seq<ItemView>, j: int)
    requires
        0 <= j < arrivals(cfg.fences, disk).len(),
    ensures
        ({
            let it = arrivals(cfg.fences, disk)[j];
            let end = reconciled(cfg, disk).fences;
            match sent_to(cfg.fences, it) {
                Some(id) => fence_at(cfg.fences, id) matches Some(t) && 0 <= t < end.len()
                    && end[t].items.contains(it.path),
                None => unsorted_at(end) matches Some(t) && 0 <= t < end.len()
                    && end[t].items.contains(it.path),
            }
        }),
{
    let base = kept(cfg.fences, disk);
    lemma_kept(cfg.fences, disk);
    lemma_items_do_not_matter(cfg.fences, base);
    lemma_placed_target(base, arrivals(cfg.fences, disk), j);
}

/// Whether the fence that an item was to go to holds it: the one that the
/// rules chose, or else the catch-all fence.
spec fn went_to_target(fences: Seq<FenceView>, end: Seq<FenceView>, it: ItemView) -> bool {
    match sent_to(fences, it) {
        Some(id) => fence_at(fences, id) matches Some(t) && 0 <= t < end.len()
            && end[t].items.contains(it.path),
        None => unsorted_at(end) matches Some(t) && 0 <= t < end.len() && end[t].items.contains(
            it.path,
        ),
    }
}

/// The item that is placed last goes where it is to go.
#[verifier::spinoff_prover]
proof fn lemma_last_went_to_target(fences: Seq<FenceView>, items: Seq<ItemView>)
    requires
        items.len() > 0,
    ensures
        went_to_target(fences, placed(fences, items), items.last()),
{
    let it = items.last();
    let mid = placed(fences, items.drop_last());
    let end = placed(fences, items);
    let all = receivers(mid, it);
    let t = lemma_placed_one_items(mid, it);
    lemma_placed_heads(fences, items.drop_last());
    lemma_unsorted_has_no_say(fences);
    lemma_with_unsorted(mid);
    lemma_placed_one(mid, it);
    lemma_placed_one(fences, it);
    if same_heads(mid, fences) {
        lemma_items_do_not_matter(mid, fences);
    } else {
        lemma_items_do_not_matter(mid, with_unsorted(fences));
    }
    assert(end[t].items[all[t].items.len() as int] == it.path);
    if sent_to(mid, it) is None {
        lemma_items_do_not_matter(with_unsorted(mid), end);
    }
}

/// Placing one more item leaves those where they are that were placed before.
#[verifier::spinoff_prover]
proof fn lemma_stays_at_target(
    fences: Seq<FenceView>,
    mid: Seq<FenceView>,
    it: ItemView,
    p: ItemView,
)
    requires
        went_to_target(fences, mid, p),
    ensures
        went_to_target(fences, placed_one(mid, it), p),
{
    let end = placed_one(mid, it);
    let t = lemma_placed_one_items(mid, it);
    lemma_placed_one(mid, it);
    let d = match sent_to(fences, p) {
        Some(id) => fence_at(fences, id)->0,
        None => unsorted_at(mid)->0,
    };
    let k = choose|k: int| 0 <= k < mid[d].items.len() && mid[d].items[k] == p.path;
    assert(end[d].items[k] == mid[d].items[k]);
    if sent_to(fences, p) is None {
        lemma_items_do_not_matter(mid, end);
    }
}

proof fn lemma_placed_target(fences: Seq<FenceView>, items: Seq<ItemView>, j: int)
    requires
        0 <= j < items.len(),
    ensures
        went_to_target(fences, placed(fences, items), items[j]),
    decreases items.len(),
{
    let rest = items.drop_last();
    if j < rest.len() {
        lemma_placed_target(fences, rest, j);
        lemma_stays_at_target(fences, placed(fences, rest), items.last(), items[j]);
    } else {
        lemma_last_went_to_target(fences, items);
    }
}

/// Nothing on the desktop is ever hidden: after a refresh every item on disk
/// is in some fence.
pub proof fn law_nothing_is_hidden(cfg: ConfigView, disk: Seq<ItemView>, i: int)
    requires
        0 <= i < disk.len(),
    ensures
        is_assigned(reconciled(cfg, disk).fences, disk[i].path),
{
    let base = kept(cfg.fences, disk);
    let new_items = arrivals(cfg.fences, disk);
    let end = reconciled(cfg, disk).fences;
    lemma_placed(base, new_items);
    if is_assigned(base, disk[i].path) {
        let (f, k) = choose|f: int, k: int|
            0 <= f < base.len() && 0 <= k < base[f].items.len() && folded(
                #[trigger] base[f].items[k],
            ) == folded(disk[i].path);
        assert(base[f].items.is_prefix_of(end[f].items));
        assert(end[f].items[k] == base[f].items[k]);
    } else {
        disk.lemma_filter_contains(is_new(base), i);
        let j = choose|j: int| 0 <= j < new_items.len() && new_items[j] == disk[i];
        assert(is_assigned(end, new_items[j].path));
    }
}

/// After a refresh no fence holds an item that is not on disk.
pub proof fn law_fences_hold_what_is_on_disk(cfg: ConfigView, disk: Seq<ItemView>, f: int, k: int)
    requires
        0 <= f < reconciled(cfg, disk).fences.len(),
        0 <= k < reconciled(cfg, disk).fences[f].items.len(),
    ensures
        on_disk(disk)(reconciled(cfg, disk).fences[f].items[k]),
{
    let base = kept(cfg.fences, disk);
    let new_items = arrivals(cfg.fences, disk);
    let p = reconciled(cfg, disk).fences[f].items[k];
    lemma_placed(base, new_items);
    if f < base.len() && base[f].items.contains(p) {
        let m = choose|m: int| 0 <= m < base[f].items.len() && base[f].items[m] == p;
        cfg.fences[f].items.lemma_filter_pred(on_disk(disk), m);
    } else {
        let j = choose|j: int| 0 <= j < new_items.len() && (#[trigger] new_items[j]).path == p;
        disk.lemma_filter_contains_rev(is_new(base), new_items[j]);
        let d = choose|d: int| 0 <= d < disk.len() && disk[d] == new_items[j];
        assert(folded(disk[d].path) == folded(p));
    }
}

/// An item that a fence holds stays in that fence while it is on disk: what is
/// left of a fence's items keeps its order, and new items come after it.
pub proof fn law_held_items_stay(cfg: ConfigView, disk: Seq<ItemView>, f: int)
    requires
        0 <= f < cfg.fences.len(),
    ensures
        reconciled(cfg, disk).fences.len() >= cfg.fences.len(),
        cfg.fences[f].items.filter(on_disk(disk)).is_prefix_of(
            reconciled(cfg, disk).fences[f].items,
        ),
{
    lemma_placed(kept(cfg.fences, disk), arrivals(cfg.fences, disk));
    let end = placed(kept(cfg.fences, disk), arrivals(cfg.fences, disk))[f];
}

/// A second refresh against the same desktop finds nothing to drop and
/// nothing new.
pub proof fn law_refresh_is_idempotent(cfg: ConfigView, disk: Seq<ItemView>)
    ensures
        kept(reconciled(cfg, disk).fences, disk) == reconciled(cfg, disk).fences,
        arrivals(reconciled(cfg, disk).fences, disk) == Seq::<ItemView>::empty(),
        reconciled(reconciled(cfg, disk), disk) == reconciled(cfg, disk),
{
    let end = reconciled(cfg, disk).fences;
    assert forall|f: int| 0 <= f < end.len() implies kept_fence(#[trigger] end[f], disk)
        == end[f] by {
        assert forall|k: int| 0 <= k < end[f].items.len() implies on_disk(disk)(
            #[trigger] end[f].items[k],
        ) by {
            law_fences_hold_what_is_on_disk(cfg, disk, f, k);
        }
        lemma_filter_all(end[f].items, on_disk(disk));
    }
    assert(kept(end, disk) =~= end);
    assert forall|i: int| 0 <= i < disk.len() implies !is_new(end)(#[trigger] disk[i]) by {
        law_nothing_is_hidden(cfg, disk, i);
    }
    disk.lemma_all_neg_filter_empty(is_new(end));
    assert(arrivals(end, disk) =~= Seq::<ItemView>::empty());
}

/// No two places of the layout hold the same item.
pub open spec fn each_once(fences: Seq<FenceView>) -> bool {
    forall|f: int, k: int, g: int, m: int|
        0 <= f < fences.len() && 0 <= k < fences[f].items.len() && 0 <= g < fences.len() && 0 <= m
            < fences[g].items.len() && folded(#[trigger] fences[f].items[k]) == folded(
            #[trigger] fences[g].items[m],
        ) ==> f == g && k == m
}

/// No two of the items on disk have the same path.
pub open spec fn paths_differ(disk: Seq<ItemView>) -> bool {
    forall|i: int, j: int|
        0 <= i < j < disk.len() ==> folded((#[trigger] disk[i]).path) != folded(
            (#[trigger] disk[j]).path,
        )
}

proof fn lemma_placed_once(fences: Seq<FenceView>, items: Seq<ItemView>)
    requires
        each_once(fences),
        paths_differ(items),
        forall|j: int| 0 <= j < items.len() ==> !is_assigned(fences, (#[trigger] items[j]).path),
    ensures
        each_once(placed(fences, items)),
    decreases items.len(),
{
    if items.len() > 0 {
        let rest = items.drop_last();
        let it = items.last();
        let mid = placed(fences, rest);
        let end = placed(fences, items);
        assert forall|j: int| 0 <= j < rest.len() implies !is_assigned(
            fences,
            (#[trigger] rest[j]).path,
        ) by {
            assert(items[j] == rest[j]);
        }
        lemma_placed_once(fences, rest);
        lemma_placed(fences, rest);
        let all = receivers(mid, it);
        let t = lemma_placed_one_items(mid, it);
        assert forall|f: int, k: int|
            0 <= f < mid.len() && 0 <= k < mid[f].items.len() implies folded(
            #[trigger] mid[f].items[k],
        ) != folded(it.path) by {
            assert(items[items.len() - 1] == it);
            if f < fences.len() && fences[f].items.contains(mid[f].items[k]) {
                let m = choose|m: int|
                    0 <= m < fences[f].items.len() && fences[f].items[m] == mid[f].items[k];
                assert(!is_assigned(fences, it.path));
                assert(folded(fences[f].items[m]) == folded(mid[f].items[k]));
            } else {
                let j = choose|j: int|
                    0 <= j < rest.len() && (#[trigger] rest[j]).path == mid[f].items[k];
                assert(items[j] == rest[j]);
            }
        }
        assert(each_once(all));
        let last = all[t].items.len() as int;
        assert forall|f: int, k: int, g: int, m: int|
            0 <= f < end.len() && 0 <= k < end[f].items.len() && 0 <= g < end.len() && 0 <= m
                < end[g].items.len() && folded(#[trigger] end[f].items[k]) == folded(
                #[trigger] end[g].items[m],
            ) implies f == g && k == m by {
            if (f != t || k != last) && (g != t || m != last) {
                assert(end[f].items[k] == all[f].items[k]);
                assert(end[g].items[m] == all[g].items[m]);
            } else if f != t || k != last {
                assert(end[f].items[k] == mid[f].items[k]);
            } else if g != t || m != last {
                assert(end[g].items[m] == mid[g].items[m]);
            }
        }
    }
}

/// Everything on the desktop appears exactly once: after a refresh of a layout
/// that shows no item twice, no item is shown twice, every item on disk is in
/// some fence, and no fence holds anything else.
pub proof fn law_each_item_appears_once(cfg: ConfigView, disk: Seq<ItemView>)
    requires
        each_once(cfg.fences),
        paths_differ(disk),
    ensures
        each_once(reconciled(cfg, disk).fences),
        forall|i: int|
            0 <= i < disk.len() ==> is_assigned(
                reconciled(cfg, disk).fences,
                (#[trigger] disk[i]).path,
            ),
        forall|f: int, k: int|
            0 <= f < reconciled(cfg, disk).fences.len() && 0 <= k < reconciled(
                cfg,
                disk,
            ).fences[f].items.len() ==> on_disk(disk)(
                #[trigger] reconciled(cfg, disk).fences[f].items[k],
            ),
{
    assert forall|i: int| 0 <= i < disk.len() implies is_assigned(
        reconciled(cfg, disk).fences,
        (#[trigger] disk[i]).path,
    ) by {
        law_nothing_is_hidden(cfg, disk, i);
    }
    assert forall|f: int, k: int|
        0 <= f < reconciled(cfg, disk).fences.len() && 0 <= k < reconciled(
            cfg,
            disk,
        ).fences[f].items.len() implies on_disk(disk)(
        #[trigger] reconciled(cfg, disk).fences[f].items[k],
    ) by {
        law_fences_hold_what_is_on_disk(cfg, disk, f, k);
    }
    let base = kept(cfg.fences, disk);
    let new_items = arrivals(cfg.fences, disk);
    assert forall|f: int, k: int, g: int, m: int|
        0 <= f < base.len() && 0 <= k < base[f].items.len() && 0 <= g < base.len() && 0 <= m
            < base[g].items.len() && folded(#[trigger] base[f].items[k]) == folded(
            #[trigger] base[g].items[m],
        ) implies f == g && k == m by {
        let a = lemma_filter_places(cfg.fences[f].items, on_disk(disk));
        let b = lemma_filter_places(cfg.fences[g].items, on_disk(disk));
        assert(cfg.fences[f].items[a[k]] == base[f].items[k]);
        assert(cfg.fences[g].items[b[m]] == base[g].items[m]);
        if f == g {
            let c = lemma_filter_places(cfg.fences[f].items, on_disk(disk));
            assert(cfg.fences[f].items[c[k]] == base[f].items[k]);
            assert(cfg.fences[f].items[c[m]] == base[f].items[m]);
            assert(c[k] == c[m]);
        }
    }
    let places = lemma_filter_places(disk, is_new(base));
    assert forall|i: int, j: int| 0 <= i < j < new_items.len() implies folded(
        (#[trigger] new_items[i]).path,
    ) != folded((#[trigger] new_items[j]).path) by {
        assert(disk[places[i]] == new_items[i]);
        assert(disk[places[j]] == new_items[j]);
    }
    assert forall|j: int| 0 <= j < new_items.len() implies !is_assigned(
        base,
        (#[trigger] new_items[j]).path,
    ) by {
        disk.lemma_filter_pred(is_new(base), j);
    }
    lemma_placed_once(base, new_items);
}

/// Whether a file of a Desktop folder is shown: all but its settings.
pub open spec fn is_shown(name: Seq<char>) -> bool {
    !same_but_ascii_case(name, "desktop.ini"@)
}

/// Whether a file of a Desktop folder is shown.
pub fn shows(name: &str) -> (r: bool)
    ensures
        r == is_shown(name@),
{
    !eq_ignore_ascii_case(name, "desktop.ini")
}

/// A file of a Desktop folder as it was found.
#[derive(Debug)]
pub struct Found {
    pub name: String,
    pub path: String,
    pub is_dir: bool,
}

pub struct FoundView {
    pub name: Seq<char>,
    pub path: Seq<char>,
    pub is_dir: bool,
}

impl View for Found {
    type V = FoundView;

    open spec fn view(&self) -> FoundView {
        FoundView { name: self.name@, path: self.path@, is_dir: self.is_dir }
    }
}

pub open spec fn found_views(v: Seq<Found>) -> Seq<FoundView> {
    Seq::new(v.len(), |i: int| v[i]@)
}

/// The item that a file is shown as, if it is shown.
pub open spec fn shown() -> spec_fn(FoundView) -> Option<ItemView> {
    |f: FoundView|
        if is_shown(f.name) {
            Some(ItemView { path: f.path, is_dir: f.is_dir })
        } else {
            None
        }
}

/// The items to show, in the order in which their files were found.
pub fn enumerate(found: &Vec<Found>) -> (r: Vec<DesktopItem>)
    ensures
        item_views(r@) == found_views(found@).filter_map(shown()),
{
    let ghost all = found_views(found@);
    let mut out: Vec<DesktopItem> = Vec::new();
    let mut i: usize = 0;
    proof {
        reveal(Seq::filter_map);
        assert(item_views(out@) =~= all.take(0).filter_map(shown()));
    }
    while i < found.len()
        invariant
            all == found_views(found@),
            i <= found@.len(),
            item_views(out@) == all.take(i as int).filter_map(shown()),
        decreases found@.len() - i,
    {
        let ghost before = item_views(out@);
        proof {
            reveal(Seq::filter_map);
            assert(all.take(i + 1).drop_last() =~= all.take(i as int));
            assert(all.take(i + 1).last() == found@[i as int]@);
        }
        if shows(&found[i].name) {
            out.push(DesktopItem { path: found[i].path.clone(), is_dir: found[i].is_dir });
            assert(item_views(out@) =~= before.push(
                ItemView { path: all[i as int].path, is_dir: all[i as int].is_dir },
            ));
        }
        i = i + 1;
    }
    assert(all.take(all.len() as int) =~= all);
    out
}

/// A fence keeps exactly those of its items whose paths are on disk, but for
/// case, in their order, and all that it has besides items.
pub proof fn law_what_a_fence_keeps(fences: Seq<FenceView>, disk: Seq<ItemView>, f: int)
    requires
        0 <= f < fences.len(),
    ensures
        kept(fences, disk).len() == fences.len(),
        kept(fences, disk)[f].items == fences[f].items.filter(
            |p: Seq<char>|
                exists|i: int|
                    0 <= i < disk.len() && folded((#[trigger] disk[i]).path) == folded(p),
        ),
        fences[f] == (FenceView { items: fences[f].items, ..kept(fences, disk)[f] }),
{
    let p = |p: Seq<char>|
        exists|i: int| 0 <= i < disk.len() && folded((#[trigger] disk[i]).path) == folded(p);
    assert(p =~= on_disk(disk));
}

/// Whether a fence holds a path, but for case.
pub open spec fn is_held(fences: Seq<FenceView>, p: Seq<char>) -> bool {
    exists|f: int, q: Seq<char>|
        0 <= f < fences.len() && #[trigger] fences[f].items.contains(q) && folded(q) == folded(p)
}

/// New are those items on disk that no fence holds, in the order in which they
/// were found, and no others.
pub proof fn law_what_is_new(fences: Seq<FenceView>, disk: Seq<ItemView>)
    ensures
        arrivals(fences, disk) == disk.filter(|it: ItemView| !is_held(fences, it.path)),
{
    let p = |it: ItemView| !is_held(fences, it.path);
    let q = is_new(kept(fences, disk));
    assert forall|i: int| 0 <= i < disk.len() implies p(#[trigger] disk[i]) == q(disk[i]) by {
        lemma_kept_assigned(fences, disk, i);
        let path = disk[i].path;
        if is_assigned(fences, path) {
            let (f, k) = choose|f: int, k: int|
                0 <= f < fences.len() && 0 <= k < fences[f].items.len() && folded(
                    #[trigger] fences[f].items[k],
                ) == folded(path);
            assert(fences[f].items.contains(fences[f].items[k]));
        }
        if is_held(fences, path) {
            let (f, x) = choose|f: int, x: Seq<char>|
                0 <= f < fences.len() && #[trigger] fences[f].items.contains(x) && folded(x)
                    == folded(path);
            let k = choose|k: int| 0 <= k < fences[f].items.len() && fences[f].items[k] == x;
            assert(folded(fences[f].items[k]) == folded(path));
        }
    }
    lemma_same_filter(disk, p, q);
}

proof fn lemma_same_filter<T>(s: Seq<T>, p: spec_fn(T) -> bool, q: spec_fn(T) -> bool)
    requires
        forall|i: int| 0 <= i < s.len() ==> p(#[trigger] s[i]) == q(s[i]),
    ensures
        s.filter(p) == s.filter(q),
    decreases s.len(),
{
    reveal(Seq::filter);
    if s.len() > 0 {
        let t = s.drop_last();
        assert forall|i: int| 0 <= i < t.len() implies p(#[trigger] t[i]) == q(t[i]) by {
            assert(t[i] == s[i]);
        }
        lemma_same_filter(t, p, q);
        assert(p(s[s.len() - 1]) == q(s[s.len() - 1]));
    }
}

/// The place of the fence that a new item goes to: the one that the rules
/// choose, or else the catch-all fence, which may have to be made.
pub open spec fn receiver(fences: Seq<FenceView>, it: ItemView) -> int {
    match matching_fence(fences, path_file_name(it.path), it.is_dir) {
        Some(id) => fence_at(fences, id)->0,
        None => match unsorted_at(fences) {
            Some(u) => u,
            None => fences.len() as int,
        },
    }
}

/// Whether a catch-all fence has to be made for some of the items.
pub open spec fn needs_unsorted(fences: Seq<FenceView>, items: Seq<ItemView>) -> bool {
    unsorted_at(fences) is None && exists|i: int|
        0 <= i < items.len() && matching_fence(
            fences,
            path_file_name((#[trigger] items[i]).path),
            items[i].is_dir,
        ) is None
}

/// The paths of those items that go to fence `f`, in their order.
pub open spec fn received(fences: Seq<FenceView>, items: Seq<ItemView>, f: int) -> Seq<Seq<char>> {
    items.filter(|it: ItemView| receiver(fences, it) == f).map_values(|it: ItemView| it.path)
}

proof fn lemma_received_last(fences: Seq<FenceView>, items: Seq<ItemView>, f: int)
    requires
        items.len() > 0,
    ensures
        received(fences, items, f) == if receiver(fences, items.last()) == f {
            received(fences, items.drop_last(), f).push(items.last().path)
        } else {
            received(fences, items.drop_last(), f)
        },
{
    reveal(Seq::filter);
    assert(received(fences, items, f) =~= if receiver(fences, items.last()) == f {
        received(fences, items.drop_last(), f).push(items.last().path)
    } else {
        received(fences, items.drop_last(), f)
    });
}

proof fn lemma_nothing_received(fences: Seq<FenceView>, items: Seq<ItemView>, f: int)
    requires
        forall|i: int| 0 <= i < items.len() ==> receiver(fences, #[trigger] items[i]) != f,
    ensures
        received(fences, items, f) == Seq::<Seq<char>>::empty(),
    decreases items.len(),
{
    if items.len() > 0 {
        let t = items.drop_last();
        assert forall|i: int| 0 <= i < t.len() implies receiver(fences, #[trigger] t[i]) != f by {
            assert(t[i] == items[i]);
        }
        lemma_nothing_received(fences, t, f);
        lemma_received_last(fences, items, f);
        assert(items[items.len() - 1] == items.last());
    } else {
        reveal(Seq::filter);
        assert(received(fences, items, f) =~= Seq::<Seq<char>>::empty());
    }
}

/// The fences to which items are added.
spec fn stage(fences: Seq<FenceView>, items: Seq<ItemView>) -> Seq<FenceView> {
    if needs_unsorted(fences, items) {
        with_unsorted(fences)
    } else {
        fences
    }
}

#[verifier::spinoff_prover]
proof fn lemma_placed_exactly(fences: Seq<FenceView>, items: Seq<ItemView>)
    ensures
        placed(fences, items).len() == stage(fences, items).len(),
        forall|f: int|
            0 <= f < stage(fences, items).len() ==> #[trigger] placed(fences, items)[f]
                == (FenceView {
                items: stage(fences, items)[f].items + received(fences, items, f),
                ..stage(fences, items)[f]
            }),
    decreases items.len(),
{
    let end = placed(fences, items);
    let now = stage(fences, items);
    if items.len() == 0 {
        assert forall|f: int| 0 <= f < now.len() implies #[trigger] end[f] == (FenceView {
            items: now[f].items + received(fences, items, f),
            ..now[f]
        }) by {
            lemma_nothing_received(fences, items, f);
            assert(now[f].items + Seq::<Seq<char>>::empty() =~= now[f].items);
        }
    } else {
        let rest = items.drop_last();
        let it = items.last();
        let mid = placed(fences, rest);
        let before = stage(fences, rest);
        lemma_placed_exactly(fences, rest);
        assert(same_heads(mid, before)) by {
            assert forall|f: int| 0 <= f < before.len() implies (#[trigger] mid[f]).id
                == before[f].id && mid[f].title == before[f].title && mid[f].rules
                == before[f].rules by {}
        }
        lemma_items_do_not_matter(mid, before);
        lemma_unsorted_has_no_say(fences);
        lemma_with_unsorted(fences);
        lemma_placed_one(fences, it);
        lemma_placed_one(mid, it);
        let t = lemma_placed_one_items(mid, it);
        assert(items[items.len() - 1] == it);
        assert forall|i: int| 0 <= i < rest.len() implies #[trigger] items[i] == rest[i] by {}
        if sent_to(fences, it) is Some {
            let id = sent_to(fences, it)->0;
            assert(needs_unsorted(fences, items) == needs_unsorted(fences, rest)) by {
                if needs_unsorted(fences, items) {
                    let i = choose|i: int|
                        0 <= i < items.len() && matching_fence(
                            fences,
                            path_file_name((#[trigger] items[i]).path),
                            items[i].is_dir,
                        ) is None;
                    assert(i < rest.len());
                    assert(rest[i] == items[i]);
                }
                if needs_unsorted(fences, rest) {
                    let i = choose|i: int|
                        0 <= i < rest.len() && matching_fence(
                            fences,
                            path_file_name((#[trigger] rest[i]).path),
                            rest[i].is_dir,
                        ) is None;
                    assert(items[i] == rest[i]);
                }
            }
            assert(sent_to(mid, it) == Some(id));
            let r = fence_at(fences, id)->0;
            assert(fence_at(mid, id) == Some(r));
            assert(end == with_item(mid, r, it.path));
            assert forall|f: int| 0 <= f < now.len() implies #[trigger] end[f] == (FenceView {
                items: now[f].items + received(fences, items, f),
                ..now[f]
            }) by {
                lemma_received_last(fences, items, f);
                assert(mid[f] == (FenceView {
                    items: before[f].items + received(fences, rest, f),
                    ..before[f]
                }));
                if f == r {
                    assert(end[f].items =~= now[f].items + received(fences, items, f));
                }
            }
        } else {
            assert(sent_to(mid, it) is None);
            assert(unsorted_at(fences) is None ==> needs_unsorted(fences, items)) by {
                assert(matching_fence(
                    fences,
                    path_file_name(items[items.len() - 1].path),
                    items[items.len() - 1].is_dir,
                ) is None);
            }
            let all = with_unsorted(mid);
            let r = unsorted_at(now)->0;
            if unsorted_at(fences) is Some {
                assert(before == fences && now == fences);
                assert(all == mid);
                assert(end == with_item(mid, r, it.path));
                assert forall|f: int| 0 <= f < now.len() implies #[trigger] end[f] == (FenceView {
                    items: now[f].items + received(fences, items, f),
                    ..now[f]
                }) by {
                    lemma_received_last(fences, items, f);
                    assert(mid[f] == (FenceView {
                        items: before[f].items + received(fences, rest, f),
                        ..before[f]
                    }));
                    if f == r {
                        assert(end[f].items =~= now[f].items + received(fences, items, f));
                    }
                }
            } else {
                assert(now == with_unsorted(fences));
                lemma_first_index(fences, is_unsorted());
                assert(r == fences.len()) by {
                    assert forall|j: int| 0 <= j < fences.len() implies !is_unsorted()(
                        #[trigger] now[j],
                    ) by {
                        assert(now[j] == fences[j]);
                    }
                    lemma_is_first(now, is_unsorted(), fences.len() as int);
                }
                if needs_unsorted(fences, rest) {
                    assert(before == now);
                    assert(all == mid);
                } else {
                    assert(before == fences);
                    assert(unsorted_at(mid) is None);
                    assert(all == mid.push(now.last()));
                    assert forall|i: int| 0 <= i < rest.len() implies receiver(
                        fences,
                        #[trigger] rest[i],
                    ) != fences.len() by {
                        lemma_placed_one(fences, rest[i]);
                    }
                    lemma_nothing_received(fences, rest, fences.len() as int);
                }
                assert(same_heads(all, now)) by {
                    assert forall|f: int| 0 <= f < now.len() implies (#[trigger] all[f]).id
                        == now[f].id && all[f].title == now[f].title && all[f].rules
                        == now[f].rules by {
                        if f < mid.len() {
                            assert(all[f] == mid[f]);
                        }
                    }
                }
                lemma_items_do_not_matter(all, now);
                assert(end == with_item(all, r, it.path));
                assert forall|f: int| 0 <= f < now.len() implies #[trigger] end[f] == (FenceView {
                    items: now[f].items + received(fences, items, f),
                    ..now[f]
                }) by {
                    lemma_received_last(fences, items, f);
                    if f < before.len() {
                        assert(mid[f] == (FenceView {
                            items: before[f].items + received(fences, rest, f),
                            ..before[f]
                        }));
                        assert(before[f] == now[f]);
                    }
                    if f == r {
                        assert(end[f].items =~= now[f].items + received(fences, items, f));
                    }
                }
            }
        }
    }
}

/// After a refresh each fence holds what it kept, and behind that, in the
/// order in which they were found, the new items that go to it; it is
/// otherwise as it was. A catch-all fence is made exactly if there is none and
/// some new item is accepted by no rule, and then holds all such items.
pub proof fn law_what_a_refresh_does(cfg: ConfigView, disk: Seq<ItemView>)
    ensures
        ({
            let fences = cfg.fences;
            let end = reconciled(cfg, disk).fences;
            let more = arrivals(fences, disk);
            &&& reconciled(cfg, disk).version == cfg.version
            &&& reconciled(cfg, disk).icon_size == cfg.icon_size
            &&& end.len() == if needs_unsorted(fences, more) {
                fences.len() + 1
            } else {
                fences.len()
            }
            &&& forall|f: int|
                0 <= f < fences.len() ==> #[trigger] end[f] == (FenceView {
                    items: kept(fences, disk)[f].items + received(fences, more, f),
                    ..fences[f]
                })
            &&& needs_unsorted(fences, more) ==> {
                &&& end.last().title == "Unsorted"@
                &&& end.last().items == received(fences, more, fences.len() as int)
                &&& end.last().rules.len() == 0
            }
        }),
{
    let fences = cfg.fences;
    let base = kept(fences, disk);
    let more = arrivals(fences, disk);
    let end = reconciled(cfg, disk).fences;
    lemma_kept(fences, disk);
    lemma_items_do_not_matter(fences, base);
    lemma_placed_exactly(base, more);
    assert forall|it: ItemView| receiver(fences, it) == #[trigger] receiver(base, it) by {
        assert(sent_to(fences, it) == sent_to(base, it));
    }
    assert forall|f: int| received(base, more, f) == #[trigger] received(fences, more, f) by {
        lemma_same_filter(
            more,
            |it: ItemView| receiver(base, it) == f,
            |it: ItemView| receiver(fences, it) == f,
        );
    }
    assert(needs_unsorted(base, more) == needs_unsorted(fences, more)) by {
        assert forall|i: int| 0 <= i < more.len() implies matching_fence(
            fences,
            path_file_name((#[trigger] more[i]).path),
            more[i].is_dir,
        ) == matching_fence(base, path_file_name(more[i].path), more[i].is_dir) by {
            assert(sent_to(fences, more[i]) == sent_to(base, more[i]));
        }
    }
    assert forall|f: int| 0 <= f < fences.len() implies #[trigger] end[f] == (FenceView {
        items: base[f].items + received(fences, more, f),
        ..fences[f]
    }) by {
        assert(stage(base, more)[f] == base[f]);
        assert(received(base, more, f) == received(fences, more, f));
    }
    if needs_unsorted(fences, more) {
        let n = fences.len() as int;
        let f = stage(base, more)[n];
        assert(f.items + received(fences, more, n) =~= received(fences, more, n));
        assert(received(base, more, n) == received(fences, more, n));
        assert(end[n].items == received(fences, more, n));
    }
}

/// Every file of a Desktop folder is shown but the one called "desktop.ini",
/// in any case; they are shown in the order in which they were found, each
/// with its path and whether it is a directory.
pub proof fn law_what_is_shown(found: Seq<FoundView>)
    ensures
        found.filter_map(shown()) == found.filter(
            |f: FoundView| !same_but_ascii_case(f.name, "desktop.ini"@),
        ).map_values(|f: FoundView| ItemView { path: f.path, is_dir: f.is_dir }),
    decreases found.len(),
{
    reveal(Seq::filter);
    reveal(Seq::filter_map);
    let p = |f: FoundView| !same_but_ascii_case(f.name, "desktop.ini"@);
    let g = |f: FoundView| ItemView { path: f.path, is_dir: f.is_dir };
    if found.len() == 0 {
        assert(found.filter_map(shown()) =~= found.filter(p).map_values(g));
    } else {
        let t = found.drop_last();
        law_what_is_shown(t);
        assert(found.filter_map(shown()) =~= found.filter(p).map_values(g));
    }
}

/// All items find a fence where there can be a catch-all fence, or where the
/// rules send every one of them somewhere; else some item does not.
pub proof fn law_room_for_all(fences: Seq<FenceView>, items: Seq<ItemView>, i: int)
    ensures
        can_have_unsorted(fences) ==> can_place(fences, items),
        (forall|k: int| 0 <= k < items.len() ==> sent_to(fences, #[trigger] items[k]) is Some)
            ==> can_place(fences, items),
        !can_have_unsorted(fences) && 0 <= i < items.len() && sent_to(fences, items[i]) is None
            ==> !can_place(fences, items),
{
}

} // verus!
