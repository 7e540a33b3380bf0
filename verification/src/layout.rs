//! What the user does to the layout: dropping items, deleting and renaming
//! fences, moving windows, and the appearance that all fences share.

use vstd::prelude::*;
use crate::color::{color_text, format_color};
use crate::config::{
    can_have_unsorted, ensure_unsorted, fence_at, fence_index, fence_views, has_free_number, has_id,
    holding, is_unsorted, lemma_times_held_push, lemma_times_held_remove, lemma_times_held_update,
    new_unsorted, next_id, number_is_free, times_held, unsorted_at, unsorted_index, with_unsorted,
    Config, ConfigView, FenceConfig, FenceView, Real,
};
use crate::desktop::{lemma_items_do_not_matter, same_heads};
use crate::fence::{pushed_away, FenceState, StateView};
use crate::geometry::{fits, Rect};
use crate::list::{
    among, comes_before, contains, copy_of, extend, is_stable_order, lemma_filter_take,
    lemma_first_index, lemma_is_first, lemma_places_occur, select, stable_order,
};
use crate::text::{same_text, texts, trim, trimmed};

verus! {

broadcast use crate::text::lemma_texts_push;

/// Items with those among `paths` taken together before the place `at`.
pub open spec fn reordered(items: Seq<Seq<char>>, paths: Seq<Seq<char>>, at: int) -> Seq<
    Seq<char>,
> {
    items.take(at).filter(among(paths, false)) + items.filter(among(paths, true)) + items.skip(
        at,
    ).filter(among(paths, false))
}

/// Items with more of them at a cell, or behind the last one.
pub open spec fn inserted(
    items: Seq<Seq<char>>,
    more: Seq<Seq<char>>,
    at: Option<usize>,
) -> Seq<Seq<char>> {
    match at {
        Some(i) if i < items.len() => items.take(i as int) + more + items.skip(i as int),
        _ => items + more,
    }
}

/// The cell `i`, or the one behind the last item.
pub open spec fn within(i: usize, len: nat) -> int {
    if i < len {
        i as int
    } else {
        len as int
    }
}

/// What a drop does to the fences, and whether it did anything to be saved.
/// The items keep their order.
pub open spec fn dropped(
    fences: Seq<FenceView>,
    source: Seq<char>,
    target: Seq<char>,
    paths: Seq<Seq<char>>,
    at: Option<usize>,
) -> (Seq<FenceView>, bool) {
    match fence_at(fences, source) {
        None => (fences, false),
        Some(s) => {
            let items = fences[s].items;
            let dragged = items.filter(among(paths, true));
            if dragged.len() == 0 {
                (fences, false)
            } else if source == target {
                match at {
                    Some(i) => (
                        fences.update(
                            s,
                            holding(fences[s], reordered(items, paths, within(i, items.len()))),
                        ),
                        true,
                    ),
                    None => (fences, false),
                }
            } else {
                match fence_at(fences, target) {
                    Some(t) => {
                        let rest = fences.update(
                            s,
                            holding(fences[s], items.filter(among(paths, false))),
                        );
                        (
                            rest.update(t, holding(rest[t], inserted(rest[t].items, dragged, at))),
                            true,
                        )
                    },
                    None => (fences, false),
                }
            }
        },
    }
}

/// Replaces the items of a fence.
fn set_items(cfg: &mut Config, i: usize, items: Vec<String>)
    requires
        i < old(cfg).fences@.len(),
    ensures
        final(cfg)@ == (ConfigView {
            fences: old(cfg)@.fences.update(
                i as int,
                holding(old(cfg)@.fences[i as int], texts(items@)),
            ),
            ..old(cfg)@
        }),
        final(cfg).fences@.len() == old(cfg).fences@.len(),
{
    let ghost before = cfg@.fences;
    cfg.fences[i].items = items;
    assert(cfg@.fences =~= before.update(i as int, holding(before[i as int], texts(items@))));
}

/// Drops the items among `paths` of the fence `source` onto the fence
/// `target`, at the grid cell `at` if there is one under the mouse: reorders
/// within a fence, or assigns to the other one. Anywhere else nothing happens.
/// Tells whether the layout is to be saved.
pub fn complete_drop(
    cfg: &mut Config,
    source: &str,
    target: &str,
    paths: &Vec<String>,
    at: Option<usize>,
) -> (r: bool)
    ensures
        final(cfg)@ == (ConfigView {
            fences: dropped(old(cfg)@.fences, source@, target@, texts(paths@), at).0,
            ..old(cfg)@
        }),
        r == dropped(old(cfg)@.fences, source@, target@, texts(paths@), at).1,
{
    let ghost fences = cfg@.fences;
    let ghost chosen = texts(paths@);
    let s = match fence_index(cfg, source) {
        Some(s) => s,
        None => {
            return false;
        },
    };
    let ghost items = fences[s as int].items;
    let len: usize = cfg.fences[s].items.len();
    proof {
        assert(items == texts(cfg.fences@[s as int].items@));
        assert(items.subrange(0, len as int) =~= items);
    }
    let dragged = select(&cfg.fences[s].items, 0, len, paths, true);
    assert(texts(dragged@).len() == dragged@.len());
    if dragged.len() == 0 {
        return false;
    }
    if same_text(source, target) {
        let i = match at {
            Some(i) => i,
            None => {
                return false;
            },
        };
        let to = if i < len {
            i
        } else {
            len
        };
        let mut order = select(&cfg.fences[s].items, 0, to, paths, false);
        let behind = select(&cfg.fences[s].items, to, len, paths, false);
        extend(&mut order, &dragged);
        extend(&mut order, &behind);
        proof {
            assert(items.subrange(0, to as int) =~= items.take(to as int));
            assert(items.subrange(to as int, len as int) =~= items.skip(to as int));
            assert(texts(order@) =~= reordered(items, chosen, to as int));
        }
        set_items(cfg, s, order);
        return true;
    }
    match fence_index(cfg, target) {
        Some(t) => {
            let rest = select(&cfg.fences[s].items, 0, len, paths, false);
            set_items(cfg, s, rest);
            let ghost left = cfg@.fences;
            let n: usize = cfg.fences[t].items.len();
            let mut order: Vec<String>;
            let ghost there = left[t as int].items;
            match at {
                Some(i) if i < n => {
                    order = copy_part(&cfg.fences[t].items, 0, i);
                    let behind = copy_part(&cfg.fences[t].items, i, n);
                    extend(&mut order, &dragged);
                    extend(&mut order, &behind);
                    proof {
                        assert(there.subrange(0, i as int) =~= there.take(i as int));
                        assert(there.subrange(i as int, n as int) =~= there.skip(i as int));
                    }
                },
                _ => {
                    order = copy_of(&cfg.fences[t].items);
                    extend(&mut order, &dragged);
                },
            }
            set_items(cfg, t, order);
            true
        },
        None => false,
    }
}

/// Copies the strings from `from` up to `to`.
fn copy_part(list: &Vec<String>, from: usize, to: usize) -> (r: Vec<String>)
    requires
        from <= to <= list@.len(),
    ensures
        texts(r@) == texts(list@).subrange(from as int, to as int),
{
    let mut out: Vec<String> = Vec::new();
    let mut i: usize = from;
    assert(texts(out@) =~= texts(list@).subrange(from as int, from as int));
    while i < to
        invariant
            from <= i <= to <= list@.len(),
            texts(out@) == texts(list@).subrange(from as int, i as int),
        decreases to - i,
    {
        out.push(list[i].clone());
        assert(texts(out@) =~= texts(list@).subrange(from as int, i + 1));
        i = i + 1;
    }
    out
}

/// Selecting splits a list into what is among `paths` and what is not.
proof fn lemma_split(items: Seq<Seq<char>>, paths: Seq<Seq<char>>, x: Seq<char>)
    ensures
        items.filter(among(paths, true)).to_multiset().count(x) + items.filter(
            among(paths, false),
        ).to_multiset().count(x) == items.to_multiset().count(x),
    decreases items.len(),
{
    broadcast use vstd::seq_lib::group_to_multiset_ensures;

    reveal(Seq::filter);
    if items.len() > 0 {
        let t = items.drop_last();
        lemma_split(t, paths, x);
        assert(t.push(items.last()) =~= items);
    }
}

/// Selecting from what was selected finds all of it or nothing.
proof fn lemma_select_twice(items: Seq<Seq<char>>, paths: Seq<Seq<char>>, a: bool, b: bool)
    ensures
        items.filter(among(paths, a)).filter(among(paths, b)) == if a == b {
            items.filter(among(paths, a))
        } else {
            Seq::empty()
        },
    decreases items.len(),
{
    reveal(Seq::filter);
    if items.len() > 0 {
        let t = items.drop_last();
        lemma_select_twice(t, paths, a, b);
        let picked = t.filter(among(paths, a));
        if among(paths, a)(items.last()) {
            assert(picked.push(items.last()).drop_last() =~= picked);
        }
    }
}

/// Reordering keeps every item, keeps the order of the dragged items and
/// keeps the order of the others.
pub proof fn law_reorder_keeps_order(items: Seq<Seq<char>>, paths: Seq<Seq<char>>, at: int)
    requires
        0 <= at <= items.len(),
    ensures
        reordered(items, paths, at).to_multiset() == items.to_multiset(),
        reordered(items, paths, at).filter(among(paths, true)) == items.filter(among(paths, true)),
        reordered(items, paths, at).filter(among(paths, false)) == items.filter(
            among(paths, false),
        ),
{
    let front = items.take(at).filter(among(paths, false));
    let dragged = items.filter(among(paths, true));
    let back = items.skip(at).filter(among(paths, false));
    assert(items.take(at) + items.skip(at) =~= items);
    Seq::filter_distributes_over_add(items.take(at), items.skip(at), among(paths, false));
    assert(items.filter(among(paths, false)) == front + back);
    assert forall|b: bool| #[trigger]
        (front + dragged + back).filter(among(paths, b)) == items.filter(among(paths, b)) by {
        Seq::filter_distributes_over_add(front + dragged, back, among(paths, b));
        Seq::filter_distributes_over_add(front, dragged, among(paths, b));
        lemma_select_twice(items.take(at), paths, false, b);
        lemma_select_twice(items, paths, true, b);
        lemma_select_twice(items.skip(at), paths, false, b);
        if b {
            assert(Seq::<Seq<char>>::empty() + dragged + Seq::<Seq<char>>::empty() =~= dragged);
        } else {
            assert(front + Seq::<Seq<char>>::empty() + back =~= front + back);
        }
    }
    assert(reordered(items, paths, at).filter(among(paths, true)) == dragged);
    assert(reordered(items, paths, at).filter(among(paths, false)) == front + back);
    assert forall|x: Seq<char>| #[trigger]
        reordered(items, paths, at).to_multiset().count(x) == items.to_multiset().count(x) by {
        lemma_split(items, paths, x);
        lemma_split(reordered(items, paths, at), paths, x);
    }
    assert(reordered(items, paths, at).to_multiset() =~= items.to_multiset());
}

/// What is inserted is added.
proof fn lemma_inserted(
    items: Seq<Seq<char>>,
    more: Seq<Seq<char>>,
    at: Option<usize>,
    x: Seq<char>,
)
    ensures
        inserted(items, more, at).to_multiset().count(x) == items.to_multiset().count(x)
            + more.to_multiset().count(x),
{
    vstd::seq_lib::lemma_multiset_commutative(items, more);
    match at {
        Some(i) if i < items.len() => {
            let front = items.take(i as int);
            let back = items.skip(i as int);
            assert(front + back =~= items);
            vstd::seq_lib::lemma_multiset_commutative(front, back);
            vstd::seq_lib::lemma_multiset_commutative(front, more);
            vstd::seq_lib::lemma_multiset_commutative(front + more, back);
        },
        _ => {},
    }
}

/// A drop loses no item and makes none: each is held as often as before.
pub proof fn law_drop_keeps_items(
    fences: Seq<FenceView>,
    source: Seq<char>,
    target: Seq<char>,
    paths: Seq<Seq<char>>,
    at: Option<usize>,
    item: Seq<char>,
)
    ensures
        times_held(dropped(fences, source, target, paths, at).0, item) == times_held(fences, item),
{
    lemma_first_index(fences, has_id(source));
    lemma_first_index(fences, has_id(target));
    if fence_at(fences, source) is Some {
        let s = fence_at(fences, source)->0;
        let items = fences[s].items;
        if items.filter(among(paths, true)).len() > 0 {
            lemma_split(items, paths, item);
            if source == target {
                if at is Some {
                    let to = within(at->0, items.len());
                    law_reorder_keeps_order(items, paths, to);
                    lemma_times_held_update(
                        fences,
                        s,
                        holding(fences[s], reordered(items, paths, to)),
                        item,
                    );
                }
            } else if fence_at(fences, target) is Some {
                let t = fence_at(fences, target)->0;
                let f = holding(fences[s], items.filter(among(paths, false)));
                let rest = fences.update(s, f);
                let dragged = items.filter(among(paths, true));
                lemma_times_held_update(fences, s, f, item);
                lemma_inserted(rest[t].items, dragged, at, item);
                lemma_times_held_update(
                    rest,
                    t,
                    holding(rest[t], inserted(rest[t].items, dragged, at)),
                    item,
                );
            }
        }
    }
}

/// A drop that is not to be saved changes nothing: a drop from or on a fence
/// that the layout does not hold, of nothing that the fence holds, or within a
/// fence outside of its grid.
pub proof fn law_refused_drop_changes_nothing(
    fences: Seq<FenceView>,
    source: Seq<char>,
    target: Seq<char>,
    paths: Seq<Seq<char>>,
    at: Option<usize>,
)
    ensures
        !dropped(fences, source, target, paths, at).1 ==> dropped(
            fences,
            source,
            target,
            paths,
            at,
        ).0 == fences,
        dropped(fences, source, target, paths, at).1 == {
            &&& fence_at(fences, source) matches Some(s) && fences[s].items.filter(
                among(paths, true),
            ).len() > 0
            &&& fence_at(fences, target) is Some
            &&& source == target ==> at is Some
        },
{
}

/// After a drop on another fence, that fence holds the dragged items and the
/// fence they came from holds none of them.
pub proof fn law_drop_moves_items(
    fences: Seq<FenceView>,
    source: Seq<char>,
    target: Seq<char>,
    paths: Seq<Seq<char>>,
    at: Option<usize>,
    item: Seq<char>,
)
    requires
        source != target,
        fence_at(fences, source) is Some,
        fence_at(fences, target) is Some,
        paths.contains(item),
        fences[fence_at(fences, source)->0].items.contains(item),
    ensures
        ({
            let after = dropped(fences, source, target, paths, at).0;
            &&& dropped(fences, source, target, paths, at).1
            &&& !after[fence_at(fences, source)->0].items.contains(item)
            &&& after[fence_at(fences, target)->0].items.contains(item)
        }),
{
    lemma_first_index(fences, has_id(source));
    lemma_first_index(fences, has_id(target));
    let s = fence_at(fences, source)->0;
    let t = fence_at(fences, target)->0;
    let items = fences[s].items;
    let dragged = items.filter(among(paths, true));
    let kept = items.filter(among(paths, false));
    let n = choose|n: int| 0 <= n < items.len() && items[n] == item;
    items.lemma_filter_contains(among(paths, true), n);
    assert forall|j: int| 0 <= j < kept.len() implies kept[j] != item by {
        items.lemma_filter_pred(among(paths, false), j);
    }
    let there = fences[t].items;
    let all = inserted(there, dragged, at);
    let k = choose|k: int| 0 <= k < dragged.len() && dragged[k] == item;
    match at {
        Some(i) if i < there.len() => {
            assert(all[i + k] == item);
        },
        _ => {
            assert(all[there.len() + k] == item);
        },
    }
}

/// What became of a request to delete a fence.
#[derive(Debug)]
pub enum Deletion {
    /// There is no such fence, or it is the catch-all fence and holds items.
    Refused,
    /// The fence is gone; it held nothing.
    Removed,
    /// The fence is gone; the fence with this id holds its items now.
    MovedTo { id: String },
}

/// Whether a fence may be deleted: a catch-all fence only while it is empty.
pub open spec fn may_go(f: FenceView) -> bool {
    f.title != "Unsorted"@ || f.items.len() == 0
}

/// Fences with more items at the end of the catch-all fence.
pub open spec fn given_to_unsorted(fences: Seq<FenceView>, items: Seq<Seq<char>>) -> Seq<
    FenceView,
> {
    let all = with_unsorted(fences);
    let u = unsorted_at(all)->0;
    all.update(u, holding(all[u], all[u].items + items))
}

/// The fences after a request to delete the fence `id`.
pub open spec fn without_fence(fences: Seq<FenceView>, id: Seq<char>) -> Seq<FenceView> {
    match fence_at(fences, id) {
        Some(i) => if !may_go(fences[i]) {
            fences
        } else if fences[i].items.len() == 0 {
            fences.remove(i)
        } else {
            given_to_unsorted(fences.remove(i), fences[i].items)
        },
        None => fences,
    }
}

/// Whether a fence for the items of the fence `id` is there or can be made.
pub open spec fn can_take_over(fences: Seq<FenceView>, id: Seq<char>) -> bool {
    match fence_at(fences, id) {
        Some(i) => may_go(fences[i]) && fences[i].items.len() > 0 ==> can_have_unsorted(
            fences.remove(i),
        ),
        None => true,
    }
}

/// Whether a fence for the items of the fence `id` is there or can be made.
pub fn has_successor(cfg: &Config, id: &str) -> (r: bool)
    ensures
        r == can_take_over(cfg@.fences, id@),
{
    match fence_index(cfg, id) {
        Some(i) => {
            let unsorted = same_text(&cfg.fences[i].title, "Unsorted");
            assert(cfg@.fences[i as int] == cfg.fences@[i as int]@);
            if unsorted || cfg.fences[i].items.len() == 0 {
                return true;
            }
            let mut rest = cfg.clone();
            let ghost before = rest@.fences;
            let _ = rest.fences.remove(i);
            assert(rest@.fences =~= before.remove(i as int));
            unsorted_index(&rest).is_some() || number_is_free(&rest)
        },
        None => true,
    }
}

/// Deletes a fence; what it holds goes to the catch-all fence, which is
/// created if there is none.
pub fn delete_fence(cfg: &mut Config, id: &str) -> (r: Deletion)
    requires
        can_take_over(old(cfg)@.fences, id@),
    ensures
        final(cfg)@ == (ConfigView { fences: without_fence(old(cfg)@.fences, id@), ..old(cfg)@ }),
        match fence_at(old(cfg)@.fences, id@) {
            Some(i) => if !may_go(old(cfg)@.fences[i]) {
                r is Refused
            } else if old(cfg)@.fences[i].items.len() == 0 {
                r is Removed
            } else {
                &&& r is MovedTo
                &&& r->id@ == final(cfg)@.fences[unsorted_at(final(cfg)@.fences)->0].id
            },
            None => r is Refused,
        },
{
    let ghost fences = cfg@.fences;
    let i = match fence_index(cfg, id) {
        Some(i) => i,
        None => {
            return Deletion::Refused;
        },
    };
    assert(cfg@.fences[i as int] == cfg.fences@[i as int]@);
    if same_text(&cfg.fences[i].title, "Unsorted") && cfg.fences[i].items.len() > 0 {
        return Deletion::Refused;
    }
    let removed = cfg.fences.remove(i);
    assert(cfg@.fences =~= fences.remove(i as int));
    if removed.items.len() == 0 {
        return Deletion::Removed;
    }
    let u = ensure_unsorted(cfg);
    let ghost all = cfg@.fences;
    let mut items = copy_of(&cfg.fences[u].items);
    extend(&mut items, &removed.items);
    set_items(cfg, u, items);
    proof {
        assert(same_heads(all, cfg@.fences));
        lemma_items_do_not_matter(all, cfg@.fences);
    }
    Deletion::MovedTo { id: cfg.fences[u].id.clone() }
}

/// Deleting a fence loses no item and makes none.
pub proof fn law_deletion_keeps_items(fences: Seq<FenceView>, id: Seq<char>, item: Seq<char>)
    ensures
        times_held(without_fence(fences, id), item) == times_held(fences, item),
{
    broadcast use vstd::seq_lib::group_to_multiset_ensures;

    lemma_first_index(fences, has_id(id));
    match fence_at(fences, id) {
        Some(i) => {
            let rest = fences.remove(i);
            let items = fences[i].items;
            lemma_times_held_remove(fences, i, item);
            if items.len() == 0 {
                assert(!items.contains(item));
            } else if may_go(fences[i]) {
                let all = with_unsorted(rest);
                lemma_first_index(rest, is_unsorted());
                if unsorted_at(rest) is None {
                    let f = new_unsorted(next_id(rest));
                    lemma_times_held_push(rest, f, item);
                    assert(!f.items.contains(item));
                    assert forall|j: int| 0 <= j < rest.len() implies !is_unsorted()(
                        #[trigger] all[j],
                    ) by {
                        assert(all[j] == rest[j]);
                    }
                    lemma_is_first(all, is_unsorted(), rest.len() as int);
                }
                let u = unsorted_at(all)->0;
                vstd::seq_lib::lemma_multiset_commutative(all[u].items, items);
                lemma_times_held_update(all, u, holding(all[u], all[u].items + items), item);
            }
        },
        None => {},
    }
}

/// A catch-all fence that holds items is never deleted.
pub proof fn law_unsorted_stays(fences: Seq<FenceView>, id: Seq<char>)
    requires
        fence_at(fences, id) matches Some(i) && fences[i].title == "Unsorted"@
            && fences[i].items.len() > 0,
    ensures
        without_fence(fences, id) == fences,
{
}

/// The height of a fence in the layout: a rolled-up fence keeps the height
/// that it opens to.
pub open spec fn kept_height(s: StateView, rc: Rect) -> i32 {
    if s.rolled_up {
        s.restore_height
    } else {
        (rc.bottom - rc.top) as i32
    }
}

/// The fence of a window that stands at `rc`.
pub open spec fn placed_at(f: FenceView, s: StateView, rc: Rect, monitor: u32) -> FenceView {
    FenceView {
        x: rc.left,
        y: rc.top,
        w: (rc.right - rc.left) as i32,
        h: kept_height(s, rc),
        rolled_up: s.rolled_up,
        monitor,
        ..f
    }
}

/// The fences when the window of the fence `s.id` stands at `rc`. A fence
/// that was pushed away stands there for a while only, and is not followed.
pub open spec fn following(
    fences: Seq<FenceView>,
    s: StateView,
    rc: Rect,
    monitor: u32,
) -> Seq<FenceView> {
    match fence_at(fences, s.id) {
        Some(i) if s.displaced is None => fences.update(i, placed_at(fences[i], s, rc, monitor)),
        _ => fences,
    }
}

/// Takes over where the window of a fence stands. Tells whether that changed
/// the layout.
pub fn sync_to_config(cfg: &mut Config, state: &FenceState, rc: Rect, monitor: u32) -> (r: bool)
    requires
        state@.displaced is None ==> fits(rc.right - rc.left) && (state@.rolled_up || fits(
            rc.bottom - rc.top,
        )),
    ensures
        final(cfg)@ == (ConfigView {
            fences: following(old(cfg)@.fences, state@, rc, monitor),
            ..old(cfg)@
        }),
        r == (final(cfg)@ != old(cfg)@),
{
    if state.displaced.is_some() {
        return false;
    }
    let h = if state.rolled_up {
        state.restore_height
    } else {
        rc.bottom - rc.top
    };
    let w = rc.right - rc.left;
    let i = match fence_index(cfg, &state.id) {
        Some(i) => i,
        None => {
            return false;
        },
    };
    let ghost before = cfg@.fences;
    let ghost f = before[i as int];
    let f_now = &cfg.fences[i];
    if rc.left == f_now.x && rc.top == f_now.y && w == f_now.w && h == f_now.h && state.rolled_up
        == f_now.rolled_up && monitor == f_now.monitor {
        assert(before.update(i as int, placed_at(f, state@, rc, monitor)) =~= before);
        return false;
    }
    cfg.fences[i].x = rc.left;
    cfg.fences[i].y = rc.top;
    cfg.fences[i].w = w;
    cfg.fences[i].h = h;
    cfg.fences[i].rolled_up = state.rolled_up;
    cfg.fences[i].monitor = monitor;
    proof {
        assert(cfg@.fences =~= before.update(i as int, placed_at(f, state@, rc, monitor)));
        assert(cfg@.fences[i as int] != f);
    }
    true
}

/// A window that stands where its layout says leaves the layout as it is.
pub proof fn law_sync_is_idempotent(fences: Seq<FenceView>, s: StateView, rc: Rect, monitor: u32)
    ensures
        following(following(fences, s, rc, monitor), s, rc, monitor) == following(
            fences,
            s,
            rc,
            monitor,
        ),
{
    lemma_first_index(fences, has_id(s.id));
    let once = following(fences, s, rc, monitor);
    if s.displaced is None && fence_at(fences, s.id) is Some {
        assert(same_heads(fences, once));
        lemma_items_do_not_matter(fences, once);
        assert(following(once, s, rc, monitor) =~= once);
    }
}

/// Where a fence was pushed to is never saved.
pub proof fn law_pushed_place_is_not_saved(
    fences: Seq<FenceView>,
    s: StateView,
    top: i32,
    by: Seq<char>,
    rc: Rect,
    monitor: u32,
)
    ensures
        following(fences, pushed_away(s, top, by), rc, monitor) == fences,
{
}

/// The fences with one of them renamed.
pub open spec fn renamed(fences: Seq<FenceView>, id: Seq<char>, title: Seq<char>) -> Seq<
    FenceView,
> {
    match fence_at(fences, id) {
        Some(i) => fences.update(i, FenceView { title, ..fences[i] }),
        None => fences,
    }
}

/// Renames a fence to the entered text without the white space around it,
/// and gives that title; does nothing if there is no other text.
pub fn commit_rename(cfg: &mut Config, id: &str, entered: &str) -> (r: Option<String>)
    ensures
        trimmed(entered@).len() == 0 ==> r is None && final(cfg)@ == old(cfg)@,
        trimmed(entered@).len() > 0 ==> {
            &&& r is Some
            &&& r->0@ == trimmed(entered@)
            &&& final(cfg)@ == (ConfigView {
                fences: renamed(old(cfg)@.fences, id@, trimmed(entered@)),
                ..old(cfg)@
            })
        },
{
    let title = trim(entered);
    if title.as_str().is_empty() {
        return None;
    }
    match fence_index(cfg, id) {
        Some(i) => {
            let ghost before = cfg@.fences;
            cfg.fences[i].title = title.clone();
            assert(cfg@.fences =~= before.update(
                i as int,
                FenceView { title: title@, ..before[i as int] },
            ));
        },
        None => {},
    }
    Some(title)
}

/// The items of the fence `id`; none if there is no such fence.
pub open spec fn items_in(fences: Seq<FenceView>, id: Seq<char>) -> Seq<Seq<char>> {
    match fence_at(fences, id) {
        Some(i) => fences[i].items,
        None => Seq::empty(),
    }
}

/// The items of a fence.
pub fn fence_items(cfg: &Config, id: &str) -> (r: Vec<String>)
    ensures
        texts(r@) == items_in(cfg@.fences, id@),
{
    match fence_index(cfg, id) {
        Some(i) => copy_of(&cfg.fences[i].items),
        None => {
            let none: Vec<String> = Vec::new();
            assert(texts(none@) =~= Seq::<Seq<char>>::empty());
            none
        },
    }
}

/// The fences, each with another look.
pub open spec fn colored(fences: Seq<FenceView>, hex: u32) -> Seq<FenceView> {
    fences.map_values(|f: FenceView| FenceView { color: color_text(hex), ..f })
}

pub open spec fn with_opacity(fences: Seq<FenceView>, opacity: Real) -> Seq<FenceView> {
    fences.map_values(|f: FenceView| FenceView { opacity, ..f })
}

pub open spec fn with_radius(fences: Seq<FenceView>, corner_radius: Real) -> Seq<FenceView> {
    fences.map_values(|f: FenceView| FenceView { corner_radius, ..f })
}

/// Gives every fence a color.
pub fn set_all_color(cfg: &mut Config, hex: u32)
    ensures
        final(cfg)@ == (ConfigView { fences: colored(old(cfg)@.fences, hex), ..old(cfg)@ }),
{
    let ghost start = cfg@;
    let mut i: usize = 0;
    while i < cfg.fences.len()
        invariant
            i <= cfg.fences@.len() == start.fences.len(),
            cfg@.version == start.version,
            cfg@.icon_size == start.icon_size,
            forall|k: int|
                0 <= k < i ==> (#[trigger] cfg@.fences[k]) == colored(start.fences, hex)[k],
            forall|k: int| i <= k < start.fences.len() ==> (#[trigger] cfg@.fences[k])
                == start.fences[k],
        decreases cfg.fences@.len() - i,
    {
        let ghost before = cfg@.fences;
        cfg.fences[i].color = format_color(hex);
        assert(cfg@.fences =~= before.update(
            i as int,
            FenceView { color: color_text(hex), ..before[i as int] },
        ));
        i = i + 1;
    }
    assert(cfg@.fences =~= colored(start.fences, hex));
}

/// Gives every fence an opacity.
pub fn set_all_opacity(cfg: &mut Config, opacity: Real)
    ensures
        final(cfg)@ == (ConfigView {
            fences: with_opacity(old(cfg)@.fences, opacity),
            ..old(cfg)@
        }),
{
    let ghost start = cfg@;
    let mut i: usize = 0;
    while i < cfg.fences.len()
        invariant
            i <= cfg.fences@.len() == start.fences.len(),
            cfg@.version == start.version,
            cfg@.icon_size == start.icon_size,
            forall|k: int|
                0 <= k < i ==> (#[trigger] cfg@.fences[k]) == with_opacity(
                    start.fences,
                    opacity,
                )[k],
            forall|k: int| i <= k < start.fences.len() ==> (#[trigger] cfg@.fences[k])
                == start.fences[k],
        decreases cfg.fences@.len() - i,
    {
        let ghost before = cfg@.fences;
        cfg.fences[i].opacity = opacity;
        assert(cfg@.fences =~= before.update(i as int, FenceView { opacity, ..before[i as int] }));
        i = i + 1;
    }
    assert(cfg@.fences =~= with_opacity(start.fences, opacity));
}

/// Gives every fence a corner radius.
pub fn set_all_radius(cfg: &mut Config, corner_radius: Real)
    ensures
        final(cfg)@ == (ConfigView {
            fences: with_radius(old(cfg)@.fences, corner_radius),
            ..old(cfg)@
        }),
{
    let ghost start = cfg@;
    let mut i: usize = 0;
    while i < cfg.fences.len()
        invariant
            i <= cfg.fences@.len() == start.fences.len(),
            cfg@.version == start.version,
            cfg@.icon_size == start.icon_size,
            forall|k: int|
                0 <= k < i ==> (#[trigger] cfg@.fences[k]) == with_radius(
                    start.fences,
                    corner_radius,
                )[k],
            forall|k: int| i <= k < start.fences.len() ==> (#[trigger] cfg@.fences[k])
                == start.fences[k],
        decreases cfg.fences@.len() - i,
    {
        let ghost before = cfg@.fences;
        cfg.fences[i].corner_radius = corner_radius;
        assert(cfg@.fences =~= before.update(
            i as int,
            FenceView { corner_radius, ..before[i as int] },
        ));
        i = i + 1;
    }
    assert(cfg@.fences =~= with_radius(start.fences, corner_radius));
}

/// Items in the order of their keys.
pub open spec fn in_order(items: Seq<Seq<char>>, order: Seq<usize>) -> Seq<Seq<char>> {
    Seq::new(order.len(), |i: int| items[order[i] as int])
}

/// Sorting by color loses no item and makes none.
pub proof fn law_color_order_keeps_items(
    items: Seq<Seq<char>>,
    order: Seq<usize>,
    keys: Seq<u64>,
)
    requires
        is_stable_order(order, keys),
        items.len() == keys.len() <= usize::MAX,
    ensures
        in_order(items, order).to_multiset() == items.to_multiset(),
    decreases keys.len(),
{
    broadcast use vstd::seq_lib::group_to_multiset_ensures;

    let all = in_order(items, order);
    if keys.len() == 0 {
        assert(all =~= items);
    } else {
        let n = (keys.len() - 1) as int;
        lemma_places_occur(order, keys);
        assert(order.contains(n as usize));
        let k = choose|k: int| 0 <= k < order.len() && order[k] == n as usize;
        let fewer = order.remove(k);
        assert forall|i: int, j: int| 0 <= i < j < fewer.len() implies comes_before(
            #[trigger] fewer[i],
            #[trigger] fewer[j],
            keys.drop_last(),
        ) by {
            let a = if i < k { i } else { i + 1 };
            let b = if j < k { j } else { j + 1 };
            assert(comes_before(order[a], order[b], keys));
            assert(comes_before(order[a], order[k], keys) || comes_before(
                order[k],
                order[a],
                keys,
            ));
            assert(comes_before(order[b], order[k], keys) || comes_before(
                order[k],
                order[b],
                keys,
            ));
        }
        assert forall|i: int| 0 <= i < fewer.len() implies (#[trigger] fewer[i]) < n by {
            let a = if i < k { i } else { i + 1 };
            assert(order[a] < keys.len());
            assert(comes_before(order[a], order[k], keys) || comes_before(
                order[k],
                order[a],
                keys,
            ));
        }
        law_color_order_keeps_items(items.drop_last(), fewer, keys.drop_last());
        assert(all.remove(k) =~= in_order(items.drop_last(), fewer));
        assert(items.drop_last().push(items.last()) =~= items);
        assert(all[k] == items[n]);
        assert(all.to_multiset().remove(items[n]).insert(items[n]) =~= all.to_multiset());
    }
}

/// Puts the items of a fence in the order of their color keys, lowest first;
/// items with the same key keep their order.
pub fn sort_fence_by_color(cfg: &mut Config, id: &str, keys: &Vec<u64>)
    requires
        keys@.len() == items_in(old(cfg)@.fences, id@).len(),
    ensures
        match fence_at(old(cfg)@.fences, id@) {
            Some(i) => exists|order: Seq<usize>| #[trigger]
                is_stable_order(order, keys@) && final(cfg)@ == (ConfigView {
                    fences: old(cfg)@.fences.update(
                        i,
                        holding(
                            old(cfg)@.fences[i],
                            in_order(old(cfg)@.fences[i].items, order),
                        ),
                    ),
                    ..old(cfg)@
                }),
            None => final(cfg)@ == old(cfg)@,
        },
{
    match fence_index(cfg, id) {
        Some(f) => {
            let ghost items = cfg@.fences[f as int].items;
            assert(items == texts(cfg.fences@[f as int].items@));
            let order = stable_order(keys);
            let mut out: Vec<String> = Vec::new();
            let mut i: usize = 0;
            while i < order.len()
                invariant
                    f < cfg.fences@.len(),
                    items == texts(cfg.fences@[f as int].items@),
                    items.len() == keys@.len(),
                    is_stable_order(order@, keys@),
                    i <= order@.len(),
                    out@.len() == i,
                    forall|k: int| 0 <= k < i ==> (#[trigger] out@[k])@ == items[order@[k] as int],
                decreases order@.len() - i,
            {
                out.push(cfg.fences[f].items[order[i]].clone());
                i = i + 1;
            }
            assert(texts(out@) =~= in_order(items, order@));
            set_items(cfg, f, out);
        },
        None => {},
    }
}

/// How a drop would land, for the window that is painted.
#[derive(Clone, Copy, PartialEq, Eq, Structural, Debug)]
pub enum DropIndicator {
    Nothing,
    /// The window is another fence: a ring.
    Ring,
    /// Within the fence: a caret before a cell.
    Caret { index: usize },
}

/// A window that a drag is over, and how a drop would land there.
#[derive(Clone, Copy, PartialEq, Eq, Structural, Debug)]
pub struct DropTarget {
    pub window: i64,
    pub indicator: DropIndicator,
}

/// How a drop would land: before the cell under the mouse or behind the last
/// item within a fence, and on a ring on another.
pub fn drop_indicator(same_fence: bool, cell: Option<usize>, items: usize) -> (r: DropIndicator)
    ensures
        r == if !same_fence {
            DropIndicator::Ring
        } else {
            DropIndicator::Caret {
                index: match cell {
                    Some(i) if i < items => i,
                    _ => items,
                },
            }
        },
{
    if !same_fence {
        return DropIndicator::Ring;
    }
    match cell {
        Some(i) if i < items => DropIndicator::Caret { index: i },
        _ => DropIndicator::Caret { index: items },
    }
}

/// How a drop would land in one window.
pub fn indicator_for(target: Option<DropTarget>, window: i64) -> (r: DropIndicator)
    ensures
        r == match target {
            Some(t) if t.window == window => t.indicator,
            _ => DropIndicator::Nothing,
        },
{
    match target {
        Some(t) if t.window == window => t.indicator,
        _ => DropIndicator::Nothing,
    }
}

/// Takes over a new drop target. Gives the windows to repaint: the old and
/// the new one, if they differ in anything.
pub fn set_drop_target(target: &mut Option<DropTarget>, new: Option<DropTarget>) -> (r: (
    Option<i64>,
    Option<i64>,
))
    ensures
        *final(target) == new,
        r.0 == if *old(target) != new && *old(target) is Some {
            Some((*old(target))->0.window)
        } else {
            None
        },
        r.1 == if *old(target) != new && new is Some {
            Some(new->0.window)
        } else {
            None
        },
{
    let before = *target;
    *target = new;
    match (before, new) {
        (Some(a), Some(b)) => if a == b {
            (None, None)
        } else {
            (Some(a.window), Some(b.window))
        },
        (Some(a), None) => (Some(a.window), None),
        (None, Some(b)) => (None, Some(b.window)),
        (None, None) => (None, None),
    }
}

/// Sets the size of the icons of all fences.
pub fn set_icon_size(cfg: &mut Config, size: u32)
    ensures
        final(cfg)@ == (ConfigView { icon_size: size, ..old(cfg)@ }),
{
    cfg.icon_size = size;
}

/// Whether a fence is none of those that have a window.
pub open spec fn lacks_window(open: Seq<Seq<char>>) -> spec_fn(FenceView) -> bool {
    |f: FenceView| !open.contains(f.id)
}

/// The fences that have no window yet, given the ids of those that have one.
pub fn fences_without_window(cfg: &Config, open: &Vec<String>) -> (r: Vec<FenceConfig>)
    ensures
        fence_views(r@) == cfg@.fences.filter(lacks_window(texts(open@))),
{
    let ghost all = cfg@.fences;
    let ghost p = lacks_window(texts(open@));
    let mut out: Vec<FenceConfig> = Vec::new();
    let mut i: usize = 0;
    proof {
        reveal(Seq::filter);
        assert(fence_views(out@) =~= all.take(0).filter(p));
    }
    while i < cfg.fences.len()
        invariant
            all == cfg@.fences,
            p == lacks_window(texts(open@)),
            i <= cfg.fences@.len(),
            fence_views(out@) == all.take(i as int).filter(p),
        decreases cfg.fences@.len() - i,
    {
        let ghost before = fence_views(out@);
        proof {
            lemma_filter_take(all, p, i as int);
        }
        if !contains(open, &cfg.fences[i].id) {
            out.push(cfg.fences[i].clone());
            assert(fence_views(out@) =~= before.push(all[i as int]));
        }
        i = i + 1;
    }
    assert(all.take(all.len() as int) =~= all);
    out
}

/// A drop on another fence, at a cell of that fence: the dragged items stand
/// at that cell, in the order they had, what was before the cell stays there,
/// and what was from the cell on comes behind them. The fence they came from
/// has what was not dragged, in its order. No other fence changes, and of
/// these two nothing but their items.
pub proof fn law_drop_at_a_cell(
    fences: Seq<FenceView>,
    source: Seq<char>,
    target: Seq<char>,
    paths: Seq<Seq<char>>,
    cell: usize,
    s: int,
    t: int,
)
    requires
        source != target,
        fence_at(fences, source) == Some(s),
        fence_at(fences, target) == Some(t),
        exists|k: int|
            0 <= k < fences[s].items.len() && paths.contains(#[trigger] fences[s].items[k]),
        cell < fences[t].items.len(),
    ensures
        ({
            let dragged = fences[s].items.filter(|p: Seq<char>| paths.contains(p));
            let there = fences[t].items;
            let after = dropped(fences, source, target, paths, Some(cell)).0;
            &&& after.len() == fences.len()
            &&& after[t].items.len() == there.len() + dragged.len()
            &&& forall|j: int| 0 <= j < cell ==> #[trigger] after[t].items[j] == there[j]
            &&& forall|j: int|
                0 <= j < dragged.len() ==> after[t].items[cell + j] == #[trigger] dragged[j]
            &&& forall|j: int|
                cell <= j < there.len() ==> after[t].items[j + dragged.len()] == #[trigger] there[j]
            &&& after[s].items == fences[s].items.filter(|p: Seq<char>| !paths.contains(p))
            &&& holding(after[t], there) == fences[t]
            &&& holding(after[s], fences[s].items) == fences[s]
            &&& forall|f: int|
                0 <= f < fences.len() && f != s && f != t ==> #[trigger] after[f] == fences[f]
        }),
{
    lemma_drop_pieces(fences, source, target, paths, Some(cell), s, t);
}

/// A drop on another fence beside its cells, or behind the last of them, puts
/// the dragged items behind everything that the fence holds, in the order
/// they had. The fence they came from has what was not dragged. No other
/// fence changes, and of these two nothing but their items.
pub proof fn law_drop_beside_the_cells(
    fences: Seq<FenceView>,
    source: Seq<char>,
    target: Seq<char>,
    paths: Seq<Seq<char>>,
    at: Option<usize>,
    s: int,
    t: int,
)
    requires
        source != target,
        fence_at(fences, source) == Some(s),
        fence_at(fences, target) == Some(t),
        exists|k: int|
            0 <= k < fences[s].items.len() && paths.contains(#[trigger] fences[s].items[k]),
        at matches Some(i) ==> i >= fences[t].items.len(),
    ensures
        ({
            let dragged = fences[s].items.filter(|p: Seq<char>| paths.contains(p));
            let after = dropped(fences, source, target, paths, at).0;
            &&& after.len() == fences.len()
            &&& after[t].items == fences[t].items + dragged
            &&& after[s].items == fences[s].items.filter(|p: Seq<char>| !paths.contains(p))
            &&& holding(after[t], fences[t].items) == fences[t]
            &&& holding(after[s], fences[s].items) == fences[s]
            &&& forall|f: int|
                0 <= f < fences.len() && f != s && f != t ==> #[trigger] after[f] == fences[f]
        }),
{
    lemma_drop_pieces(fences, source, target, paths, at, s, t);
}

proof fn lemma_drop_pieces(
    fences: Seq<FenceView>,
    source: Seq<char>,
    target: Seq<char>,
    paths: Seq<Seq<char>>,
    at: Option<usize>,
    s: int,
    t: int,
)
    requires
        source != target,
        fence_at(fences, source) == Some(s),
        fence_at(fences, target) == Some(t),
        exists|k: int|
            0 <= k < fences[s].items.len() && paths.contains(#[trigger] fences[s].items[k]),
    ensures
        0 <= s < fences.len() && 0 <= t < fences.len() && s != t,
        ({
            let dragged = fences[s].items.filter(|p: Seq<char>| paths.contains(p));
            let rest = fences[s].items.filter(|p: Seq<char>| !paths.contains(p));
            dropped(fences, source, target, paths, at).0 == fences.update(
                s,
                holding(fences[s], rest),
            ).update(t, holding(fences[t], inserted(fences[t].items, dragged, at)))
        }),
{
    lemma_first_index(fences, has_id(source));
    lemma_first_index(fences, has_id(target));
    let items = fences[s].items;
    let p = |p: Seq<char>| paths.contains(p);
    let q = |p: Seq<char>| !paths.contains(p);
    assert(p =~= among(paths, true));
    assert(q =~= among(paths, false));
    let k = choose|k: int| 0 <= k < items.len() && paths.contains(#[trigger] items[k]);
    items.lemma_filter_contains(p, k);
    let rest = fences.update(s, holding(fences[s], items.filter(q)));
    assert(rest[t] == fences[t]);
}

/// A drop within a fence takes the dragged items out, closes the others up and
/// puts the dragged ones, in the order they had, behind those of the others
/// that were before the cell, and before those that were from the cell on. A
/// cell behind the last item counts as the end. Nothing else changes.
pub proof fn law_drop_within_a_fence(
    fences: Seq<FenceView>,
    id: Seq<char>,
    paths: Seq<Seq<char>>,
    cell: usize,
    to: int,
    s: int,
)
    requires
        fence_at(fences, id) == Some(s),
        exists|k: int|
            0 <= k < fences[s].items.len() && paths.contains(#[trigger] fences[s].items[k]),
        cell <= fences[s].items.len() ==> to == cell,
        cell > fences[s].items.len() ==> to == fences[s].items.len(),
    ensures
        ({
            let items = fences[s].items;
            let dragged = items.filter(|p: Seq<char>| paths.contains(p));
            let front = items.take(to).filter(|p: Seq<char>| !paths.contains(p));
            let back = items.skip(to).filter(|p: Seq<char>| !paths.contains(p));
            let after = dropped(fences, id, id, paths, Some(cell)).0;
            &&& after.len() == fences.len()
            &&& after[s].items.len() == items.len()
            &&& after[s].items == front + dragged + back
            &&& holding(after[s], items) == fences[s]
            &&& forall|f: int| 0 <= f < fences.len() && f != s ==> #[trigger] after[f] == fences[f]
        }),
{
    lemma_first_index(fences, has_id(id));
    let items = fences[s].items;
    let p = |p: Seq<char>| paths.contains(p);
    let q = |p: Seq<char>| !paths.contains(p);
    assert(p =~= among(paths, true));
    assert(q =~= among(paths, false));
    let k = choose|k: int| 0 <= k < items.len() && paths.contains(#[trigger] items[k]);
    items.lemma_filter_contains(p, k);
    assert(items.filter(p).len() > 0);
    assert(within(cell, items.len()) == to);
    let order = reordered(items, paths, to);
    assert(order.len() == items.len()) by {
        law_reorder_keeps_order(items, paths, to);
        order.to_multiset_ensures();
        items.to_multiset_ensures();
    }
}

/// A deleted fence is gone, and the others are as they were, but for the
/// catch-all fence, which has its items behind its own, in their order. If the
/// fence held nothing, the others are just as they were.
pub proof fn law_deletion(fences: Seq<FenceView>, id: Seq<char>, i: int)
    requires
        fence_at(fences, id) == Some(i),
        fences[i].title != "Unsorted"@ || fences[i].items.len() == 0,
    ensures
        ({
            let rest = fences.take(i) + fences.skip(i + 1);
            let after = without_fence(fences, id);
            &&& fences[i].items.len() == 0 ==> after == rest
            &&& fences[i].items.len() > 0 ==> {
                let all = with_unsorted(rest);
                &&& unsorted_at(all) matches Some(u) && after.len() == all.len() && after[u]
                    == holding(all[u], all[u].items + fences[i].items)
                &&& forall|f: int|
                    0 <= f < all.len() && Some(f) != unsorted_at(all) ==> #[trigger] after[f]
                        == all[f]
            }
        }),
{
    lemma_first_index(fences, has_id(id));
    let rest = fences.remove(i);
    assert(rest =~= fences.take(i) + fences.skip(i + 1));
    if fences[i].items.len() > 0 {
        let all = with_unsorted(rest);
        lemma_first_index(rest, is_unsorted());
        if unsorted_at(rest) is None {
            assert forall|j: int| 0 <= j < rest.len() implies !is_unsorted()(
                #[trigger] all[j],
            ) by {
                assert(all[j] == rest[j]);
            }
            lemma_is_first(all, is_unsorted(), rest.len() as int);
        }
    }
}

/// Nothing is deleted if no fence has the id, or if it is the id of a fence
/// titled "Unsorted" that holds items.
pub proof fn law_refused_deletion(fences: Seq<FenceView>, id: Seq<char>)
    ensures
        fence_at(fences, id) is None ==> without_fence(fences, id) == fences,
        (fence_at(fences, id) matches Some(i) && fences[i].title == "Unsorted"@
            && fences[i].items.len() > 0) ==> without_fence(fences, id) == fences,
        (fence_at(fences, id) matches Some(i) && (fences[i].title != "Unsorted"@
            || fences[i].items.len() == 0)) ==> may_go(fences[fence_at(fences, id)->0]),
        (fence_at(fences, id) matches Some(i) && fences[i].title == "Unsorted"@
            && fences[i].items.len() > 0) ==> !may_go(fences[fence_at(fences, id)->0]),
{
}

/// The layout follows the window of a fence: the fence has the window's corner
/// and width, its monitor and whether it is rolled up. An open fence has the
/// window's height, and a rolled-up one the height that it opens to. Nothing
/// else of the fence changes, and no other fence does.
pub proof fn law_following_a_window(
    fences: Seq<FenceView>,
    s: StateView,
    rc: Rect,
    monitor: u32,
    i: int,
)
    requires
        s.displaced is None,
        fence_at(fences, s.id) == Some(i),
        fits(rc.right - rc.left),
        fits(rc.bottom - rc.top),
    ensures
        ({
            let after = following(fences, s, rc, monitor);
            let f = after[i];
            &&& after.len() == fences.len()
            &&& f.x == rc.left && f.y == rc.top
            &&& f.x + f.w == rc.right
            &&& !s.rolled_up ==> f.y + f.h == rc.bottom
            &&& s.rolled_up ==> f.h == s.restore_height
            &&& f.rolled_up == s.rolled_up && f.monitor == monitor
            &&& f.id == fences[i].id && f.title == fences[i].title && f.color == fences[i].color
            &&& f.opacity == fences[i].opacity && f.corner_radius == fences[i].corner_radius
            &&& f.items == fences[i].items && f.rules == fences[i].rules
            &&& forall|k: int| 0 <= k < fences.len() && k != i ==> #[trigger] after[k] == fences[k]
        }),
{
    lemma_first_index(fences, has_id(s.id));
}

/// A window that was pushed away, or that belongs to no fence of the layout,
/// is not followed.
pub proof fn law_not_following(fences: Seq<FenceView>, s: StateView, rc: Rect, monitor: u32)
    ensures
        s.displaced is Some || fence_at(fences, s.id) is None ==> following(fences, s, rc, monitor)
            == fences,
{
}

/// A renamed fence has the new title and is otherwise as it was, and so are
/// the other fences. An id that no fence has renames nothing.
pub proof fn law_renaming(fences: Seq<FenceView>, id: Seq<char>, title: Seq<char>)
    ensures
        ({
            let after = renamed(fences, id, title);
            &&& after.len() == fences.len()
            &&& fence_at(fences, id) is None ==> after == fences
            &&& fence_at(fences, id) matches Some(i) ==> {
                &&& after[i].title == title
                &&& fences[i] == (FenceView { title: fences[i].title, ..after[i] })
                &&& forall|k: int|
                    0 <= k < fences.len() && k != i ==> #[trigger] after[k] == fences[k]
            }
        }),
{
    lemma_first_index(fences, has_id(id));
}

/// The items of a fence are those of the first fence with its id.
pub proof fn law_items_of_a_fence(fences: Seq<FenceView>, id: Seq<char>)
    ensures
        fence_at(fences, id) matches Some(i) ==> items_in(fences, id) == fences[i].items,
        fence_at(fences, id) is None ==> items_in(fences, id).len() == 0,
{
}

/// A look that is set is set on every fence, and nothing else changes: a color
/// is read back from the layout as it was chosen, and opacity and radius are
/// kept as they were given.
pub proof fn law_look_of_all_fences(fences: Seq<FenceView>, hex: u32, v: Real, i: int)
    requires
        0 <= i < fences.len(),
        hex <= 0xFF_FFFF,
    ensures
        colored(fences, hex).len() == fences.len(),
        crate::color::color_of(colored(fences, hex)[i].color) == hex,
        fences[i] == (FenceView { color: fences[i].color, ..colored(fences, hex)[i] }),
        with_opacity(fences, v).len() == fences.len(),
        with_opacity(fences, v)[i].opacity == v,
        fences[i] == (FenceView { opacity: fences[i].opacity, ..with_opacity(fences, v)[i] }),
        with_radius(fences, v).len() == fences.len(),
        with_radius(fences, v)[i].corner_radius == v,
        fences[i] == (FenceView {
            corner_radius: fences[i].corner_radius,
            ..with_radius(fences, v)[i]
        }),
{
    crate::color::law_color_round_trip(hex);
}

/// Items that are put in an order stand in it: lower keys first, and those
/// with the same key as they stood before.
pub proof fn law_sorting_by_color(
    items: Seq<Seq<char>>,
    order: Seq<usize>,
    keys: Seq<u64>,
    a: int,
    b: int,
)
    requires
        keys.len() == items.len(),
        is_stable_order(order, keys),
        0 <= a < b < items.len(),
    ensures
        in_order(items, order).len() == items.len(),
        in_order(items, order)[a] == items[order[a] as int],
        in_order(items, order)[b] == items[order[b] as int],
        keys[order[a] as int] <= keys[order[b] as int],
        keys[order[a] as int] == keys[order[b] as int] ==> order[a] < order[b],
{
    crate::list::law_stable_order(order, keys, a, b);
}

/// The fences without a window are those whose ids are not among the open
/// ones.
pub proof fn law_fences_without_a_window(fences: Seq<FenceView>, open: Seq<Seq<char>>)
    ensures
        fences.filter(lacks_window(open)) == fences.filter(
            |f: FenceView| forall|i: int| 0 <= i < open.len() ==> #[trigger] open[i] != f.id,
        ),
{
    let p = |f: FenceView| forall|i: int| 0 <= i < open.len() ==> #[trigger] open[i] != f.id;
    assert(p =~= lacks_window(open));
}

/// Whether a fence can be deleted without losing items depends on there being
/// a catch-all fence among the others, or a number for one.
pub proof fn law_taking_over(fences: Seq<FenceView>, id: Seq<char>)
    ensures
        fence_at(fences, id) is None ==> can_take_over(fences, id),
        fence_at(fences, id) matches Some(i) ==> {
            let rest = fences.take(i) + fences.skip(i + 1);
            &&& fences[i].items.len() == 0 ==> can_take_over(fences, id)
            &&& fences[i].title == "Unsorted"@ ==> can_take_over(fences, id)
            &&& unsorted_at(rest) is Some ==> can_take_over(fences, id)
            &&& has_free_number(rest) ==> can_take_over(fences, id)
            &&& fences[i].items.len() > 0 && fences[i].title != "Unsorted"@ && unsorted_at(rest)
                is None && !has_free_number(rest) ==> !can_take_over(fences, id)
        },
{
    lemma_first_index(fences, has_id(id));
    if fence_at(fences, id) is Some {
        let i = fence_at(fences, id)->0;
        assert(fences.remove(i) =~= fences.take(i) + fences.skip(i + 1));
    }
}

} // verus!
