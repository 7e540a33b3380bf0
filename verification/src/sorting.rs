//! "Sort Unsorted now": what the rules would move out of the catch-all fence,
//! the question put to the user, the moves themselves, and their undoing.

use vstd::prelude::*;
use crate::config::{
    fence_at, fence_index, has_id, holding, is_unsorted, lemma_times_held_update, times_held,
    unsorted_at, unsorted_index, Config, ConfigView, FenceView,
};
use crate::desktop::{
    add_item, each_once, lemma_items_do_not_matter, same_heads, sent_to, with_item, ItemView,
};
use crate::list::{
    contains, first_index, lemma_first_index, lemma_is_first, lemma_is_nowhere, position,
};
use crate::number::{decimal, push_numeral};
use crate::rules::match_fence;
use crate::text::{same_text, texts};

verus! {

broadcast use crate::text::lemma_texts_push;

/// An item that the rules send to another fence.
#[derive(Debug)]
pub struct PlannedMove {
    pub item: String,
    pub target: String,
}

pub struct PlannedView {
    pub item: Seq<char>,
    pub target: Seq<char>,
}

impl View for PlannedMove {
    type V = PlannedView;

    open spec fn view(&self) -> PlannedView {
        PlannedView { item: self.item@, target: self.target@ }
    }
}

pub open spec fn planned_views(v: Seq<PlannedMove>) -> Seq<PlannedView> {
    Seq::new(v.len(), |i: int| v[i]@)
}

/// A move that was made.
#[derive(Debug)]
pub struct Move {
    pub item: String,
    pub from_id: String,
    pub to_id: String,
}

pub struct MoveView {
    pub item: Seq<char>,
    pub from_id: Seq<char>,
    pub to_id: Seq<char>,
}

impl View for Move {
    type V = MoveView;

    open spec fn view(&self) -> MoveView {
        MoveView { item: self.item@, from_id: self.from_id@, to_id: self.to_id@ }
    }
}

pub open spec fn move_views(v: Seq<Move>) -> Seq<MoveView> {
    Seq::new(v.len(), |i: int| v[i]@)
}

/// Where the rules send an item of the catch-all fence, unless that is where
/// it is.
pub open spec fn destination(
    fences: Seq<FenceView>,
    folders: Seq<Seq<char>>,
    unsorted: Seq<char>,
    item: Seq<char>,
) -> Option<Seq<char>> {
    match sent_to(fences, ItemView { path: item, is_dir: folders.contains(item) }) {
        Some(id) => if id == unsorted {
            None
        } else {
            Some(id)
        },
        None => None,
    }
}

/// The move that is planned for an item, if any.
pub open spec fn planned_for(
    fences: Seq<FenceView>,
    folders: Seq<Seq<char>>,
    unsorted: Seq<char>,
) -> spec_fn(Seq<char>) -> Option<PlannedView> {
    |item: Seq<char>|
        match destination(fences, folders, unsorted, item) {
            Some(target) => Some(PlannedView { item, target }),
            None => None,
        }
}

/// The moves that the rules ask for, in the order of the items.
pub open spec fn planned(fences: Seq<FenceView>, folders: Seq<Seq<char>>) -> Seq<PlannedView> {
    match unsorted_at(fences) {
        Some(u) => fences[u].items.filter_map(planned_for(fences, folders, fences[u].id)),
        None => Seq::empty(),
    }
}

/// The id of the catch-all fence; empty if there is none.
pub open spec fn unsorted_id(fences: Seq<FenceView>) -> Seq<char> {
    match unsorted_at(fences) {
        Some(u) => fences[u].id,
        None => Seq::empty(),
    }
}

/// Plans the sort: what the rules would move out of "Unsorted", and that
/// fence's id. `folders` lists those of its items that are directories.
pub fn plan_sort(cfg: &Config, folders: &Vec<String>) -> (r: (Vec<PlannedMove>, String))
    ensures
        planned_views(r.0@) == planned(cfg@.fences, texts(folders@)),
        r.1@ == unsorted_id(cfg@.fences),
{
    let mut moves: Vec<PlannedMove> = Vec::new();
    let u = match unsorted_index(cfg) {
        Some(u) => u,
        None => {
            assert(planned_views(moves@) =~= Seq::<PlannedView>::empty());
            return (moves, String::new());
        },
    };
    let uid = cfg.fences[u].id.clone();
    let ghost fences = cfg@.fences;
    let ghost dirs = texts(folders@);
    let ghost items = fences[u as int].items;
    let ghost wanted = planned_for(fences, dirs, uid@);
    let mut i: usize = 0;
    proof {
        reveal(Seq::filter_map);
        assert(planned_views(moves@) =~= items.take(0).filter_map(wanted));
    }
    while i < cfg.fences[u].items.len()
        invariant
            u < cfg.fences@.len(),
            fences == cfg@.fences,
            dirs == texts(folders@),
            items == fences[u as int].items,
            items == texts(cfg.fences@[u as int].items@),
            wanted == planned_for(fences, dirs, uid@),
            i <= items.len(),
            planned_views(moves@) == items.take(i as int).filter_map(wanted),
        decreases items.len() - i,
    {
        let ghost before = moves@;
        let item = cfg.fences[u].items[i].clone();
        let is_dir = contains(folders, &item);
        let target = match_fence(&item, is_dir, cfg);
        proof {
            items.lemma_filter_map_take_succ(wanted, i as int);
            assert(items[i as int] == item@);
        }
        match target {
            Some(id) => {
                if !same_text(&id, &uid) {
                    moves.push(PlannedMove { item, target: id });
                    assert(planned_views(moves@) =~= planned_views(before).push(
                        PlannedView { item: item@, target: id@ },
                    ));
                }
            },
            None => {},
        }
        assert(planned_views(moves@) =~= items.take(i + 1).filter_map(wanted));
        i = i + 1;
    }
    assert(items.take(items.len() as int) =~= items);
    (moves, uid)
}

/// The title of the fence with an id; empty if there is none.
pub open spec fn title_of(fences: Seq<FenceView>, id: Seq<char>) -> Seq<char> {
    match fence_at(fences, id) {
        Some(i) => fences[i].title,
        None => Seq::empty(),
    }
}

/// How often each title occurs, in the order of their first mention.
pub open spec fn tally(titles: Seq<Seq<char>>) -> Seq<(Seq<char>, nat)>
    decreases titles.len(),
{
    if titles.len() == 0 {
        Seq::empty()
    } else {
        counted(tally(titles.drop_last()), titles.last())
    }
}

/// Whether a count is that of a title.
pub open spec fn counts_title(title: Seq<char>) -> spec_fn((Seq<char>, nat)) -> bool {
    |c: (Seq<char>, nat)| c.0 == title
}

/// One more mention of a title.
pub open spec fn counted(counts: Seq<(Seq<char>, nat)>, title: Seq<char>) -> Seq<
    (Seq<char>, nat),
> {
    match first_index(counts, counts_title(title)) {
        Some(i) => counts.update(i, (title, counts[i].1 + 1)),
        None => counts.push((title, 1)),
    }
}

/// The lines of the question: how many items go where.
pub open spec fn tally_text(counts: Seq<(Seq<char>, nat)>) -> Seq<char>
    decreases counts.len(),
{
    if counts.len() == 0 {
        Seq::empty()
    } else {
        tally_text(counts.drop_last()) + "\n"@ + decimal(counts.last().1) + " \u{2192} "@
            + counts.last().0
    }
}

/// The titles of the fences that a plan moves items to, move by move.
pub open spec fn target_titles(fences: Seq<FenceView>, moves: Seq<PlannedView>) -> Seq<Seq<char>> {
    Seq::new(moves.len(), |i: int| title_of(fences, moves[i].target))
}

/// The question that is put before the moves are made.
pub open spec fn question(fences: Seq<FenceView>, moves: Seq<PlannedView>) -> Seq<char> {
    "This will move "@ + decimal(moves.len()) + " items:\n"@ + tally_text(
        tally(target_titles(fences, moves)),
    ) + "\n\nContinue?"@
}

/// A title and how often it was mentioned.
struct TitleCount {
    title: String,
    count: usize,
}

spec fn count_views(v: Seq<TitleCount>) -> Seq<(Seq<char>, nat)> {
    Seq::new(v.len(), |i: int| (v[i].title@, v[i].count as nat))
}

/// Counts one more mention of a title.
fn count_title(counts: &mut Vec<TitleCount>, title: String)
    requires
        forall|i: int|
            0 <= i < old(counts)@.len() ==> (#[trigger] old(counts)@[i]).count < usize::MAX,
    ensures
        count_views(final(counts)@) == counted(count_views(old(counts)@), title@),
        forall|i: int|
            #![trigger final(counts)@[i]]
            0 <= i < final(counts)@.len() ==> final(counts)@[i].count <= 1 || exists|j: int|
                0 <= j < old(counts)@.len() && final(counts)@[i].count <= (
                #[trigger] old(counts)@[j]).count + 1,
{
    let ghost before = count_views(counts@);
    let ghost p = counts_title(title@);
    let mut i: usize = 0;
    while i < counts.len()
        invariant
            before == count_views(counts@),
            counts@ == old(counts)@,
            p == counts_title(title@),
            i <= counts@.len(),
            forall|j: int| 0 <= j < i ==> !p(#[trigger] before[j]),
            forall|i: int|
                0 <= i < counts@.len() ==> (#[trigger] counts@[i]).count < usize::MAX,
        decreases counts@.len() - i,
    {
        if same_text(&counts[i].title, &title) {
            proof {
                assert(p(before[i as int]));
                lemma_is_first(before, p, i as int);
            }
            let n = counts[i].count;
            counts[i].count = n + 1;
            proof {
                assert(count_views(counts@) =~= counted(before, title@));
                assert forall|k: int| 0 <= k < counts@.len() implies counts@[k].count <= 1
                    || exists|j: int|
                    0 <= j < old(counts)@.len() && counts@[k].count <= (
                    #[trigger] old(counts)@[j]).count + 1 by {
                    assert(counts@[k].count <= old(counts)@[k].count + 1);
                }
            }
            return ;
        }
        i = i + 1;
    }
    proof {
        lemma_is_nowhere(before, p);
    }
    counts.push(TitleCount { title, count: 1 });
    proof {
        assert(count_views(counts@) =~= counted(before, title@));
        assert forall|k: int| 0 <= k < counts@.len() implies counts@[k].count <= 1 || exists|
            j: int,
        |
            0 <= j < old(counts)@.len() && counts@[k].count <= (#[trigger] old(counts)@[j]).count
                + 1 by {
            if k < old(counts)@.len() {
                assert(counts@[k].count <= old(counts)@[k].count + 1);
            }
        }
    }
}

/// The question that is put before a sort: how many items would go to which
/// fences.
pub fn sort_question(cfg: &Config, moves: &Vec<PlannedMove>) -> (r: String)
    ensures
        r@ == question(cfg@.fences, planned_views(moves@)),
{
    let mut counts: Vec<TitleCount> = Vec::new();
    let ghost titles = target_titles(cfg@.fences, planned_views(moves@));
    let mut i: usize = 0;
    assert(count_views(counts@) =~= tally(titles.take(0)));
    let total = moves.len();
    while i < total
        invariant
            total == moves@.len(),
            titles == target_titles(cfg@.fences, planned_views(moves@)),
            i <= total,
            count_views(counts@) == tally(titles.take(i as int)),
            forall|j: int| 0 <= j < counts@.len() ==> (#[trigger] counts@[j]).count <= i,
        decreases total - i,
    {
        let title = match fence_index(cfg, &moves[i].target) {
            Some(f) => cfg.fences[f].title.clone(),
            None => String::new(),
        };
        proof {
            assert(titles.take(i + 1).drop_last() =~= titles.take(i as int));
            assert(titles[i as int] == title@);
        }
        count_title(&mut counts, title);
        i = i + 1;
    }
    assert(titles.take(titles.len() as int) =~= titles);
    let mut msg = "This will move ".to_owned();
    push_numeral(&mut msg, total as u64, 10);
    msg.append(" items:\n");
    let ghost head = msg@;
    let ghost all = count_views(counts@);
    let mut i: usize = 0;
    assert(tally_text(all.take(0)) =~= Seq::<char>::empty());
    while i < counts.len()
        invariant
            all == count_views(counts@),
            i <= counts@.len(),
            msg@ == head + tally_text(all.take(i as int)),
        decreases counts@.len() - i,
    {
        proof {
            assert(all.take(i + 1).drop_last() =~= all.take(i as int));
            assert(all.take(i + 1).last() == all[i as int]);
        }
        msg.append("\n");
        push_numeral(&mut msg, counts[i].count as u64, 10);
        msg.append(" \u{2192} ");
        msg.append(&counts[i].title);
        assert(msg@ =~= head + tally_text(all.take(i + 1)));
        i = i + 1;
    }
    assert(all.take(all.len() as int) =~= all);
    msg.append("\n\nContinue?");
    assert(planned_views(moves@).len() == total);
    assert(msg@ =~= question(cfg@.fences, planned_views(moves@)));
    msg
}

/// The fences and the moves made so far.
#[verifier::ext_equal]
pub struct Sorted {
    pub fences: Seq<FenceView>,
    pub applied: Seq<MoveView>,
}

/// The fences without the item at place `k` of fence `i`.
pub open spec fn without_item(fences: Seq<FenceView>, i: int, k: int) -> Seq<FenceView> {
    fences.update(i, FenceView { items: fences[i].items.remove(k), ..fences[i] })
}

/// One planned move: the item leaves the catch-all fence and goes to the end
/// of its target. It stays where it is if it is no longer in the catch-all
/// fence or the target is gone.
pub open spec fn sort_step(s: Sorted, m: PlannedView, unsorted: Seq<char>) -> Sorted {
    match unsorted_at(s.fences) {
        Some(u) => match s.fences[u].items.index_of_first(m.item) {
            Some(k) => match fence_at(s.fences, m.target) {
                Some(t) => Sorted {
                    fences: with_item(without_item(s.fences, u, k), t, m.item),
                    applied: s.applied.push(
                        MoveView { item: m.item, from_id: unsorted, to_id: m.target },
                    ),
                },
                None => s,
            },
            None => s,
        },
        None => s,
    }
}

/// The fences after a plan, and the moves that were made.
pub open spec fn sorted(
    fences: Seq<FenceView>,
    moves: Seq<PlannedView>,
    unsorted: Seq<char>,
) -> Sorted
    decreases moves.len(),
{
    if moves.len() == 0 {
        Sorted { fences, applied: Seq::empty() }
    } else {
        sort_step(sorted(fences, moves.drop_last(), unsorted), moves.last(), unsorted)
    }
}

/// Takes the item at place `k` out of fence `i`.
fn take_item(cfg: &mut Config, i: usize, k: usize) -> (r: String)
    requires
        i < old(cfg).fences@.len(),
        k < old(cfg).fences@[i as int].items@.len(),
    ensures
        r@ == old(cfg)@.fences[i as int].items[k as int],
        final(cfg)@ == (ConfigView {
            fences: without_item(old(cfg)@.fences, i as int, k as int),
            ..old(cfg)@
        }),
        final(cfg).fences@.len() == old(cfg).fences@.len(),
{
    let ghost before = cfg@.fences;
    let r = cfg.fences[i].items.remove(k);
    proof {
        assert(texts(cfg.fences@[i as int].items@) =~= before[i as int].items.remove(k as int));
        assert(cfg@.fences =~= without_item(before, i as int, k as int));
    }
    r
}

/// Makes the planned moves and returns those that were made.
pub fn apply_sort(cfg: &mut Config, moves: &Vec<PlannedMove>, unsorted: &str) -> (r: Vec<Move>)
    ensures
        ({
            let done = sorted(old(cfg)@.fences, planned_views(moves@), unsorted@);
            &&& final(cfg)@ == (ConfigView { fences: done.fences, ..old(cfg)@ })
            &&& move_views(r@) == done.applied
        }),
{
    let mut applied: Vec<Move> = Vec::new();
    let ghost start = cfg@;
    let ghost plan = planned_views(moves@);
    let mut i: usize = 0;
    assert(plan.take(0) =~= Seq::<PlannedView>::empty());
    assert(move_views(applied@) =~= Seq::<MoveView>::empty());
    while i < moves.len()
        invariant
            plan == planned_views(moves@),
            i <= moves@.len(),
            sorted(start.fences, plan.take(i as int), unsorted@) == (Sorted {
                fences: cfg@.fences,
                applied: move_views(applied@),
            }),
            cfg.version == start.version,
            cfg.icon_size == start.icon_size,
        decreases moves@.len() - i,
    {
        let ghost now = cfg@.fences;
        let ghost made = applied@;
        proof {
            assert(plan.take(i + 1).drop_last() =~= plan.take(i as int));
            assert(plan.take(i + 1).last() == plan[i as int]);
        }
        match unsorted_index(cfg) {
            Some(u) => match position(&cfg.fences[u].items, &moves[i].item) {
                Some(k) => match fence_index(cfg, &moves[i].target) {
                    Some(t) => {
                        proof {
                            now[u as int].items.index_of_first_ensures(moves@[i as int].item@);
                        }
                        let item = take_item(cfg, u, k);
                        add_item(cfg, t, &item);
                        applied.push(
                            Move {
                                item,
                                from_id: unsorted.to_owned(),
                                to_id: moves[i].target.clone(),
                            },
                        );
                        assert(move_views(applied@) =~= move_views(made).push(
                            MoveView {
                                item: moves@[i as int].item@,
                                from_id: unsorted@,
                                to_id: moves@[i as int].target@,
                            },
                        ));
                    },
                    None => {},
                },
                None => {},
            },
            None => {},
        }
        i = i + 1;
    }
    assert(plan.take(plan.len() as int) =~= plan);
    applied
}

/// One move undone: the item leaves the fence it was moved to and goes to the
/// end of the fence it came from. It stays where it is if it is no longer in
/// the fence it was moved to or the fence it came from is gone.
pub open spec fn undo_step(fences: Seq<FenceView>, m: MoveView) -> Seq<FenceView> {
    match fence_at(fences, m.to_id) {
        Some(t) => match fences[t].items.index_of_first(m.item) {
            Some(k) => match fence_at(fences, m.from_id) {
                Some(f) => with_item(without_item(fences, t, k), f, m.item),
                None => fences,
            },
            None => fences,
        },
        None => fences,
    }
}

/// The fences with moves undone, in the order they were made.
pub open spec fn undone(fences: Seq<FenceView>, moves: Seq<MoveView>) -> Seq<FenceView>
    decreases moves.len(),
{
    if moves.len() == 0 {
        fences
    } else {
        undone(undo_step(fences, moves[0]), moves.skip(1))
    }
}

/// Undoes the moves of the last sort: items that are still where the sort put
/// them go back to the fence they came from, if it is still there.
pub fn undo_last_sort(cfg: &mut Config, moves: &Vec<Move>)
    ensures
        final(cfg)@ == (ConfigView {
            fences: undone(old(cfg)@.fences, move_views(moves@)),
            ..old(cfg)@
        }),
{
    let ghost start = cfg@;
    let ghost all = move_views(moves@);
    let mut i: usize = 0;
    assert(all.skip(0) =~= all);
    while i < moves.len()
        invariant
            all == move_views(moves@),
            i <= moves@.len(),
            undone(cfg@.fences, all.skip(i as int)) == undone(start.fences, all),
            cfg.version == start.version,
            cfg.icon_size == start.icon_size,
        decreases moves@.len() - i,
    {
        let ghost now = cfg@.fences;
        proof {
            assert(all.skip(i as int)[0] == all[i as int]);
            assert(all.skip(i as int).skip(1) =~= all.skip(i + 1));
        }
        match fence_index(cfg, &moves[i].to_id) {
            Some(t) => match position(&cfg.fences[t].items, &moves[i].item) {
                Some(k) => match fence_index(cfg, &moves[i].from_id) {
                    Some(f) => {
                        proof {
                            now[t as int].items.index_of_first_ensures(moves@[i as int].item@);
                        }
                        let item = take_item(cfg, t, k);
                        add_item(cfg, f, &item);
                    },
                    None => {},
                },
                None => {},
            },
            None => {},
        }
        i = i + 1;
    }
}

/// How many of the moves take `x` to fence `f`.
spec fn moved_in(fences: Seq<FenceView>, moves: Seq<MoveView>, f: int, x: Seq<char>) -> nat
    decreases moves.len(),
{
    if moves.len() == 0 {
        0
    } else {
        let one: nat = if fence_at(fences, moves[0].to_id) == Some(f) && moves[0].item == x {
            1
        } else {
            0
        };
        one + moved_in(fences, moves.skip(1), f, x)
    }
}

/// How many of the moves are moves of `x`.
spec fn moved_out(moves: Seq<MoveView>, x: Seq<char>) -> nat
    decreases moves.len(),
{
    if moves.len() == 0 {
        0
    } else {
        let one: nat = if moves[0].item == x {
            1
        } else {
            0
        };
        one + moved_out(moves.skip(1), x)
    }
}

proof fn lemma_moved_push(
    fences: Seq<FenceView>,
    moves: Seq<MoveView>,
    m: MoveView,
    f: int,
    x: Seq<char>,
)
    ensures
        moved_in(fences, moves.push(m), f, x) == moved_in(fences, moves, f, x) + if fence_at(
            fences,
            m.to_id,
        ) == Some(f) && m.item == x {
            1nat
        } else {
            0nat
        },
        moved_out(moves.push(m), x) == moved_out(moves, x) + if m.item == x {
            1nat
        } else {
            0nat
        },
    decreases moves.len(),
{
    let more = moves.push(m);
    assert(more[0] == if moves.len() == 0 {
        m
    } else {
        moves[0]
    });
    if moves.len() == 0 {
        assert(more.skip(1) =~= moves);
        assert(moved_in(fences, moves, f, x) == 0 && moved_out(moves, x) == 0);
    } else {
        lemma_moved_push(fences, moves.skip(1), m, f, x);
        assert(more.skip(1) =~= moves.skip(1).push(m));
    }
}

/// How often fence `f` holds `x`.
spec fn held(fences: Seq<FenceView>, f: int, x: Seq<char>) -> nat {
    fences[f].items.to_multiset().count(x)
}

/// `now` is `base` with the moves made, counting items: each has left fence
/// `u` and joined the fence it was moved to.
spec fn differs_by(
    now: Seq<FenceView>,
    base: Seq<FenceView>,
    moves: Seq<MoveView>,
    u: int,
) -> bool {
    &&& same_heads(now, base)
    &&& forall|f: int, x: Seq<char>|
        0 <= f < base.len() ==> #[trigger] held(now, f, x) + (if f == u {
            moved_out(moves, x)
        } else {
            0
        }) == held(base, f, x) + moved_in(base, moves, f, x)
}

proof fn lemma_held_without(fences: Seq<FenceView>, i: int, k: int)
    requires
        0 <= i < fences.len(),
        0 <= k < fences[i].items.len(),
    ensures
        same_heads(without_item(fences, i, k), fences),
        forall|f: int, x: Seq<char>|
            0 <= f < fences.len() ==> #[trigger] held(without_item(fences, i, k), f, x) + (if f == i
                && x == fences[i].items[k] {
                1nat
            } else {
                0nat
            }) == held(fences, f, x),
{
    broadcast use vstd::multiset::group_multiset_axioms;

    vstd::seq_lib::to_multiset_remove(fences[i].items, k);
    fences[i].items.to_multiset_ensures();
    assert(fences[i].items.to_multiset().count(fences[i].items[k]) > 0) by {
        assert(fences[i].items.contains(fences[i].items[k]));
    }
}

proof fn lemma_held_with(fences: Seq<FenceView>, i: int, p: Seq<char>)
    requires
        0 <= i < fences.len(),
    ensures
        same_heads(with_item(fences, i, p), fences),
        forall|f: int, x: Seq<char>|
            0 <= f < fences.len() ==> #[trigger] held(with_item(fences, i, p), f, x) == held(
                fences,
                f,
                x,
            ) + (if f == i && x == p {
                1nat
            } else {
                0nat
            }),
{
    broadcast use vstd::multiset::group_multiset_axioms;

    vstd::seq_lib::to_multiset_build(fences[i].items, p);
}

proof fn lemma_fence_at_in_range(fences: Seq<FenceView>, id: Seq<char>)
    ensures
        fence_at(fences, id) matches Some(t) ==> 0 <= t < fences.len() && fences[t].id == id,
{
    lemma_first_index(fences, has_id(id));
}

/// Whether every move of a plan goes to a fence other than `u`.
pub open spec fn leaves_for_others(
    fences: Seq<FenceView>,
    moves: Seq<PlannedView>,
    u: int,
) -> bool {
    forall|i: int|
        0 <= i < moves.len() ==> (fence_at(fences, (#[trigger] moves[i]).target) matches Some(t)
            && t != u)
}

proof fn lemma_sorted_counts(
    fences: Seq<FenceView>,
    moves: Seq<PlannedView>,
    unsorted: Seq<char>,
    u: int,
)
    requires
        unsorted_at(fences) == Some(u),
        leaves_for_others(fences, moves, u),
    ensures
        differs_by(
            sorted(fences, moves, unsorted).fences,
            fences,
            sorted(fences, moves, unsorted).applied,
            u,
        ),
        forall|i: int|
            0 <= i < sorted(fences, moves, unsorted).applied.len() ==> {
                let m = #[trigger] sorted(fences, moves, unsorted).applied[i];
                m.from_id == unsorted && (fence_at(fences, m.to_id) matches Some(t) && t != u)
            },
    decreases moves.len(),
{
    if moves.len() > 0 {
        let rest = moves.drop_last();
        let m = moves.last();
        assert(moves[moves.len() - 1] == m);
        assert forall|i: int| 0 <= i < rest.len() implies (fence_at(
            fences,
            (#[trigger] rest[i]).target,
        ) matches Some(t) && t != u) by {
            assert(moves[i] == rest[i]);
        }
        lemma_sorted_counts(fences, rest, unsorted, u);
        let mid = sorted(fences, rest, unsorted);
        let end = sorted(fences, moves, unsorted);
        lemma_items_do_not_matter(mid.fences, fences);
        lemma_first_index(fences, is_unsorted());
        match mid.fences[u].items.index_of_first(m.item) {
            Some(k) => {
                mid.fences[u].items.index_of_first_ensures(m.item);
                let less = without_item(mid.fences, u, k);
                lemma_held_without(mid.fences, u, k);
                lemma_fence_at_in_range(fences, m.target);
                let t = fence_at(fences, m.target)->0;
                lemma_held_with(less, t, m.item);
                let mv = MoveView { item: m.item, from_id: unsorted, to_id: m.target };
                assert(end.applied == mid.applied.push(mv));
                assert forall|f: int, x: Seq<char>| 0 <= f < fences.len() implies #[trigger] held(
                    end.fences,
                    f,
                    x,
                ) + (if f == u {
                    moved_out(end.applied, x)
                } else {
                    0
                }) == held(fences, f, x) + moved_in(fences, end.applied, f, x) by {
                    lemma_moved_push(fences, mid.applied, mv, f, x);
                    assert(held(mid.fences, f, x) + (if f == u {
                        moved_out(mid.applied, x)
                    } else {
                        0
                    }) == held(fences, f, x) + moved_in(fences, mid.applied, f, x));
                    assert(held(less, f, x) + (if f == u && x == m.item {
                        1nat
                    } else {
                        0nat
                    }) == held(mid.fences, f, x));
                }
            },
            None => {},
        }
    }
}

proof fn lemma_undone_counts(
    now: Seq<FenceView>,
    base: Seq<FenceView>,
    moves: Seq<MoveView>,
    unsorted: Seq<char>,
    u: int,
)
    requires
        0 <= u < base.len(),
        fence_at(base, unsorted) == Some(u),
        differs_by(now, base, moves, u),
        forall|i: int|
            0 <= i < moves.len() ==> {
                let m = #[trigger] moves[i];
                m.from_id == unsorted && (fence_at(base, m.to_id) matches Some(t) && t != u)
            },
    ensures
        same_heads(undone(now, moves), base),
        forall|f: int, x: Seq<char>|
            0 <= f < base.len() ==> #[trigger] held(undone(now, moves), f, x) == held(base, f, x),
    decreases moves.len(),
{
    if moves.len() > 0 {
        let m = moves[0];
        let rest = moves.skip(1);
        lemma_items_do_not_matter(now, base);
        lemma_fence_at_in_range(base, m.to_id);
        let t = fence_at(base, m.to_id)->0;
        assert(held(now, t, m.item) + 0 == held(base, t, m.item) + moved_in(
            base,
            moves,
            t,
            m.item,
        ));
        now[t].items.to_multiset_ensures();
        assert(now[t].items.contains(m.item));
        now[t].items.index_of_first_ensures(m.item);
        let k = now[t].items.index_of_first(m.item)->0;
        let less = without_item(now, t, k);
        lemma_held_without(now, t, k);
        let next = with_item(less, u, m.item);
        lemma_held_with(less, u, m.item);
        assert(undo_step(now, m) == next);
        assert forall|f: int, x: Seq<char>| 0 <= f < base.len() implies #[trigger] held(next, f, x)
            + (if f == u {
            moved_out(rest, x)
        } else {
            0
        }) == held(base, f, x) + moved_in(base, rest, f, x) by {
            assert(held(now, f, x) + (if f == u {
                moved_out(moves, x)
            } else {
                0
            }) == held(base, f, x) + moved_in(base, moves, f, x));
            assert(held(less, f, x) + (if f == t && x == m.item {
                1nat
            } else {
                0nat
            }) == held(now, f, x));
        }
        assert forall|i: int| 0 <= i < rest.len() implies {
            let m = #[trigger] rest[i];
            m.from_id == unsorted && (fence_at(base, m.to_id) matches Some(t) && t != u)
        } by {
            assert(moves[i + 1] == rest[i]);
        }
        lemma_undone_counts(next, base, rest, unsorted, u);
    } else {
        assert forall|f: int, x: Seq<char>| 0 <= f < base.len() implies #[trigger] held(
            undone(now, moves),
            f,
            x,
        ) == held(base, f, x) by {
            assert(held(now, f, x) + (if f == u {
                moved_out(moves, x)
            } else {
                0
            }) == held(base, f, x) + moved_in(base, moves, f, x));
        }
    }
}

/// Undoing a sort gives every fence its items back: after the moves of a plan
/// and their undoing, each fence holds what it held before, each item as
/// often as before.
pub proof fn law_undo_restores(fences: Seq<FenceView>, moves: Seq<PlannedView>, f: int)
    requires
        unsorted_at(fences) is Some,
        fence_at(fences, unsorted_id(fences)) == unsorted_at(fences),
        leaves_for_others(fences, moves, unsorted_at(fences)->0),
        0 <= f < fences.len(),
    ensures
        ({
            let done = sorted(fences, moves, unsorted_id(fences));
            let back = undone(done.fences, done.applied);
            &&& back.len() == fences.len()
            &&& back[f].items.to_multiset() == fences[f].items.to_multiset()
        }),
{
    let u = unsorted_at(fences)->0;
    let done = sorted(fences, moves, unsorted_id(fences));
    let back = undone(done.fences, done.applied);
    lemma_first_index(fences, is_unsorted());
    lemma_sorted_counts(fences, moves, unsorted_id(fences), u);
    lemma_undone_counts(done.fences, fences, done.applied, unsorted_id(fences), u);
    assert forall|x: Seq<char>| #[trigger] back[f].items.to_multiset().count(x)
        == fences[f].items.to_multiset().count(x) by {
        assert(held(back, f, x) == held(fences, f, x));
    }
    assert(back[f].items.to_multiset() =~= fences[f].items.to_multiset());
}

/// What the rules plan goes to fences of the layout, and never to the
/// catch-all fence itself.
pub proof fn law_plan_leaves_for_others(fences: Seq<FenceView>, folders: Seq<Seq<char>>)
    ensures
        unsorted_at(fences) matches Some(u) ==> leaves_for_others(
            fences,
            planned(fences, folders),
            u,
        ),
{
    if unsorted_at(fences) is Some {
        let u = unsorted_at(fences)->0;
        let wanted = planned_for(fences, folders, fences[u].id);
        let moves = planned(fences, folders);
        assert forall|i: int| 0 <= i < moves.len() implies (fence_at(
            fences,
            (#[trigger] moves[i]).target,
        ) matches Some(t) && t != u) by {
            let m = moves[i];
            assert(moves.contains(m));
            fences[u].items.lemma_filter_map_contains(wanted, m);
            let item = choose|item: Seq<char>|
                #![auto]
                fences[u].items.contains(item) && wanted(item) == Some(m);
            lemma_destination_exists(fences, folders, fences[u].id, item);
            lemma_fence_at_in_range(fences, m.target);
        }
    }
}

proof fn lemma_destination_exists(
    fences: Seq<FenceView>,
    folders: Seq<Seq<char>>,
    unsorted: Seq<char>,
    item: Seq<char>,
)
    ensures
        destination(fences, folders, unsorted, item) matches Some(id) ==> fence_at(fences, id)
            is Some && id != unsorted,
{
    let it = ItemView { path: item, is_dir: folders.contains(item) };
    let p = crate::rules::fence_accepts(crate::path::path_file_name(it.path), it.is_dir);
    lemma_first_index(fences, p);
    match sent_to(fences, it) {
        Some(id) => {
            let i = first_index(fences, p)->0;
            assert(has_id(id)(fences[i]));
            lemma_first_index(fences, has_id(id));
        },
        None => {},
    }
}

/// Whether the rules leave an item in the catch-all fence.
pub open spec fn stays(
    fences: Seq<FenceView>,
    folders: Seq<Seq<char>>,
    unsorted: Seq<char>,
) -> spec_fn(Seq<char>) -> bool {
    |item: Seq<char>| destination(fences, folders, unsorted, item) is None
}

/// Whether a planned move goes to fence `f`.
pub open spec fn goes_to(fences: Seq<FenceView>, f: int) -> spec_fn(PlannedView) -> bool {
    |m: PlannedView| fence_at(fences, m.target) == Some(f)
}

/// The items that a plan brings to fence `f`, in order.
pub open spec fn brought_to(fences: Seq<FenceView>, moves: Seq<PlannedView>, f: int) -> Seq<
    Seq<char>,
> {
    moves.filter(goes_to(fences, f)).map_values(|m: PlannedView| m.item)
}

/// A planned move as the move that is made of it.
pub open spec fn made_of(m: PlannedView, unsorted: Seq<char>) -> MoveView {
    MoveView { item: m.item, from_id: unsorted, to_id: m.target }
}

/// Undoing "Sort Unsorted now" reverses it: each fence holds what it held
/// before. The catch-all fence must be the first fence with its id.
pub proof fn law_undo_reverses_sort(fences: Seq<FenceView>, folders: Seq<Seq<char>>, f: int)
    requires
        unsorted_at(fences) is Some,
        fence_at(fences, unsorted_id(fences)) == unsorted_at(fences),
        0 <= f < fences.len(),
    ensures
        ({
            let done = sorted(fences, planned(fences, folders), unsorted_id(fences));
            let back = undone(done.fences, done.applied);
            &&& back.len() == fences.len()
            &&& back[f].items.to_multiset() == fences[f].items.to_multiset()
        }),
{
    law_plan_leaves_for_others(fences, folders);
    law_undo_restores(fences, planned(fences, folders), f);
}

/// A sort makes every move that was planned: what no rule sends elsewhere
/// stays in the catch-all fence, in order; every other fence keeps its items
/// untouched and has those that the rules send it added, in order. But for
/// their items the fences stay as they are.
pub proof fn law_sort_moves_what_was_planned(fences: Seq<FenceView>, folders: Seq<Seq<char>>)
    requires
        unsorted_at(fences) is Some,
    ensures
        ({
            let u = unsorted_at(fences)->0;
            let id = unsorted_id(fences);
            let moves = planned(fences, folders);
            let done = sorted(fences, moves, id);
            &&& done.fences.len() == fences.len()
            &&& done.fences[u] == holding(
                fences[u],
                fences[u].items.filter(stays(fences, folders, id)),
            )
            &&& forall|f: int|
                0 <= f < fences.len() && f != u ==> #[trigger] done.fences[f] == holding(
                    fences[f],
                    fences[f].items + brought_to(fences, moves, f),
                )
            &&& done.applied == moves.map_values(|m: PlannedView| made_of(m, id))
        }),
{
    let u = unsorted_at(fences)->0;
    let items = fences[u].items;
    lemma_sort_prefix(fences, folders, items.len() as int);
    assert(items.take(items.len() as int) =~= items);
    let done = sorted(fences, planned(fences, folders), unsorted_id(fences));
    assert(items.skip(items.len() as int) =~= Seq::<Seq<char>>::empty());
    assert(done.fences[u].items =~= items.filter(stays(fences, folders, unsorted_id(fences))));
    assert(done.fences[u] =~= holding(fences[u], done.fences[u].items));
    assert(done.applied =~= planned(fences, folders).map_values(
        |m: PlannedView| made_of(m, unsorted_id(fences)),
    ));
}

proof fn lemma_sort_prefix(fences: Seq<FenceView>, folders: Seq<Seq<char>>, i: int)
    requires
        unsorted_at(fences) is Some,
        0 <= i <= fences[unsorted_at(fences)->0].items.len(),
    ensures
        ({
            let u = unsorted_at(fences)->0;
            let id = fences[u].id;
            let items = fences[u].items;
            let moves = items.take(i).filter_map(planned_for(fences, folders, id));
            let done = sorted(fences, moves, id);
            &&& done.fences.len() == fences.len()
            &&& done.fences[u] == holding(
                fences[u],
                items.take(i).filter(stays(fences, folders, id)) + items.skip(i),
            )
            &&& forall|f: int|
                0 <= f < fences.len() && f != u ==> #[trigger] done.fences[f] == holding(
                    fences[f],
                    fences[f].items + brought_to(fences, moves, f),
                )
            &&& done.applied.len() == moves.len()
            &&& forall|j: int|
                0 <= j < moves.len() ==> #[trigger] done.applied[j] == made_of(moves[j], id)
        }),
    decreases i,
{
    let u = unsorted_at(fences)->0;
    let id = fences[u].id;
    let items = fences[u].items;
    let wanted = planned_for(fences, folders, id);
    let stay = stays(fences, folders, id);
    let moves = items.take(i).filter_map(wanted);
    let done = sorted(fences, moves, id);
    lemma_first_index(fences, is_unsorted());
    if i == 0 {
        reveal(Seq::filter_map);
        reveal(Seq::filter);
        assert(moves =~= Seq::<PlannedView>::empty());
        assert(items.take(0).filter(stay) + items.skip(0) =~= items);
        assert forall|f: int| 0 <= f < fences.len() && f != u implies #[trigger] done.fences[f]
            == holding(fences[f], fences[f].items + brought_to(fences, moves, f)) by {
            assert(moves.filter(goes_to(fences, f)) =~= Seq::<PlannedView>::empty());
            assert(fences[f].items + brought_to(fences, moves, f) =~= fences[f].items);
        }
    } else {
        lemma_sort_prefix(fences, folders, i - 1);
        let item = items[i - 1];
        let before = items.take(i - 1).filter_map(wanted);
        let mid = sorted(fences, before, id);
        let kept = items.take(i - 1).filter(stay);
        items.lemma_filter_map_take_succ(wanted, i - 1);
        crate::list::lemma_filter_take(items, stay, i - 1);
        assert(items.skip(i - 1) =~= seq![item] + items.skip(i));
        assert forall|f: int| 0 <= f < fences.len() implies (#[trigger] mid.fences[f]).id
            == fences[f].id && mid.fences[f].title == fences[f].title && mid.fences[f].rules
            == fences[f].rules by {}
        assert(same_heads(mid.fences, fences));
        lemma_items_do_not_matter(mid.fences, fences);
        match destination(fences, folders, id, item) {
            Some(target) => {
                let m = PlannedView { item, target };
                assert(wanted(item) == Some(m));
                assert(moves =~= before.push(m));
                assert(moves.drop_last() =~= before);
                assert(done == sort_step(mid, m, id));
                let k = kept.len() as int;
                assert(mid.fences[u].items[k] == item);
                assert forall|j: int| 0 <= j < k implies mid.fences[u].items[j] != item by {
                    items.take(i - 1).lemma_filter_pred(stay, j);
                    assert(mid.fences[u].items[j] == kept[j]);
                }
                mid.fences[u].items.index_of_first_ensures(item);
                assert(mid.fences[u].items.contains(item));
                assert(mid.fences[u].items.index_of_first(item) == Some(k));
                let less = without_item(mid.fences, u, k);
                lemma_destination_exists(fences, folders, id, item);
                lemma_fence_at_in_range(fences, target);
                let t = fence_at(fences, target)->0;
                assert(done.fences == with_item(less, t, item));
                assert(done.fences[u].items =~= items.take(i).filter(stay) + items.skip(i));
                assert forall|f: int| 0 <= f < fences.len() && f != u implies
                    #[trigger] done.fences[f] == holding(
                    fences[f],
                    fences[f].items + brought_to(fences, moves, f),
                ) by {
                    let p = goes_to(fences, f);
                    assert(moves.take(before.len() as int) =~= before);
                    assert(moves.take(moves.len() as int) =~= moves);
                    crate::list::lemma_filter_take(moves, p, before.len() as int);
                    assert(mid.fences[f] == holding(
                        fences[f],
                        fences[f].items + brought_to(fences, before, f),
                    ));
                    if f == t {
                        assert(brought_to(fences, moves, f) =~= brought_to(fences, before, f).push(
                            item,
                        ));
                        assert(done.fences[f].items =~= fences[f].items + brought_to(
                            fences,
                            moves,
                            f,
                        ));
                    } else {
                        assert(brought_to(fences, moves, f) =~= brought_to(fences, before, f));
                        assert(done.fences[f] == mid.fences[f]);
                    }
                }
                assert forall|j: int| 0 <= j < moves.len() implies #[trigger] done.applied[j]
                    == made_of(moves[j], id) by {
                    if j < before.len() {
                        assert(mid.applied[j] == made_of(before[j], id));
                    }
                }
            },
            None => {
                assert(moves =~= before);
                assert(kept + items.skip(i - 1) =~= items.take(i).filter(stay) + items.skip(i));
            },
        }
    }
}

/// A move from one fence to another, or to the end of the same one, keeps
/// every item.
proof fn lemma_move_keeps_items(fences: Seq<FenceView>, i: int, k: int, t: int, x: Seq<char>)
    requires
        0 <= i < fences.len(),
        0 <= k < fences[i].items.len(),
        0 <= t < fences.len(),
    ensures
        times_held(with_item(without_item(fences, i, k), t, fences[i].items[k]), x) == times_held(
            fences,
            x,
        ),
{
    let less = without_item(fences, i, k);
    let item = fences[i].items[k];
    lemma_held_without(fences, i, k);
    lemma_held_with(less, t, item);
    lemma_times_held_update(fences, i, less[i], x);
    let end = with_item(less, t, item);
    lemma_times_held_update(less, t, end[t], x);
    assert(held(less, i, x) + (if x == item {
        1nat
    } else {
        0nat
    }) == held(fences, i, x));
    assert(held(end, t, x) == held(less, t, x) + (if x == item {
        1nat
    } else {
        0nat
    }));
}

/// A sort loses no item and makes none, whatever became of the layout since
/// it was planned: each item is held as often as before.
pub proof fn law_sort_keeps_items(
    fences: Seq<FenceView>,
    moves: Seq<PlannedView>,
    unsorted: Seq<char>,
    item: Seq<char>,
)
    ensures
        times_held(sorted(fences, moves, unsorted).fences, item) == times_held(fences, item),
    decreases moves.len(),
{
    if moves.len() > 0 {
        let s = sorted(fences, moves.drop_last(), unsorted);
        let m = moves.last();
        law_sort_keeps_items(fences, moves.drop_last(), unsorted, item);
        lemma_first_index(s.fences, is_unsorted());
        lemma_fence_at_in_range(s.fences, m.target);
        if unsorted_at(s.fences) is Some {
            let u = unsorted_at(s.fences)->0;
            s.fences[u].items.index_of_first_ensures(m.item);
            if s.fences[u].items.index_of_first(m.item) is Some && fence_at(s.fences, m.target)
                is Some {
                let k = s.fences[u].items.index_of_first(m.item)->0;
                lemma_move_keeps_items(s.fences, u, k, fence_at(s.fences, m.target)->0, item);
            }
        }
    }
}

/// Undoing moves loses no item and makes none, whatever became of the layout
/// since they were made: each item is held as often as before.
pub proof fn law_undo_keeps_items(fences: Seq<FenceView>, moves: Seq<MoveView>, item: Seq<char>)
    ensures
        times_held(undone(fences, moves), item) == times_held(fences, item),
    decreases moves.len(),
{
    if moves.len() > 0 {
        let m = moves[0];
        law_undo_keeps_items(undo_step(fences, m), moves.skip(1), item);
        lemma_fence_at_in_range(fences, m.to_id);
        lemma_fence_at_in_range(fences, m.from_id);
        if fence_at(fences, m.to_id) is Some {
            let t = fence_at(fences, m.to_id)->0;
            fences[t].items.index_of_first_ensures(m.item);
            if fences[t].items.index_of_first(m.item) is Some && fence_at(fences, m.from_id)
                is Some {
                let k = fences[t].items.index_of_first(m.item)->0;
                lemma_move_keeps_items(fences, t, k, fence_at(fences, m.from_id)->0, item);
            }
        }
    }
}

/// Whether no move of a plan brings a fence an item that it holds already.
pub open spec fn brings_what_is_missing(fences: Seq<FenceView>, moves: Seq<PlannedView>) -> bool {
    forall|i: int|
        0 <= i < moves.len() ==> (fence_at(fences, (#[trigger] moves[i]).target) matches Some(t)
            ==> !fences[t].items.contains(moves[i].item))
}

/// In a layout that shows no item twice, the rules bring no fence an item that
/// it holds already.
pub proof fn law_plan_brings_what_is_missing(fences: Seq<FenceView>, folders: Seq<Seq<char>>)
    requires
        each_once(fences),
    ensures
        brings_what_is_missing(fences, planned(fences, folders)),
{
    let moves = planned(fences, folders);
    lemma_first_index(fences, is_unsorted());
    law_plan_leaves_for_others(fences, folders);
    assert forall|i: int| 0 <= i < moves.len() implies (fence_at(
        fences,
        (#[trigger] moves[i]).target,
    ) matches Some(t) ==> !fences[t].items.contains(moves[i].item)) by {
        let u = unsorted_at(fences)->0;
        let m = moves[i];
        let wanted = planned_for(fences, folders, fences[u].id);
        assert(moves.contains(m));
        fences[u].items.lemma_filter_map_contains(wanted, m);
        let item = choose|item: Seq<char>|
            #![auto]
            fences[u].items.contains(item) && wanted(item) == Some(m);
        let k = choose|k: int| 0 <= k < fences[u].items.len() && fences[u].items[k] == item;
        lemma_fence_at_in_range(fences, m.target);
        let t = fence_at(fences, m.target)->0;
        if fences[t].items.contains(m.item) {
            let n = choose|n: int| 0 <= n < fences[t].items.len() && fences[t].items[n] == m.item;
            assert(fences[u].items[k] == fences[t].items[n]);
        }
    }
}

/// The items of a plan, in order.
pub open spec fn items_moved(moves: Seq<PlannedView>) -> Seq<Seq<char>> {
    moves.map_values(|m: PlannedView| m.item)
}

/// What a plan brings to a fence, by its first move.
proof fn lemma_brought_first(fences: Seq<FenceView>, moves: Seq<PlannedView>, f: int)
    requires
        moves.len() > 0,
    ensures
        brought_to(fences, moves, f) == if fence_at(fences, moves[0].target) == Some(f) {
            seq![moves[0].item] + brought_to(fences, moves.skip(1), f)
        } else {
            brought_to(fences, moves.skip(1), f)
        },
{
    let p = goes_to(fences, f);
    let first = seq![moves[0]];
    assert(moves =~= first + moves.skip(1));
    Seq::filter_distributes_over_add(first, moves.skip(1), p);
    assert(first.filter(p) =~= if p(moves[0]) {
        first
    } else {
        Seq::empty()
    }) by {
        reveal(Seq::filter);
        assert(first.drop_last() =~= Seq::<PlannedView>::empty());
        assert(first.drop_last().filter(p) =~= Seq::<PlannedView>::empty());
    }
    assert(brought_to(fences, moves, f) =~= first.filter(p).map_values(|m: PlannedView| m.item)
        + brought_to(fences, moves.skip(1), f));
    assert(first.map_values(|m: PlannedView| m.item) =~= seq![moves[0].item]);
    assert(Seq::<PlannedView>::empty().map_values(|m: PlannedView| m.item) =~= Seq::<
        Seq<char>,
    >::empty());
    assert(Seq::<Seq<char>>::empty() + brought_to(fences, moves.skip(1), f) =~= brought_to(
        fences,
        moves.skip(1),
        f,
    ));
}

/// Undoing the last moves of a plan, where the catch-all fence has `have`.
proof fn lemma_undo_rest(
    fences: Seq<FenceView>,
    now: Seq<FenceView>,
    moves: Seq<PlannedView>,
    u: int,
    have: Seq<Seq<char>>,
)
    requires
        0 <= u < fences.len(),
        fence_at(fences, fences[u].id) == Some(u),
        leaves_for_others(fences, moves, u),
        brings_what_is_missing(fences, moves),
        now.len() == fences.len(),
        now[u] == holding(fences[u], have),
        forall|f: int|
            0 <= f < fences.len() && f != u ==> #[trigger] now[f] == holding(
                fences[f],
                fences[f].items + brought_to(fences, moves, f),
            ),
    ensures
        undone(now, moves.map_values(|m: PlannedView| made_of(m, fences[u].id))) == fences.update(
            u,
            holding(fences[u], have + items_moved(moves)),
        ),
    decreases moves.len(),
{
    let id = fences[u].id;
    let made = moves.map_values(|m: PlannedView| made_of(m, id));
    let end = fences.update(u, holding(fences[u], have + items_moved(moves)));
    if moves.len() == 0 {
        assert(have + items_moved(moves) =~= have);
        assert forall|f: int| 0 <= f < fences.len() implies #[trigger] now[f] == end[f] by {
            if f != u {
                reveal(Seq::filter);
                assert(fences[f].items + brought_to(fences, moves, f) =~= fences[f].items);
                assert(now[f] =~= fences[f]);
            }
        }
        assert(now =~= end);
    } else {
        let m = moves[0];
        let rest = moves.skip(1);
        lemma_fence_at_in_range(fences, m.target);
        let t = fence_at(fences, m.target)->0;
        lemma_brought_first(fences, moves, t);
        assert(same_heads(now, fences)) by {
            assert forall|f: int| 0 <= f < fences.len() implies (#[trigger] now[f]).id
                == fences[f].id && now[f].title == fences[f].title && now[f].rules
                == fences[f].rules by {}
        }
        lemma_items_do_not_matter(now, fences);
        let k = fences[t].items.len() as int;
        assert(now[t].items == fences[t].items + brought_to(fences, moves, t));
        assert(now[t].items[k] == m.item);
        assert forall|j: int| 0 <= j < k implies now[t].items[j] != m.item by {
            assert(now[t].items[j] == fences[t].items[j]);
        }
        now[t].items.index_of_first_ensures(m.item);
        assert(now[t].items.contains(m.item));
        assert(now[t].items.index_of_first(m.item) == Some(k));
        let next = with_item(without_item(now, t, k), u, m.item);
        assert(made[0] == made_of(m, id));
        assert(undo_step(now, made[0]) == next);
        assert(made.skip(1) =~= rest.map_values(|m: PlannedView| made_of(m, id)));
        assert(next[u] =~= holding(fences[u], have.push(m.item)));
        assert forall|f: int| 0 <= f < fences.len() && f != u implies #[trigger] next[f] == holding(
            fences[f],
            fences[f].items + brought_to(fences, rest, f),
        ) by {
            lemma_brought_first(fences, moves, f);
            if f == t {
                assert(next[f].items =~= fences[f].items + brought_to(fences, rest, f));
            } else {
                assert(next[f] == now[f]);
            }
        }
        assert forall|i: int| 0 <= i < rest.len() implies #[trigger] rest[i] == moves[i + 1] by {}
        assert(leaves_for_others(fences, rest, u)) by {
            assert forall|i: int| 0 <= i < rest.len() implies (fence_at(
                fences,
                (#[trigger] rest[i]).target,
            ) matches Some(t) && t != u) by {
                assert(moves[i + 1] == rest[i]);
            }
        }
        assert(brings_what_is_missing(fences, rest)) by {
            assert forall|i: int| 0 <= i < rest.len() implies (fence_at(
                fences,
                (#[trigger] rest[i]).target,
            ) matches Some(t) ==> !fences[t].items.contains(rest[i].item)) by {
                assert(moves[i + 1] == rest[i]);
            }
        }
        lemma_undo_rest(fences, next, rest, u, have.push(m.item));
        assert(have.push(m.item) + items_moved(rest) =~= have + items_moved(moves));
    }
}

/// Undoing "Sort Unsorted now" gives every fence but the catch-all fence back
/// exactly as it was. The catch-all fence is as it was but for the order of
/// its items: those that the sort had left there, in order, and behind them
/// those that it had moved, in order. The catch-all fence must be the first
/// fence with its id, and no fence may have held already what the sort brings
/// it.
pub proof fn law_undo_keeps_order(fences: Seq<FenceView>, folders: Seq<Seq<char>>)
    requires
        unsorted_at(fences) is Some,
        fence_at(fences, unsorted_id(fences)) == unsorted_at(fences),
        brings_what_is_missing(fences, planned(fences, folders)),
    ensures
        ({
            let u = unsorted_at(fences)->0;
            let id = unsorted_id(fences);
            let moves = planned(fences, folders);
            let done = sorted(fences, moves, id);
            undone(done.fences, done.applied) == fences.update(
                u,
                holding(
                    fences[u],
                    fences[u].items.filter(stays(fences, folders, id)) + items_moved(moves),
                ),
            )
        }),
{
    let u = unsorted_at(fences)->0;
    let id = unsorted_id(fences);
    let moves = planned(fences, folders);
    let done = sorted(fences, moves, id);
    lemma_first_index(fences, is_unsorted());
    law_plan_leaves_for_others(fences, folders);
    law_sort_moves_what_was_planned(fences, folders);
    lemma_undo_rest(
        fences,
        done.fences,
        moves,
        u,
        fences[u].items.filter(stays(fences, folders, id)),
    );
}

/// A sort that the user is to confirm.
#[derive(Debug)]
pub struct SortRequest {
    pub moves: Vec<PlannedMove>,
    pub unsorted: String,
    pub question: String,
}

/// The sort that the user is to confirm; `None` if the rules move nothing.
/// `folders` lists those items of "Unsorted" that are directories.
pub fn sort_request(cfg: &Config, folders: &Vec<String>) -> (r: Option<SortRequest>)
    ensures
        ({
            let moves = planned(cfg@.fences, texts(folders@));
            match r {
                Some(q) => {
                    &&& moves.len() > 0
                    &&& planned_views(q.moves@) == moves
                    &&& q.unsorted@ == unsorted_id(cfg@.fences)
                    &&& q.question@ == question(cfg@.fences, moves)
                },
                None => moves.len() == 0,
            }
        }),
{
    let (moves, unsorted) = plan_sort(cfg, folders);
    assert(planned_views(moves@).len() == moves@.len());
    if moves.len() == 0 {
        return None;
    }
    let question = sort_question(cfg, &moves);
    Some(SortRequest { moves, unsorted, question })
}

/// What the answer to a request does to the fences and to the record of the
/// last sort: "Yes" makes the moves and records them, "No" changes nothing.
pub open spec fn answered(
    s: Sorted,
    moves: Seq<PlannedView>,
    unsorted: Seq<char>,
    yes: bool,
) -> Sorted {
    if yes {
        sorted(s.fences, moves, unsorted)
    } else {
        s
    }
}

/// What "Undo last sort" does to the fences and to the record of the last
/// sort: the moves are undone, and the record is empty.
pub open spec fn taken_back(s: Sorted) -> Sorted {
    Sorted { fences: undone(s.fences, s.applied), applied: Seq::empty() }
}

/// The record of the last sort: the moves that can be undone.
#[derive(Debug)]
pub struct SortRecord {
    pub moves: Vec<Move>,
}

impl View for SortRecord {
    type V = Seq<MoveView>;

    open spec fn view(&self) -> Seq<MoveView> {
        move_views(self.moves@)
    }
}

impl SortRecord {
    /// The record of a program that has sorted nothing yet.
    pub fn new() -> (r: Self)
        ensures
            r@ == Seq::<MoveView>::empty(),
    {
        let r = SortRecord { moves: Vec::new() };
        assert(r@ =~= Seq::<MoveView>::empty());
        r
    }

    /// Whether there is anything to undo.
    pub fn can_undo(&self) -> (r: bool)
        ensures
            r == (self@.len() > 0),
    {
        self.moves.len() > 0
    }

    /// Follows the user's answer to a request. Tells whether the layout is to
    /// be saved.
    pub fn answer(&mut self, cfg: &mut Config, request: &SortRequest, yes: bool) -> (r: bool)
        ensures
            r == yes,
            ({
                let before = Sorted { fences: old(cfg)@.fences, applied: old(self)@ };
                let after = answered(
                    before,
                    planned_views(request.moves@),
                    request.unsorted@,
                    yes,
                );
                &&& final(cfg)@ == (ConfigView { fences: after.fences, ..old(cfg)@ })
                &&& final(self)@ == after.applied
            }),
    {
        if yes {
            self.moves = apply_sort(cfg, &request.moves, &request.unsorted);
        }
        yes
    }

    /// Undoes the last sort, once. Tells whether there was one, after which
    /// the layout is to be saved.
    pub fn undo(&mut self, cfg: &mut Config) -> (r: bool)
        ensures
            r == (old(self)@.len() > 0),
            ({
                let after = taken_back(Sorted { fences: old(cfg)@.fences, applied: old(self)@ });
                &&& final(cfg)@ == (ConfigView { fences: after.fences, ..old(cfg)@ })
                &&& final(self)@ == after.applied
            }),
    {
        let r = self.can_undo();
        undo_last_sort(cfg, &self.moves);
        self.moves = Vec::new();
        assert(self@ =~= Seq::<MoveView>::empty());
        r
    }

    /// Forgets the last sort: another layout has taken the place of the one
    /// that was sorted.
    pub fn forget(&mut self)
        ensures
            final(self)@ == Seq::<MoveView>::empty(),
    {
        self.moves = Vec::new();
        assert(self@ =~= Seq::<MoveView>::empty());
    }
}

/// A second undo changes nothing.
pub proof fn law_second_undo_changes_nothing(s: Sorted)
    ensures
        taken_back(taken_back(s)) == taken_back(s),
{
}

/// Whether the rules choose a fence for an item other than the one with the
/// id `unsorted`.
pub open spec fn is_sent_away(
    fences: Seq<FenceView>,
    folders: Seq<Seq<char>>,
    unsorted: Seq<char>,
    item: Seq<char>,
) -> bool {
    match crate::rules::matching_fence(
        fences,
        crate::path::path_file_name(item),
        folders.contains(item),
    ) {
        Some(id) => id != unsorted,
        None => false,
    }
}

proof fn lemma_plan_prefix(
    fences: Seq<FenceView>,
    folders: Seq<Seq<char>>,
    items: Seq<Seq<char>>,
    unsorted: Seq<char>,
)
    ensures
        items.filter_map(planned_for(fences, folders, unsorted)).map_values(
            |m: PlannedView| m.item,
        ) == items.filter(|item: Seq<char>| is_sent_away(fences, folders, unsorted, item)),
    decreases items.len(),
{
    reveal(Seq::filter);
    reveal(Seq::filter_map);
    let w = planned_for(fences, folders, unsorted);
    let p = |item: Seq<char>| is_sent_away(fences, folders, unsorted, item);
    let g = |m: PlannedView| m.item;
    if items.len() == 0 {
        assert(items.filter_map(w).map_values(g) =~= items.filter(p));
    } else {
        lemma_plan_prefix(fences, folders, items.drop_last(), unsorted);
        assert(sent_to(
            fences,
            ItemView { path: items.last(), is_dir: folders.contains(items.last()) },
        ) == crate::rules::matching_fence(
            fences,
            crate::path::path_file_name(items.last()),
            folders.contains(items.last()),
        ));
        assert(items.filter_map(w).map_values(g) =~= items.filter(p));
    }
}

/// The plan moves exactly those items of the catch-all fence for which the
/// rules choose another fence, each to the fence that they choose, in the
/// order of the items. What any fence holds does not matter.
pub proof fn law_what_is_planned(fences: Seq<FenceView>, folders: Seq<Seq<char>>, u: int)
    requires
        unsorted_at(fences) == Some(u),
    ensures
        ({
            let id = fences[u].id;
            let moves = planned(fences, folders);
            &&& moves.map_values(|m: PlannedView| m.item) == fences[u].items.filter(
                |item: Seq<char>| is_sent_away(fences, folders, id, item),
            )
            &&& forall|k: int|
                0 <= k < moves.len() ==> Some((#[trigger] moves[k]).target)
                    == crate::rules::matching_fence(
                    fences,
                    crate::path::path_file_name(moves[k].item),
                    folders.contains(moves[k].item),
                )
            &&& forall|k: int|
                0 <= k < fences[u].items.len() && is_sent_away(
                    fences,
                    folders,
                    id,
                    #[trigger] fences[u].items[k],
                ) ==> exists|n: int|
                    0 <= n < moves.len() && (#[trigger] moves[n]).item == fences[u].items[k]
        }),
{
    let id = fences[u].id;
    let items = fences[u].items;
    let moves = planned(fences, folders);
    let w = planned_for(fences, folders, id);
    let p = |item: Seq<char>| is_sent_away(fences, folders, id, item);
    lemma_plan_prefix(fences, folders, items, id);
    assert forall|k: int| 0 <= k < moves.len() implies Some((#[trigger] moves[k]).target)
        == crate::rules::matching_fence(
        fences,
        crate::path::path_file_name(moves[k].item),
        folders.contains(moves[k].item),
    ) by {
        let m = moves[k];
        assert(moves.contains(m));
        items.lemma_filter_map_contains(w, m);
        let item = choose|item: Seq<char>| #![auto] items.contains(item) && w(item) == Some(m);
    }
    assert forall|k: int|
        0 <= k < items.len() && is_sent_away(
            fences,
            folders,
            id,
            #[trigger] items[k],
        ) implies exists|n: int| 0 <= n < moves.len() && (#[trigger] moves[n]).item
        == items[k] by {
        items.lemma_filter_contains(p, k);
        let chosen = items.filter(p);
        let n = choose|n: int| 0 <= n < chosen.len() && chosen[n] == items[k];
        assert(moves.map_values(|m: PlannedView| m.item)[n] == moves[n].item);
    }
}

/// Without a catch-all fence nothing is planned, and no fence has the id that
/// moves would come from.
pub proof fn law_no_plan_without_a_catch_all_fence(
    fences: Seq<FenceView>,
    folders: Seq<Seq<char>>,
)
    ensures
        unsorted_at(fences) is None ==> planned(fences, folders).len() == 0 && unsorted_id(
            fences,
        ).len() == 0,
        unsorted_at(fences) matches Some(u) ==> unsorted_id(fences) == fences[u].id,
{
}

/// The plan depends on the ids, titles and rules of the fences and on what the
/// catch-all fence holds, and not on what the other fences hold or where they
/// stand.
pub proof fn law_plan_depends_on_rules_alone(
    a: Seq<FenceView>,
    b: Seq<FenceView>,
    folders: Seq<Seq<char>>,
    u: int,
)
    requires
        a.len() == b.len(),
        forall|i: int|
            0 <= i < a.len() ==> (#[trigger] a[i]).id == b[i].id && a[i].title == b[i].title
                && a[i].rules == b[i].rules,
        unsorted_at(a) == Some(u),
        a[u].items == b[u].items,
    ensures
        planned(a, folders) == planned(b, folders),
        unsorted_id(a) == unsorted_id(b),
{
    assert(same_heads(a, b)) by {
        assert forall|i: int| 0 <= i < a.len() implies (#[trigger] b[i]).id == a[i].id && a[i].title
            == b[i].title && a[i].rules == b[i].rules by {
            assert(a[i].id == b[i].id);
        }
    }
    lemma_items_do_not_matter(a, b);
    lemma_first_index(a, is_unsorted());
    let id = a[u].id;
    assert forall|item: Seq<char>| #[trigger] planned_for(a, folders, id)(item) == planned_for(
        b,
        folders,
        id,
    )(item) by {
        let it = ItemView { path: item, is_dir: folders.contains(item) };
        assert(sent_to(a, it) == sent_to(b, it));
    }
    assert(planned_for(a, folders, id) =~= planned_for(b, folders, id));
}

/// Moves are made one after the other, and each that is made is recorded
/// behind those before it.
pub proof fn law_moves_are_made_in_order(
    fences: Seq<FenceView>,
    moves: Seq<PlannedView>,
    m: PlannedView,
    unsorted: Seq<char>,
)
    ensures
        sorted(fences, Seq::empty(), unsorted).fences == fences,
        sorted(fences, Seq::empty(), unsorted).applied.len() == 0,
        sorted(fences, moves.push(m), unsorted) == sort_step(
            sorted(fences, moves, unsorted),
            m,
            unsorted,
        ),
{
    assert(moves.push(m).drop_last() =~= moves);
}

/// A planned move takes the first of the item's places in the catch-all fence
/// away and puts the item behind everything that its target holds, and it is
/// recorded with where it came from and went to. No other fence changes, and
/// of these two nothing but their items. If the item is not in the catch-all
/// fence, or the target is not in the layout, nothing happens.
pub proof fn law_one_move(s: Sorted, m: PlannedView, unsorted: Seq<char>, u: int, t: int, k: int)
    ensures
        ({
            let e = sort_step(s, m, unsorted);
            &&& unsorted_at(s.fences) is None ==> e == s
            &&& fence_at(s.fences, m.target) is None ==> e == s
            &&& unsorted_at(s.fences) == Some(u) && !s.fences[u].items.contains(m.item) ==> e == s
            &&& unsorted_at(s.fences) == Some(u) && fence_at(s.fences, m.target) == Some(t) && u
                != t && 0 <= k < s.fences[u].items.len() && s.fences[u].items[k] == m.item && !(
            s.fences[u].items.take(k).contains(m.item)) ==> {
                &&& e.fences.len() == s.fences.len()
                &&& e.fences[u].items == s.fences[u].items.take(k) + s.fences[u].items.skip(k + 1)
                &&& e.fences[t].items == s.fences[t].items.push(m.item)
                &&& holding(e.fences[u], s.fences[u].items) == s.fences[u]
                &&& holding(e.fences[t], s.fences[t].items) == s.fences[t]
                &&& forall|f: int|
                    0 <= f < s.fences.len() && f != u && f != t ==> #[trigger] e.fences[f]
                        == s.fences[f]
                &&& e.applied.len() == s.applied.len() + 1
                &&& e.applied.drop_last() == s.applied
                &&& e.applied.last().item == m.item
                &&& e.applied.last().from_id == unsorted
                &&& e.applied.last().to_id == m.target
            }
        }),
{
    let e = sort_step(s, m, unsorted);
    lemma_first_index(s.fences, is_unsorted());
    lemma_fence_at_in_range(s.fences, m.target);
    if unsorted_at(s.fences) == Some(u) {
        let items = s.fences[u].items;
        items.index_of_first_ensures(m.item);
        if fence_at(s.fences, m.target) == Some(t) && u != t && 0 <= k < items.len() && items[k]
            == m.item && !(items.take(k).contains(m.item)) {
            assert(items.contains(m.item));
            let j = items.index_of_first(m.item)->0;
            if j < k {
                assert(items.take(k)[j] == m.item);
            }
            assert(j == k);
            assert(items.remove(k) =~= items.take(k) + items.skip(k + 1));
            assert(e.applied.drop_last() =~= s.applied);
        }
    }
}

/// Moves are undone one after the other, in the order in which they were made.
pub proof fn law_moves_are_undone_in_order(
    fences: Seq<FenceView>,
    m: MoveView,
    moves: Seq<MoveView>,
)
    ensures
        undone(fences, Seq::empty()) == fences,
        undone(fences, seq![m] + moves) == undone(undo_step(fences, m), moves),
{
    assert((seq![m] + moves).skip(1) =~= moves);
}

/// Undoing a move takes the first of the item's places in the fence it was
/// moved to away and puts the item behind everything that the fence it came
/// from holds. No other fence changes, and of these two nothing but their
/// items. If the item is no longer there, or one of the fences is not in the
/// layout, nothing happens.
pub proof fn law_one_move_undone(fences: Seq<FenceView>, m: MoveView, t: int, f: int, k: int)
    ensures
        ({
            let e = undo_step(fences, m);
            &&& fence_at(fences, m.to_id) is None ==> e == fences
            &&& fence_at(fences, m.from_id) is None ==> e == fences
            &&& fence_at(fences, m.to_id) == Some(t) && !fences[t].items.contains(m.item) ==> e
                == fences
            &&& fence_at(fences, m.to_id) == Some(t) && fence_at(fences, m.from_id) == Some(f) && t
                != f && 0 <= k < fences[t].items.len() && fences[t].items[k] == m.item && !(
            fences[t].items.take(k).contains(m.item)) ==> {
                &&& e.len() == fences.len()
                &&& e[t].items == fences[t].items.take(k) + fences[t].items.skip(k + 1)
                &&& e[f].items == fences[f].items.push(m.item)
                &&& holding(e[t], fences[t].items) == fences[t]
                &&& holding(e[f], fences[f].items) == fences[f]
                &&& forall|g: int|
                    0 <= g < fences.len() && g != t && g != f ==> #[trigger] e[g] == fences[g]
            }
        }),
{
    lemma_fence_at_in_range(fences, m.to_id);
    lemma_fence_at_in_range(fences, m.from_id);
    if fence_at(fences, m.to_id) == Some(t) {
        let items = fences[t].items;
        items.index_of_first_ensures(m.item);
        if 0 <= k < items.len() && items[k] == m.item && !(items.take(k).contains(m.item)) {
            assert(items.contains(m.item));
            let j = items.index_of_first(m.item)->0;
            if j < k {
                assert(items.take(k)[j] == m.item);
            }
            assert(j == k);
            assert(items.remove(k) =~= items.take(k) + items.skip(k + 1));
        }
    }
}

/// How often a title is in a list.
pub open spec fn mentions(titles: Seq<Seq<char>>, title: Seq<char>) -> nat {
    titles.to_multiset().count(title)
}

/// The tally has one entry for each title that occurs, with the number of its
/// mentions, and no other entry.
pub proof fn law_tally_counts_mentions(titles: Seq<Seq<char>>, title: Seq<char>)
    ensures
        forall|i: int|
            0 <= i < tally(titles).len() ==> (#[trigger] tally(titles)[i]).1 == mentions(
                titles,
                tally(titles)[i].0,
            ) && titles.contains(tally(titles)[i].0),
        forall|i: int, j: int|
            0 <= i < j < tally(titles).len() ==> (#[trigger] tally(titles)[i]).0 != (
            #[trigger] tally(titles)[j]).0,
        titles.contains(title) ==> exists|i: int|
            0 <= i < tally(titles).len() && (#[trigger] tally(titles)[i]).0 == title,
    decreases titles.len(),
{
    broadcast use vstd::seq_lib::group_to_multiset_ensures;

    if titles.len() > 0 {
        let t = titles.drop_last();
        let x = titles.last();
        let before = tally(t);
        let after = tally(titles);
        let p = counts_title(x);
        law_tally_counts_mentions(t, title);
        assert(t.push(x) =~= titles);
        lemma_first_index(before, p);
        if !t.contains(x) {
            assert(mentions(t, x) == 0);
        }
        assert forall|y: Seq<char>| #[trigger] mentions(titles, y) == mentions(t, y) + (if y == x {
            1nat
        } else {
            0nat
        }) by {}
        assert forall|y: Seq<char>| t.contains(y) implies #[trigger] titles.contains(y) by {
            let k = choose|k: int| 0 <= k < t.len() && t[k] == y;
            assert(titles[k] == y);
        }
        assert(titles[titles.len() - 1] == x);
        match first_index(before, p) {
            Some(n) => {
                assert forall|i: int| 0 <= i < after.len() implies (#[trigger] after[i]).1
                    == mentions(titles, after[i].0) && titles.contains(after[i].0) by {
                    assert(after[i].0 == before[i].0);
                    if i != n {
                        assert(before[i].0 != before[n].0) by {
                            if i < n {
                                assert(before[i].0 != before[n].0);
                            } else {
                                assert(before[n].0 != before[i].0);
                            }
                        }
                    }
                }
                assert forall|i: int, j: int| 0 <= i < j < after.len() implies (
                #[trigger] after[i]).0 != (#[trigger] after[j]).0 by {
                    assert(before[i].0 != before[j].0);
                }
                if titles.contains(title) {
                    if title == x {
                        assert(after[n].0 == title);
                    } else {
                        let k = choose|k: int| 0 <= k < titles.len() && titles[k] == title;
                        assert(t[k] == title);
                        let i = choose|i: int|
                            0 <= i < before.len() && (#[trigger] before[i]).0 == title;
                        assert(after[i].0 == title);
                    }
                }
            },
            None => {
                assert(!t.contains(x)) by {
                    if t.contains(x) {
                        law_tally_counts_mentions(t, x);
                        let i = choose|i: int|
                            0 <= i < before.len() && (#[trigger] before[i]).0 == x;
                        assert(p(before[i]));
                    }
                }
                assert forall|i: int| 0 <= i < after.len() implies (#[trigger] after[i]).1
                    == mentions(titles, after[i].0) && titles.contains(after[i].0) by {
                    if i < before.len() {
                        assert(after[i] == before[i]);
                        assert(!p(before[i]));
                    }
                }
                assert forall|i: int, j: int| 0 <= i < j < after.len() implies (
                #[trigger] after[i]).0 != (#[trigger] after[j]).0 by {
                    assert(after[i] == before[i]);
                    assert(!p(before[i]));
                    if j < before.len() {
                        assert(after[j] == before[j]);
                        assert(before[i].0 != before[j].0);
                    }
                }
                if titles.contains(title) {
                    if title == x {
                        assert(after[before.len() as int].0 == title);
                    } else {
                        let k = choose|k: int| 0 <= k < titles.len() && titles[k] == title;
                        assert(t[k] == title);
                        let i = choose|i: int|
                            0 <= i < before.len() && (#[trigger] before[i]).0 == title;
                        assert(after[i].0 == title);
                    }
                }
            },
        }
    }
}

/// A further mention keeps the entries of the tally where they are; a title
/// that was not mentioned before comes behind them.
pub proof fn law_tally_is_in_order_of_first_mention(titles: Seq<Seq<char>>, title: Seq<char>)
    ensures
        ({
            let before = tally(titles);
            let after = tally(titles.push(title));
            &&& tally(Seq::empty()).len() == 0
            &&& forall|i: int| 0 <= i < before.len() ==> (#[trigger] after[i]).0 == before[i].0
            &&& after.len() == if titles.contains(title) {
                before.len()
            } else {
                before.len() + 1
            }
            &&& !titles.contains(title) ==> after.last() == (title, 1nat)
        }),
{
    law_tally_counts_mentions(titles, title);
    assert(titles.push(title).drop_last() =~= titles);
    let before = tally(titles);
    let p = counts_title(title);
    lemma_first_index(before, p);
    if titles.contains(title) {
        let i = choose|i: int| 0 <= i < before.len() && (#[trigger] before[i]).0 == title;
        assert(p(before[i]));
    } else if first_index(before, p) is Some {
        let n = first_index(before, p)->0;
        assert(titles.contains(before[n].0));
    }
}

/// The question tells how many items would move, then on a line of its own for
/// each title of a target how many go there, and then asks.
pub proof fn law_question(
    fences: Seq<FenceView>,
    moves: Seq<PlannedView>,
    counts: Seq<(Seq<char>, nat)>,
    c: (Seq<char>, nat),
    k: int,
)
    ensures
        question(fences, moves) == "This will move "@ + decimal(moves.len()) + " items:\n"@
            + tally_text(tally(target_titles(fences, moves))) + "\n\nContinue?"@,
        tally_text(Seq::empty()).len() == 0,
        tally_text(counts.push(c)) == tally_text(counts) + "\n"@ + decimal(c.1) + " \u{2192} "@
            + c.0,
        target_titles(fences, moves).len() == moves.len(),
        0 <= k < moves.len() ==> (fence_at(fences, moves[k].target) matches Some(f)
            ==> target_titles(fences, moves)[k] == fences[f].title),
        0 <= k < moves.len() && fence_at(fences, moves[k].target) is None ==> target_titles(
            fences,
            moves,
        )[k].len() == 0,
{
    assert(counts.push(c).drop_last() =~= counts);
}

/// "No" changes neither the fences nor the record; "Yes" makes the moves and
/// puts those that were made in the place of the record.
pub proof fn law_answers(s: Sorted, moves: Seq<PlannedView>, unsorted: Seq<char>)
    ensures
        answered(s, moves, unsorted, false) == s,
        answered(s, moves, unsorted, true).fences == sorted(s.fences, moves, unsorted).fences,
        answered(s, moves, unsorted, true).applied == sorted(s.fences, moves, unsorted).applied,
        taken_back(s).fences == undone(s.fences, s.applied),
        taken_back(s).applied.len() == 0,
{
}

/// The fences without an item differ in that item alone, and with one more in
/// that one alone, which comes last.
pub proof fn law_one_item_less_or_more(fences: Seq<FenceView>, i: int, k: int, p: Seq<char>)
    requires
        0 <= i < fences.len(),
        0 <= k < fences[i].items.len(),
    ensures
        without_item(fences, i, k) == fences.update(
            i,
            holding(fences[i], fences[i].items.take(k) + fences[i].items.skip(k + 1)),
        ),
        with_item(fences, i, p) == fences.update(
            i,
            holding(fences[i], fences[i].items + seq![p]),
        ),
{
    assert(fences[i].items.remove(k) =~= fences[i].items.take(k) + fences[i].items.skip(k + 1));
    assert(fences[i].items.push(p) =~= fences[i].items + seq![p]);
}

} // verus!
