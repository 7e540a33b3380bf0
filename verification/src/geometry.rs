//! Rectangles and points of the virtual desktop, in physical pixels: where a
//! moved or resized fence snaps to, where covered fences are pushed, and
//! where dialogs open.

use vstd::prelude::*;
use crate::list::{first_index, lemma_is_first, lemma_is_nowhere};

verus! {

#[derive(Clone, Copy, PartialEq, Eq, Structural, Debug)]
pub struct Point {
    pub x: i32,
    pub y: i32,
}

#[derive(Clone, Copy, PartialEq, Eq, Structural, Debug)]
pub struct Rect {
    pub left: i32,
    pub top: i32,
    pub right: i32,
    pub bottom: i32,
}

/// The gap between fences that sit side by side.
pub const SNAP_GAP: i32 = 24;

pub open spec fn fits(v: int) -> bool {
    i32::MIN <= v <= i32::MAX
}

pub open spec fn distance(a: int, b: int) -> int {
    if a < b {
        b - a
    } else {
        a - b
    }
}

/// The candidate nearest to `cur` among those no further than `reach`; the
/// first one of several that are equally near.
pub open spec fn nearest(cands: Seq<int>, cur: int, reach: int) -> Option<int>
    decreases cands.len(),
{
    if cands.len() == 0 {
        None
    } else {
        let before = nearest(cands.drop_last(), cur, reach);
        let c = cands.last();
        if distance(c, cur) > reach {
            before
        } else {
            match before {
                Some(b) => if distance(b, cur) <= distance(c, cur) {
                    before
                } else {
                    Some(c)
                },
                None => Some(c),
            }
        }
    }
}

/// What is nearest is a candidate within reach and none is nearer; nothing is
/// nearest only if no candidate is within reach.
pub proof fn law_nearest(cands: Seq<int>, cur: int, reach: int)
    ensures
        match nearest(cands, cur, reach) {
            Some(c) => {
                &&& cands.contains(c)
                &&& distance(c, cur) <= reach
                &&& forall|i: int|
                    0 <= i < cands.len() ==> distance(c, cur) <= distance(#[trigger] cands[i], cur)
            },
            None => forall|i: int|
                0 <= i < cands.len() ==> distance(#[trigger] cands[i], cur) > reach,
        },
    decreases cands.len(),
{
    if cands.len() > 0 {
        let t = cands.drop_last();
        law_nearest(t, cur, reach);
        assert forall|i: int| 0 <= i < t.len() implies #[trigger] t[i] == cands[i] by {}
        assert(cands[cands.len() - 1] == cands.last());
        match nearest(t, cur, reach) {
            Some(b) => {
                let k = choose|k: int| 0 <= k < t.len() && t[k] == b;
                assert(cands[k] == b);
                assert forall|i: int| 0 <= i < cands.len() implies distance(
                    nearest(cands, cur, reach)->0,
                    cur,
                ) <= distance(#[trigger] cands[i], cur) by {
                    if i < t.len() {
                        assert(t[i] == cands[i]);
                    }
                }
            },
            None => {
                assert forall|i: int| 0 <= i < t.len() implies distance(#[trigger] cands[i], cur)
                    > reach by {
                    assert(t[i] == cands[i]);
                }
            },
        }
    }
}

/// The numbers of a list.
pub open spec fn ints(v: Seq<i64>) -> Seq<int> {
    Seq::new(v.len(), |i: int| v[i] as int)
}

fn gap(a: i64, b: i64) -> (r: i128)
    ensures
        r == distance(a as int, b as int),
{
    if a < b {
        b as i128 - a as i128
    } else {
        a as i128 - b as i128
    }
}

/// The candidate that an edge at `cur` snaps to.
pub fn snap_best(cands: &Vec<i64>, cur: i32, threshold: i64) -> (r: Option<i64>)
    ensures
        match r {
            Some(c) => nearest(ints(cands@), cur as int, threshold as int) == Some(c as int),
            None => nearest(ints(cands@), cur as int, threshold as int) is None,
        },
{
    let ghost all = ints(cands@);
    let mut best: Option<i64> = None;
    let mut i: usize = 0;
    while i < cands.len()
        invariant
            all == ints(cands@),
            i <= cands@.len(),
            match best {
                Some(b) => nearest(all.take(i as int), cur as int, threshold as int) == Some(
                    b as int,
                ),
                None => nearest(all.take(i as int), cur as int, threshold as int) is None,
            },
        decreases cands@.len() - i,
    {
        proof {
            assert(all.take(i + 1).drop_last() =~= all.take(i as int));
            assert(all.take(i + 1).last() == cands@[i as int]);
        }
        let c = cands[i];
        let d = gap(c, cur as i64);
        if d <= threshold as i128 {
            match best {
                Some(b) => {
                    if gap(b, cur as i64) > d {
                        best = Some(c);
                    }
                },
                None => {
                    best = Some(c);
                },
            }
        }
        i = i + 1;
    }
    assert(all.take(all.len() as int) =~= all);
    best
}

/// A rectangle of mathematical integers.
pub struct IntRect {
    pub left: int,
    pub top: int,
    pub right: int,
    pub bottom: int,
}

pub open spec fn rect_fits(r: IntRect) -> bool {
    fits(r.left) && fits(r.top) && fits(r.right) && fits(r.bottom)
}

pub open spec fn int_rect(r: Rect) -> IntRect {
    IntRect {
        left: r.left as int,
        top: r.top as int,
        right: r.right as int,
        bottom: r.bottom as int,
    }
}

/// How far an edge snaps, at a resolution of `dpi`: eight pixels at 96.
pub open spec fn snap_reach(dpi: u32) -> int {
    dpi as int * 8 / 96
}

/// Where the low edge of a moved fence of extent `len` may snap to, along one
/// axis, next to a fence from `low` to `high`: after it, before it, or with
/// either pair of edges aligned.
pub open spec fn move_candidates(low: int, high: int, len: int) -> Seq<int> {
    seq![high + SNAP_GAP, low - len - SNAP_GAP, low, high - len]
}

/// Where a dragged edge may snap to: the edges of a fence, or a gap away.
pub open spec fn size_candidates(low: int, high: int) -> Seq<int> {
    seq![low, high, low - SNAP_GAP, high + SNAP_GAP]
}

pub open spec fn move_xs(others: Seq<Rect>, w: int) -> Seq<int>
    decreases others.len(),
{
    if others.len() == 0 {
        Seq::empty()
    } else {
        let o = others.last();
        move_xs(others.drop_last(), w) + move_candidates(o.left as int, o.right as int, w)
    }
}

pub open spec fn move_ys(others: Seq<Rect>, h: int) -> Seq<int>
    decreases others.len(),
{
    if others.len() == 0 {
        Seq::empty()
    } else {
        let o = others.last();
        move_ys(others.drop_last(), h) + move_candidates(o.top as int, o.bottom as int, h)
    }
}

pub open spec fn size_xs(others: Seq<Rect>) -> Seq<int>
    decreases others.len(),
{
    if others.len() == 0 {
        Seq::empty()
    } else {
        let o = others.last();
        size_xs(others.drop_last()) + size_candidates(o.left as int, o.right as int)
    }
}

pub open spec fn size_ys(others: Seq<Rect>) -> Seq<int>
    decreases others.len(),
{
    if others.len() == 0 {
        Seq::empty()
    } else {
        let o = others.last();
        size_ys(others.drop_last()) + size_candidates(o.top as int, o.bottom as int)
    }
}

/// `cur`, or the candidate it snaps to.
pub open spec fn snapped(cands: Seq<int>, cur: int, reach: int) -> int {
    match nearest(cands, cur, reach) {
        Some(c) => c,
        None => cur,
    }
}

/// A moved fence, snapped to the other fences along each axis.
pub open spec fn snapped_move(rc: Rect, others: Seq<Rect>, dpi: u32) -> IntRect {
    let w = rc.right - rc.left;
    let h = rc.bottom - rc.top;
    let x = snapped(move_xs(others, w), rc.left as int, snap_reach(dpi));
    let y = snapped(move_ys(others, h), rc.top as int, snap_reach(dpi));
    IntRect { left: x, top: y, right: x + w, bottom: y + h }
}

/// Whether a sizing edge code drags the left edge.
pub open spec fn drags_left(edge: usize) -> bool {
    edge == 1 || edge == 4 || edge == 7
}

pub open spec fn drags_right(edge: usize) -> bool {
    edge == 2 || edge == 5 || edge == 8
}

pub open spec fn drags_top(edge: usize) -> bool {
    edge == 3 || edge == 4 || edge == 5
}

pub open spec fn drags_bottom(edge: usize) -> bool {
    edge == 6 || edge == 7 || edge == 8
}

/// A resized fence, with the dragged edges snapped to the other fences.
pub open spec fn snapped_size(rc: Rect, edge: usize, others: Seq<Rect>, dpi: u32) -> IntRect {
    let xs = size_xs(others);
    let ys = size_ys(others);
    let reach = snap_reach(dpi);
    IntRect {
        left: if drags_left(edge) {
            snapped(xs, rc.left as int, reach)
        } else {
            rc.left as int
        },
        right: if drags_right(edge) {
            snapped(xs, rc.right as int, reach)
        } else {
            rc.right as int
        },
        top: if drags_top(edge) {
            snapped(ys, rc.top as int, reach)
        } else {
            rc.top as int
        },
        bottom: if drags_bottom(edge) {
            snapped(ys, rc.bottom as int, reach)
        } else {
            rc.bottom as int
        },
    }
}

/// Adds the four candidates of one fence along one axis.
fn push_four(v: &mut Vec<i64>, a: i64, b: i64, c: i64, d: i64)
    ensures
        ints(final(v)@) == ints(old(v)@) + seq![a as int, b as int, c as int, d as int],
{
    v.push(a);
    v.push(b);
    v.push(c);
    v.push(d);
    assert(ints(v@) =~= ints(old(v)@) + seq![a as int, b as int, c as int, d as int]);
}

fn reach_of(dpi: u32) -> (r: i64)
    ensures
        r == snap_reach(dpi),
{
    dpi as i64 * 8 / 96
}

/// Whether a number is one of an `i32`.
fn in_range(v: i128) -> (r: bool)
    ensures
        r == fits(v as int),
{
    i32::MIN as i128 <= v && v <= i32::MAX as i128
}

/// Where the left and the top edge of a moved fence snap to.
fn moved_place(rc: Rect, others: &Vec<Rect>, dpi: u32) -> (r: (i64, i64))
    ensures
        r.0 == snapped_move(rc, others@, dpi).left,
        r.1 == snapped_move(rc, others@, dpi).top,
{
    let threshold = reach_of(dpi);
    let w: i64 = rc.right as i64 - rc.left as i64;
    let h: i64 = rc.bottom as i64 - rc.top as i64;
    let g: i64 = SNAP_GAP as i64;
    let mut xs: Vec<i64> = Vec::new();
    let mut ys: Vec<i64> = Vec::new();
    let mut i: usize = 0;
    assert(ints(xs@) =~= move_xs(others@.take(0), w as int));
    assert(ints(ys@) =~= move_ys(others@.take(0), h as int));
    while i < others.len()
        invariant
            w == rc.right - rc.left,
            h == rc.bottom - rc.top,
            g == SNAP_GAP,
            i <= others@.len(),
            ints(xs@) == move_xs(others@.take(i as int), w as int),
            ints(ys@) == move_ys(others@.take(i as int), h as int),
        decreases others@.len() - i,
    {
        let o = others[i];
        proof {
            assert(others@.take(i + 1).drop_last() =~= others@.take(i as int));
            assert(others@.take(i + 1).last() == o);
        }
        push_four(
            &mut xs,
            o.right as i64 + g,
            o.left as i64 - w - g,
            o.left as i64,
            o.right as i64 - w,
        );
        push_four(
            &mut ys,
            o.bottom as i64 + g,
            o.top as i64 - h - g,
            o.top as i64,
            o.bottom as i64 - h,
        );
        i = i + 1;
    }
    assert(others@.take(others@.len() as int) =~= others@);
    let x = match snap_best(&xs, rc.left, threshold) {
        Some(x) => x,
        None => rc.left as i64,
    };
    let y = match snap_best(&ys, rc.top, threshold) {
        Some(y) => y,
        None => rc.top as i64,
    };
    (x, y)
}

/// `snap_moving_rect` where the snapped fence has coordinates of the screen;
/// `false`, with nothing changed, where it has none.
pub fn try_snap_moving_rect(rc: &mut Rect, others: &Vec<Rect>, dpi: u32) -> (r: bool)
    ensures
        r == rect_fits(snapped_move(*old(rc), others@, dpi)),
        r ==> int_rect(*final(rc)) == snapped_move(*old(rc), others@, dpi),
        !r ==> *final(rc) == *old(rc),
{
    let (left, top) = moved_place(*rc, others, dpi);
    let right: i128 = left as i128 + (rc.right as i128 - rc.left as i128);
    let bottom: i128 = top as i128 + (rc.bottom as i128 - rc.top as i128);
    if !(in_range(left as i128) && in_range(top as i128) && in_range(right) && in_range(bottom)) {
        return false;
    }
    *rc = Rect { left: left as i32, top: top as i32, right: right as i32, bottom: bottom as i32 };
    true
}

/// Snaps a fence that is being moved to the other fences: aligned edges, or
/// the standard gap between them. Its size does not change.
pub fn snap_moving_rect(rc: &mut Rect, others: &Vec<Rect>, dpi: u32)
    requires
        rect_fits(snapped_move(*old(rc), others@, dpi)),
    ensures
        int_rect(*final(rc)) == snapped_move(*old(rc), others@, dpi),
{
    let _ = try_snap_moving_rect(rc, others, dpi);
}

/// Where a dragged edge at `cur` snaps to.
fn dragged_place(dragged: bool, cands: &Vec<i64>, cur: i32, threshold: i64) -> (r: i64)
    ensures
        r == if dragged {
            snapped(ints(cands@), cur as int, threshold as int)
        } else {
            cur as int
        },
{
    if dragged {
        match snap_best(cands, cur, threshold) {
            Some(c) => c,
            None => cur as i64,
        }
    } else {
        cur as i64
    }
}

/// `snap_sizing_rect` where the snapped fence has coordinates of the screen;
/// `false`, with nothing changed, where it has none.
pub fn try_snap_sizing_rect(rc: &mut Rect, edge: usize, others: &Vec<Rect>, dpi: u32) -> (r: bool)
    ensures
        r == rect_fits(snapped_size(*old(rc), edge, others@, dpi)),
        r ==> int_rect(*final(rc)) == snapped_size(*old(rc), edge, others@, dpi),
        !r ==> *final(rc) == *old(rc),
{
    let threshold = reach_of(dpi);
    let g: i64 = SNAP_GAP as i64;
    let mut xs: Vec<i64> = Vec::new();
    let mut ys: Vec<i64> = Vec::new();
    let mut i: usize = 0;
    assert(ints(xs@) =~= size_xs(others@.take(0)));
    assert(ints(ys@) =~= size_ys(others@.take(0)));
    while i < others.len()
        invariant
            *rc == *old(rc),
            g == SNAP_GAP,
            i <= others@.len(),
            ints(xs@) == size_xs(others@.take(i as int)),
            ints(ys@) == size_ys(others@.take(i as int)),
        decreases others@.len() - i,
    {
        let o = others[i];
        proof {
            assert(others@.take(i + 1).drop_last() =~= others@.take(i as int));
            assert(others@.take(i + 1).last() == o);
        }
        push_four(
            &mut xs,
            o.left as i64,
            o.right as i64,
            o.left as i64 - g,
            o.right as i64 + g,
        );
        push_four(
            &mut ys,
            o.top as i64,
            o.bottom as i64,
            o.top as i64 - g,
            o.bottom as i64 + g,
        );
        i = i + 1;
    }
    assert(others@.take(others@.len() as int) =~= others@);
    let left = dragged_place(edge == 1 || edge == 4 || edge == 7, &xs, rc.left, threshold);
    let right = dragged_place(edge == 2 || edge == 5 || edge == 8, &xs, rc.right, threshold);
    let top = dragged_place(edge == 3 || edge == 4 || edge == 5, &ys, rc.top, threshold);
    let bottom = dragged_place(edge == 6 || edge == 7 || edge == 8, &ys, rc.bottom, threshold);
    if !(in_range(left as i128) && in_range(top as i128) && in_range(right as i128) && in_range(
        bottom as i128,
    )) {
        return false;
    }
    *rc = Rect { left: left as i32, top: top as i32, right: right as i32, bottom: bottom as i32 };
    true
}

/// Snaps the edges that are being dragged to the other fences: aligned, or
/// the standard gap away. `edge` counts left 1, right 2, top 3, top left 4,
/// top right 5, bottom 6, bottom left 7, bottom right 8.
pub fn snap_sizing_rect(rc: &mut Rect, edge: usize, others: &Vec<Rect>, dpi: u32)
    requires
        rect_fits(snapped_size(*old(rc), edge, others@, dpi)),
    ensures
        int_rect(*final(rc)) == snapped_size(*old(rc), edge, others@, dpi),
{
    let _ = try_snap_sizing_rect(rc, edge, others, dpi);
}

/// Snapping a moved fence keeps its size and shifts it along each axis by no
/// more than the snapping distance, and only to where it is aligned with
/// another fence or a gap away from it. It stays where it is only if no such
/// place is within reach or it stands at one.
pub proof fn law_snap_is_a_light_grip(rc: Rect, others: Seq<Rect>, dpi: u32)
    ensures
        ({
            let s = snapped_move(rc, others, dpi);
            let xs = move_xs(others, rc.right - rc.left);
            let ys = move_ys(others, rc.bottom - rc.top);
            let reach = snap_reach(dpi);
            &&& s.right - s.left == rc.right - rc.left
            &&& s.bottom - s.top == rc.bottom - rc.top
            &&& distance(s.left, rc.left as int) <= reach
            &&& distance(s.top, rc.top as int) <= reach
            &&& xs.contains(s.left) || s.left == rc.left && forall|i: int|
                0 <= i < xs.len() ==> distance(#[trigger] xs[i], rc.left as int) > reach
            &&& ys.contains(s.top) || s.top == rc.top && forall|i: int|
                0 <= i < ys.len() ==> distance(#[trigger] ys[i], rc.top as int) > reach
        }),
{
    law_nearest(move_xs(others, rc.right - rc.left), rc.left as int, snap_reach(dpi));
    law_nearest(move_ys(others, rc.bottom - rc.top), rc.top as int, snap_reach(dpi));
}

/// Snapping a resized fence moves only the edges that are dragged, each by no
/// more than the snapping distance.
pub proof fn law_snap_moves_dragged_edges(rc: Rect, edge: usize, others: Seq<Rect>, dpi: u32)
    ensures
        ({
            let s = snapped_size(rc, edge, others, dpi);
            &&& !drags_left(edge) ==> s.left == rc.left
            &&& !drags_right(edge) ==> s.right == rc.right
            &&& !drags_top(edge) ==> s.top == rc.top
            &&& !drags_bottom(edge) ==> s.bottom == rc.bottom
            &&& distance(s.left, rc.left as int) <= snap_reach(dpi)
            &&& distance(s.right, rc.right as int) <= snap_reach(dpi)
            &&& distance(s.top, rc.top as int) <= snap_reach(dpi)
            &&& distance(s.bottom, rc.bottom as int) <= snap_reach(dpi)
        }),
{
    let xs = size_xs(others);
    let ys = size_ys(others);
    law_nearest(xs, rc.left as int, snap_reach(dpi));
    law_nearest(xs, rc.right as int, snap_reach(dpi));
    law_nearest(ys, rc.top as int, snap_reach(dpi));
    law_nearest(ys, rc.bottom as int, snap_reach(dpi));
}

/// Whether two rectangles have an area in common.
pub open spec fn overlap(a: Rect, b: Rect) -> bool {
    a.left < b.right && a.right > b.left && a.top < b.bottom && a.bottom > b.top
}

/// Another fence window, as an opening fence sees it.
#[derive(Clone, Copy, PartialEq, Eq, Structural, Debug)]
pub struct Neighbor {
    pub rect: Rect,
    pub rolled_up: bool,
    pub peeking: bool,
    pub displaced: bool,
}

/// Whether a fence that opens to `expanded` pushes a neighbor away: the
/// neighbor is rolled up, at its own place, and would be covered.
pub open spec fn is_pushed(n: Neighbor, expanded: Rect) -> bool {
    n.rolled_up && !n.peeking && !n.displaced && overlap(n.rect, expanded)
}

/// Whether a neighbor stands above another, or level with it and before it in
/// the list.
pub open spec fn stands_before(all: Seq<Neighbor>, i: int, j: int) -> bool {
    all[i].rect.top < all[j].rect.top || (all[i].rect.top == all[j].rect.top && i < j)
}

/// The pushed neighbors, by their places in the list, from top to bottom.
pub open spec fn is_push_order(order: Seq<int>, all: Seq<Neighbor>, expanded: Rect) -> bool {
    &&& forall|k: int|
        #[trigger] order.contains(k) <==> 0 <= k < all.len() && is_pushed(all[k], expanded)
    &&& forall|a: int, b: int|
        0 <= a < b < order.len() ==> stands_before(all, #[trigger] order[a], #[trigger] order[b])
}

/// The top of the n-th pushed neighbor: they are stacked below the expanded
/// rectangle, a gap before each.
pub open spec fn pushed_top(order: Seq<int>, all: Seq<Neighbor>, expanded: Rect, n: int) -> int
    decreases n,
{
    if n <= 0 {
        expanded.bottom + SNAP_GAP
    } else {
        let above = all[order[n - 1]].rect;
        pushed_top(order, all, expanded, n - 1) + (above.bottom - above.top) + SNAP_GAP
    }
}

/// A neighbor, by its place in the list, and the top it is pushed to.
#[derive(Clone, Copy, PartialEq, Eq, Structural, Debug)]
pub struct Push {
    pub index: usize,
    pub top: i128,
}

pub open spec fn push_order(pushes: Seq<Push>) -> Seq<int> {
    Seq::new(pushes.len(), |i: int| pushes[i].index as int)
}

spec fn order_of(v: Seq<usize>) -> Seq<int> {
    Seq::new(v.len(), |i: int| v[i] as int)
}

/// Puts neighbor `i` into an order of neighbors that come before it in the
/// list.
fn insert_by_top(order: &mut Vec<usize>, all: &Vec<Neighbor>, i: usize)
    requires
        i < all@.len(),
        forall|k: int| 0 <= k < old(order)@.len() ==> (#[trigger] old(order)@[k]) < i,
        forall|a: int, b: int|
            0 <= a < b < old(order)@.len() ==> stands_before(
                all@,
                #[trigger] old(order)@[a] as int,
                #[trigger] old(order)@[b] as int,
            ),
    ensures
        final(order)@.len() == old(order)@.len() + 1,
        forall|k: int| 0 <= k < final(order)@.len() ==> (#[trigger] final(order)@[k]) <= i,
        forall|a: int, b: int|
            0 <= a < b < final(order)@.len() ==> stands_before(
                all@,
                #[trigger] final(order)@[a] as int,
                #[trigger] final(order)@[b] as int,
            ),
        forall|x: usize|
            #[trigger] final(order)@.contains(x) <==> (old(order)@.contains(x) || x == i),
{
    let ghost before = order@;
    let mut at: usize = order.len();
    while at > 0 && all[order[at - 1]].rect.top > all[i].rect.top
        invariant
            order@ == before,
            before == old(order)@,
            at <= order@.len(),
            i < all@.len(),
            forall|k: int| 0 <= k < before.len() ==> (#[trigger] before[k]) < i,
            forall|k: int|
                at <= k < before.len() ==> all@[(#[trigger] before[k]) as int].rect.top
                    > all@[i as int].rect.top,
        ensures
            at <= order@.len(),
            at > 0 ==> all@[before[at - 1] as int].rect.top <= all@[i as int].rect.top,
            forall|k: int|
                at <= k < before.len() ==> all@[(#[trigger] before[k]) as int].rect.top
                    > all@[i as int].rect.top,
        decreases at,
    {
        at = at - 1;
    }
    order.insert(at, i);
    proof {
        assert(order@ == before.insert(at as int, i));
        assert forall|a: int, b: int| 0 <= a < b < order@.len() implies stands_before(
            all@,
            #[trigger] order@[a] as int,
            #[trigger] order@[b] as int,
        ) by {
            let pa = if a < at {
                a
            } else {
                a - 1
            };
            let pb = if b < at {
                b
            } else {
                b - 1
            };
            if a != at && b != at {
                assert(order@[a] == before[pa]);
                assert(order@[b] == before[pb]);
                assert(stands_before(all@, before[pa] as int, before[pb] as int));
            } else if a == at {
                assert(order@[b] == before[pb]);
            } else {
                assert(order@[a] == before[a]);
                if a < at - 1 {
                    assert(stands_before(all@, before[a] as int, before[at - 1] as int));
                }
            }
        }
        assert forall|x: usize| #[trigger] order@.contains(x) <==> (before.contains(x)
            || x == i) by {
            if before.contains(x) {
                let k = choose|k: int| 0 <= k < before.len() && before[k] == x;
                assert(order@[if k < at {
                    k
                } else {
                    k + 1
                }] == x);
            }
            if x == i {
                assert(order@[at as int] == x);
            }
            if order@.contains(x) && x != i {
                let k = choose|k: int| 0 <= k < order@.len() && order@[k] == x;
                assert(before[if k < at {
                    k
                } else {
                    k - 1
                }] == x);
            }
        }
    }
}

/// Where the rolled-up fences go that a fence opening to `expanded` would
/// cover: stacked below it in their vertical order.
pub fn displace_rolled_under(expanded: Rect, all: &Vec<Neighbor>) -> (r: Vec<Push>)
    ensures
        is_push_order(push_order(r@), all@, expanded),
        forall|n: int|
            0 <= n < r@.len() ==> (#[trigger] r@[n]).top == pushed_top(
                push_order(r@),
                all@,
                expanded,
                n,
            ),
{
    let mut order: Vec<usize> = Vec::new();
    let mut i: usize = 0;
    while i < all.len()
        invariant
            i <= all@.len(),
            order@.len() <= i,
            forall|k: int| 0 <= k < order@.len() ==> (#[trigger] order@[k]) < i,
            forall|x: usize|
                #[trigger] order@.contains(x) <==> x < i && is_pushed(all@[x as int], expanded),
            forall|a: int, b: int|
                0 <= a < b < order@.len() ==> stands_before(
                    all@,
                    #[trigger] order@[a] as int,
                    #[trigger] order@[b] as int,
                ),
        decreases all@.len() - i,
    {
        let n = all[i];
        let covered = n.rect.left < expanded.right && n.rect.right > expanded.left && n.rect.top
            < expanded.bottom && n.rect.bottom > expanded.top;
        let ghost before = order@;
        if n.rolled_up && !n.peeking && !n.displaced && covered {
            insert_by_top(&mut order, all, i);
        }
        i = i + 1;
    }
    let mut out: Vec<Push> = Vec::new();
    let mut cursor: i128 = expanded.bottom as i128 + SNAP_GAP as i128;
    let ghost want = order_of(order@);
    let mut n: usize = 0;
    while n < order.len()
        invariant
            want == order_of(order@),
            n <= order@.len(),
            forall|k: int| 0 <= k < order@.len() ==> (#[trigger] order@[k]) < all@.len(),
            out@.len() == n,
            forall|k: int| 0 <= k < n ==> (#[trigger] out@[k]).index == order@[k],
            forall|k: int|
                0 <= k < n ==> (#[trigger] out@[k]).top == pushed_top(want, all@, expanded, k),
            cursor == pushed_top(want, all@, expanded, n as int),
            -0x1_0000_0000 * (n + 1) <= cursor <= 0x1_0000_0018 * (n + 1),
        decreases order@.len() - n,
    {
        let index = order[n];
        out.push(Push { index, top: cursor });
        let rc = all[index].rect;
        assert(want[n as int] == index);
        cursor = cursor + (rc.bottom as i128 - rc.top as i128) + SNAP_GAP as i128;
        n = n + 1;
    }
    proof {
        assert(push_order(out@) =~= want);
        assert forall|k: int| #[trigger] want.contains(k) <==> 0 <= k < all@.len() && is_pushed(
            all@[k],
            expanded,
        ) by {
            if want.contains(k) {
                let p = choose|p: int| 0 <= p < want.len() && want[p] == k;
                assert(order@.contains(order@[p]));
            }
            if 0 <= k < all@.len() && is_pushed(all@[k], expanded) {
                assert(order@.contains(k as usize));
                let p = choose|p: int| 0 <= p < order@.len() && order@[p] == k as usize;
                assert(want[p] == k);
            }
        }
        assert forall|a: int, b: int| 0 <= a < b < want.len() implies stands_before(
            all@,
            #[trigger] want[a],
            #[trigger] want[b],
        ) by {
            assert(stands_before(all@, order@[a] as int, order@[b] as int));
        }
    }
    out
}

/// Pushed fences end up below the expanded rectangle and clear of one another:
/// each starts a gap below the one before it.
pub proof fn law_pushed_fences_are_clear(
    order: Seq<int>,
    all: Seq<Neighbor>,
    expanded: Rect,
    a: int,
    b: int,
)
    requires
        0 <= a < b < order.len(),
        forall|k: int|
            0 <= k < order.len() ==> all[#[trigger] order[k]].rect.top <= all[order[k]].rect.bottom,
    ensures
        pushed_top(order, all, expanded, a) > expanded.bottom,
        pushed_top(order, all, expanded, b) >= pushed_top(order, all, expanded, a) + (
        all[order[a]].rect.bottom - all[order[a]].rect.top) + SNAP_GAP,
    decreases b,
{
    lemma_pushed_below(order, all, expanded, a);
    if a < b - 1 {
        law_pushed_fences_are_clear(order, all, expanded, a, b - 1);
        assert(all[order[b - 1]].rect.top <= all[order[b - 1]].rect.bottom);
    }
}

proof fn lemma_pushed_below(order: Seq<int>, all: Seq<Neighbor>, expanded: Rect, n: int)
    requires
        0 <= n < order.len(),
        forall|k: int|
            0 <= k < order.len() ==> all[#[trigger] order[k]].rect.top <= all[order[k]].rect.bottom,
    ensures
        pushed_top(order, all, expanded, n) >= expanded.bottom + SNAP_GAP,
    decreases n,
{
    if n > 0 {
        lemma_pushed_below(order, all, expanded, n - 1);
        assert(all[order[n - 1]].rect.top <= all[order[n - 1]].rect.bottom);
    }
}

/// Whether a point lies in a rectangle; the right and bottom edges do not
/// belong to it.
pub open spec fn holds_point(pt: Point) -> spec_fn(Rect) -> bool {
    |r: Rect| r.left <= pt.x && pt.x < r.right && r.top <= pt.y && pt.y < r.bottom
}

/// The first window, in the order given, that lies under a point.
pub fn fence_at_point(windows: &Vec<Rect>, pt: Point) -> (r: Option<usize>)
    ensures
        match r {
            Some(i) => first_index(windows@, holds_point(pt)) == Some(i as int) && i
                < windows@.len(),
            None => first_index(windows@, holds_point(pt)) is None,
        },
{
    let ghost p = holds_point(pt);
    let mut i: usize = 0;
    while i < windows.len()
        invariant
            p == holds_point(pt),
            i <= windows@.len(),
            forall|j: int| 0 <= j < i ==> !p(#[trigger] windows@[j]),
        decreases windows@.len() - i,
    {
        let w = windows[i];
        if pt.x >= w.left && pt.x < w.right && pt.y >= w.top && pt.y < w.bottom {
            proof {
                lemma_is_first(windows@, p, i as int);
            }
            return Some(i);
        }
        i = i + 1;
    }
    proof {
        lemma_is_nowhere(windows@, p);
    }
    None
}

/// The place of a monitor in a list of monitors; 0 if it is not in it.
pub open spec fn monitor_place(monitors: Seq<i64>, target: i64) -> int {
    match monitors.index_of_first(target) {
        Some(i) => i,
        None => 0,
    }
}

/// The place of a monitor in the list of monitors.
pub fn monitor_index(monitors: &Vec<i64>, target: i64) -> (r: usize)
    ensures
        r == monitor_place(monitors@, target),
{
    let mut i: usize = 0;
    while i < monitors.len()
        invariant
            i <= monitors@.len(),
            forall|j: int| 0 <= j < i ==> monitors@[j] != target,
        decreases monitors@.len() - i,
    {
        if monitors[i] == target {
            proof {
                monitors@.index_of_first_ensures(target);
            }
            return i;
        }
        i = i + 1;
    }
    proof {
        monitors@.index_of_first_ensures(target);
    }
    0
}

/// Which part of a fence window a point belongs to.
#[derive(Clone, Copy, PartialEq, Eq, Structural, Debug)]
pub enum Hit {
    Client,
    Left,
    Right,
    Top,
    Bottom,
    TopLeft,
    TopRight,
    BottomLeft,
    BottomRight,
}

/// How wide the border is that resizes a fence.
pub const RESIZE_BAND: i32 = 8;

/// The part of a window at a point: a band along each edge resizes, the
/// corners where two bands meet resize both ways, and the rest is client area.
pub open spec fn hit_of(rc: Rect, x: int, y: int) -> Hit {
    let left = x < rc.left + RESIZE_BAND;
    let right = x >= rc.right - RESIZE_BAND;
    let top = y < rc.top + RESIZE_BAND;
    let bottom = y >= rc.bottom - RESIZE_BAND;
    if left && top {
        Hit::TopLeft
    } else if right && top {
        Hit::TopRight
    } else if left && bottom {
        Hit::BottomLeft
    } else if right && bottom {
        Hit::BottomRight
    } else if left {
        Hit::Left
    } else if right {
        Hit::Right
    } else if top {
        Hit::Top
    } else if bottom {
        Hit::Bottom
    } else {
        Hit::Client
    }
}

/// Which part of a fence window at `rc` a screen point belongs to.
pub fn hit_test(rc: Rect, pt: Point) -> (r: Hit)
    ensures
        r == hit_of(rc, pt.x as int, pt.y as int),
{
    let band = RESIZE_BAND as i64;
    let left = (pt.x as i64) < rc.left as i64 + band;
    let right = pt.x as i64 >= rc.right as i64 - band;
    let top = (pt.y as i64) < rc.top as i64 + band;
    let bottom = pt.y as i64 >= rc.bottom as i64 - band;
    match (left, right, top, bottom) {
        (true, _, true, _) => Hit::TopLeft,
        (_, true, true, _) => Hit::TopRight,
        (true, _, _, true) => Hit::BottomLeft,
        (_, true, _, true) => Hit::BottomRight,
        (true, _, _, _) => Hit::Left,
        (_, true, _, _) => Hit::Right,
        (_, _, true, _) => Hit::Top,
        (_, _, _, true) => Hit::Bottom,
        _ => Hit::Client,
    }
}

/// Half of a number, rounded towards zero.
pub open spec fn half(v: int) -> int {
    if v >= 0 {
        v / 2
    } else {
        -((-v) / 2)
    }
}

fn half_of(v: i64) -> (r: i64)
    requires
        v > i64::MIN,
    ensures
        r == half(v as int),
{
    if v >= 0 {
        v / 2
    } else {
        -((-v) / 2)
    }
}

/// A length at 96 dots per inch, scaled to `dpi`.
pub open spec fn scaled(v: int, dpi: int) -> int {
    v * dpi / 96
}

/// Scales a length to a resolution.
pub fn scale(v: u32, dpi: u32) -> (r: u64)
    ensures
        r == scaled(v as int, dpi as int),
{
    assert(v * dpi <= 0xffff_ffff * 0xffff_ffff) by (nonlinear_arith)
        requires
            v <= 0xffff_ffff,
            dpi <= 0xffff_ffff,
    ;
    v as u64 * dpi as u64 / 96
}

/// Where something `len` long starts if it is centered between `low` and
/// `high`.
pub open spec fn centered(low: int, high: int, len: int) -> int {
    half(low + high) - half(len)
}

/// Where a dialog of the given size opens, centered on a rectangle.
pub fn centered_on(rc: Rect, w: i32, h: i32) -> (r: Point)
    requires
        fits(centered(rc.left as int, rc.right as int, w as int)),
        fits(centered(rc.top as int, rc.bottom as int, h as int)),
    ensures
        r.x == centered(rc.left as int, rc.right as int, w as int),
        r.y == centered(rc.top as int, rc.bottom as int, h as int),
{
    let x = half_of(rc.left as i64 + rc.right as i64) - half_of(w as i64);
    let y = half_of(rc.top as i64 + rc.bottom as i64) - half_of(h as i64);
    Point { x: x as i32, y: y as i32 }
}

/// `v`, moved into the range from `low` to `high - len`, or to `low` if `len`
/// is more than the range holds.
pub open spec fn kept_within(v: int, low: int, high: int, len: int) -> int {
    let last = if high - len > low {
        high - len
    } else {
        low
    };
    if v < low {
        low
    } else if v > last {
        last
    } else {
        v
    }
}

fn keep_within(v: i64, low: i32, high: i32, len: i32) -> (r: i64)
    ensures
        r == kept_within(v as int, low as int, high as int, len as int),
{
    let low = low as i64;
    let last = if high as i64 - len as i64 > low {
        high as i64 - len as i64
    } else {
        low
    };
    if v < low {
        low
    } else if v > last {
        last
    } else {
        v
    }
}

/// Where the rename dialog opens: centered on its fence, but within the work
/// area of the monitor.
pub fn dialog_origin(fence: Rect, work: Rect, w: i32, h: i32) -> (r: Point)
    requires
        w >= 0,
        h >= 0,
    ensures
        r.x == kept_within(
            centered(fence.left as int, fence.right as int, w as int),
            work.left as int,
            work.right as int,
            w as int,
        ),
        r.y == kept_within(
            centered(fence.top as int, fence.bottom as int, h as int),
            work.top as int,
            work.bottom as int,
            h as int,
        ),
{
    let x = half_of(fence.left as i64 + fence.right as i64) - half_of(w as i64);
    let y = half_of(fence.top as i64 + fence.bottom as i64) - half_of(h as i64);
    let x = keep_within(x, work.left, work.right, w);
    let y = keep_within(y, work.top, work.bottom, h);
    Point { x: x as i32, y: y as i32 }
}

/// A dialog that fits into the work area opens inside it.
pub proof fn law_dialog_opens_inside(fence: Rect, work: Rect, w: int, h: int)
    requires
        0 <= w <= work.right - work.left,
        0 <= h <= work.bottom - work.top,
    ensures
        ({
            let x = kept_within(
                centered(fence.left as int, fence.right as int, w),
                work.left as int,
                work.right as int,
                w,
            );
            let y = kept_within(
                centered(fence.top as int, fence.bottom as int, h),
                work.top as int,
                work.bottom as int,
                h,
            );
            work.left <= x && x + w <= work.right && work.top <= y && y + h <= work.bottom
        }),
{
}

/// The rectangle that a drag from `a` to `b` spans.
pub open spec fn spanned(a: Point, b: Point) -> Rect {
    Rect {
        left: if a.x < b.x {
            a.x
        } else {
            b.x
        },
        top: if a.y < b.y {
            a.y
        } else {
            b.y
        },
        right: if a.x < b.x {
            b.x
        } else {
            a.x
        },
        bottom: if a.y < b.y {
            b.y
        } else {
            a.y
        },
    }
}

/// The rectangle that a rubber band spans, whichever way it was drawn.
pub fn band_rect(a: Point, b: Point) -> (r: Rect)
    ensures
        r == spanned(a, b),
{
    Rect {
        left: if a.x < b.x {
            a.x
        } else {
            b.x
        },
        top: if a.y < b.y {
            a.y
        } else {
            b.y
        },
        right: if a.x < b.x {
            b.x
        } else {
            a.x
        },
        bottom: if a.y < b.y {
            b.y
        } else {
            a.y
        },
    }
}

/// The height of a title bar in pixels: 28 at 96 dots per inch, rounded to the
/// nearest pixel, halves upwards.
pub open spec fn titlebar_height(dpi: u32) -> int {
    (28 * dpi as int * 2 + 96) / 192
}

/// The height of a title bar in pixels.
pub fn titlebar_height_px(dpi: u32) -> (r: i32)
    ensures
        r == titlebar_height(dpi),
{
    ((28u64 * dpi as u64 * 2 + 96) / 192) as i32
}

/// A distance is that from the lower number to the higher one.
pub proof fn law_distance(a: int, b: int)
    ensures
        distance(a, b) >= a - b,
        distance(a, b) >= b - a,
        distance(a, b) == a - b || distance(a, b) == b - a,
{
}

/// Of several candidates that are equally near, the first one is nearest.
pub proof fn law_first_of_equals_is_nearest(cands: Seq<int>, cur: int, reach: int) -> (k: int)
    ensures
        match nearest(cands, cur, reach) {
            Some(c) => {
                &&& 0 <= k < cands.len()
                &&& cands[k] == c
                &&& forall|i: int|
                    0 <= i < k ==> distance(#[trigger] cands[i], cur) > distance(c, cur)
            },
            None => true,
        },
    decreases cands.len(),
{
    if cands.len() == 0 {
        0
    } else {
        let t = cands.drop_last();
        let k = law_first_of_equals_is_nearest(t, cur, reach);
        law_nearest(t, cur, reach);
        if nearest(t, cur, reach) == nearest(cands, cur, reach) && nearest(t, cur, reach) is Some {
            assert forall|i: int| 0 <= i < k implies distance(#[trigger] cands[i], cur) > distance(
                nearest(cands, cur, reach)->0,
                cur,
            ) by {
                assert(t[i] == cands[i]);
            }
            k
        } else {
            assert forall|i: int| 0 <= i < cands.len() - 1 && nearest(cands, cur, reach)
                is Some implies distance(#[trigger] cands[i], cur) > distance(
                nearest(cands, cur, reach)->0,
                cur,
            ) by {
                assert(t[i] == cands[i]);
            }
            cands.len() - 1
        }
    }
}

/// The spots that a moved fence may snap to: for each other fence, in order,
/// a gap of 24 pixels behind it, the same gap before it, its low edge, and
/// the place where the high edges are aligned.
pub proof fn law_spots_of_a_moved_fence(others: Seq<Rect>, len: int)
    ensures
        move_xs(others, len).len() == 4 * others.len(),
        move_ys(others, len).len() == 4 * others.len(),
        forall|i: int|
            0 <= i < others.len() ==> {
                let o = #[trigger] others[i];
                &&& move_xs(others, len)[4 * i] - 24 == o.right
                &&& move_xs(others, len)[4 * i + 1] + len + 24 == o.left
                &&& move_xs(others, len)[4 * i + 2] == o.left
                &&& move_xs(others, len)[4 * i + 3] + len == o.right
                &&& move_ys(others, len)[4 * i] - 24 == o.bottom
                &&& move_ys(others, len)[4 * i + 1] + len + 24 == o.top
                &&& move_ys(others, len)[4 * i + 2] == o.top
                &&& move_ys(others, len)[4 * i + 3] + len == o.bottom
            },
    decreases others.len(),
{
    if others.len() > 0 {
        let t = others.drop_last();
        law_spots_of_a_moved_fence(t, len);
        let n = 4 * t.len() as int;
        let o = others.last();
        let xs = move_candidates(o.left as int, o.right as int, len);
        let ys = move_candidates(o.top as int, o.bottom as int, len);
        assert(xs.len() == 4 && ys.len() == 4);
        assert(move_xs(others, len) == move_xs(t, len) + xs);
        assert(move_ys(others, len) == move_ys(t, len) + ys);
        assert forall|i: int| 0 <= i < t.len() implies #[trigger] others[i] == t[i] by {}
        assert(move_xs(others, len)[n] == xs[0] && move_xs(others, len)[n + 1] == xs[1]);
        assert(move_xs(others, len)[n + 2] == xs[2] && move_xs(others, len)[n + 3] == xs[3]);
        assert(move_ys(others, len)[n] == ys[0] && move_ys(others, len)[n + 1] == ys[1]);
        assert(move_ys(others, len)[n + 2] == ys[2] && move_ys(others, len)[n + 3] == ys[3]);
    }
}

/// The spots that a dragged edge may snap to: for each other fence, in order,
/// its two edges, 24 pixels before it and 24 pixels behind it.
pub proof fn law_spots_of_a_dragged_edge(others: Seq<Rect>)
    ensures
        size_xs(others).len() == 4 * others.len(),
        size_ys(others).len() == 4 * others.len(),
        forall|i: int|
            0 <= i < others.len() ==> {
                let o = #[trigger] others[i];
                &&& size_xs(others)[4 * i] == o.left
                &&& size_xs(others)[4 * i + 1] == o.right
                &&& size_xs(others)[4 * i + 2] + 24 == o.left
                &&& size_xs(others)[4 * i + 3] - 24 == o.right
                &&& size_ys(others)[4 * i] == o.top
                &&& size_ys(others)[4 * i + 1] == o.bottom
                &&& size_ys(others)[4 * i + 2] + 24 == o.top
                &&& size_ys(others)[4 * i + 3] - 24 == o.bottom
            },
    decreases others.len(),
{
    if others.len() > 0 {
        let t = others.drop_last();
        law_spots_of_a_dragged_edge(t);
        let n = 4 * t.len() as int;
        let o = others.last();
        let xs = size_candidates(o.left as int, o.right as int);
        let ys = size_candidates(o.top as int, o.bottom as int);
        assert(xs.len() == 4 && ys.len() == 4);
        assert(size_xs(others) == size_xs(t) + xs);
        assert(size_ys(others) == size_ys(t) + ys);
        assert forall|i: int| 0 <= i < t.len() implies #[trigger] others[i] == t[i] by {}
        assert(size_xs(others)[n] == xs[0] && size_xs(others)[n + 1] == xs[1]);
        assert(size_xs(others)[n + 2] == xs[2] && size_xs(others)[n + 3] == xs[3]);
        assert(size_ys(others)[n] == ys[0] && size_ys(others)[n + 1] == ys[1]);
        assert(size_ys(others)[n + 2] == ys[2] && size_ys(others)[n + 3] == ys[3]);
    }
}

/// Whether something at `cur` comes to rest at `s`, given where it may snap
/// to and how far: at the first of the nearest spots within `reach`, or where
/// it is if there is none.
pub open spec fn rests(spots: Seq<int>, cur: int, s: int, reach: int) -> bool {
    ||| s == cur && forall|i: int|
        0 <= i < spots.len() ==> !(cur - reach <= #[trigger] spots[i] <= cur + reach)
    ||| exists|k: int|
        {
            &&& 0 <= k < spots.len()
            &&& s == #[trigger] spots[k]
            &&& cur - reach <= s <= cur + reach
            &&& forall|i: int|
                0 <= i < spots.len() ==> distance(s, cur) <= distance(#[trigger] spots[i], cur)
            &&& forall|i: int| 0 <= i < k ==> distance(s, cur) < distance(#[trigger] spots[i], cur)
        }
}

proof fn lemma_snapped_rests(spots: Seq<int>, cur: int, reach: int)
    ensures
        rests(spots, cur, snapped(spots, cur, reach), reach),
{
    law_nearest(spots, cur, reach);
    let k = law_first_of_equals_is_nearest(spots, cur, reach);
    let s = snapped(spots, cur, reach);
    if nearest(spots, cur, reach) is Some {
        assert(s == spots[k]);
    }
}

/// A fence that is resized, by the number of the edge that is dragged: 1 left,
/// 2 right, 3 top, 4 top and left, 5 top and right, 6 bottom, 7 bottom and
/// left, 8 bottom and right. A dragged edge comes to rest at the nearest spot
/// of its axis within a twelfth of the resolution; every other edge stays
/// where it is.
pub proof fn law_each_edge_by_its_number(
    rc: Rect,
    edge: usize,
    others: Seq<Rect>,
    dpi: u32,
    reach: int,
)
    requires
        12 * reach <= dpi < 12 * (reach + 1),
    ensures
        ({
            let s = snapped_size(rc, edge, others, dpi);
            let xs = size_xs(others);
            let ys = size_ys(others);
            &&& edge == 1 ==> rests(xs, rc.left as int, s.left, reach) && s.top == rc.top && s.right
                == rc.right && s.bottom == rc.bottom
            &&& edge == 2 ==> rests(xs, rc.right as int, s.right, reach) && s.left == rc.left
                && s.top == rc.top && s.bottom == rc.bottom
            &&& edge == 3 ==> rests(ys, rc.top as int, s.top, reach) && s.left == rc.left && s.right
                == rc.right && s.bottom == rc.bottom
            &&& edge == 4 ==> rests(ys, rc.top as int, s.top, reach) && rests(
                xs,
                rc.left as int,
                s.left,
                reach,
            ) && s.right == rc.right && s.bottom == rc.bottom
            &&& edge == 5 ==> rests(ys, rc.top as int, s.top, reach) && rests(
                xs,
                rc.right as int,
                s.right,
                reach,
            ) && s.left == rc.left && s.bottom == rc.bottom
            &&& edge == 6 ==> rests(ys, rc.bottom as int, s.bottom, reach) && s.left == rc.left
                && s.top == rc.top && s.right == rc.right
            &&& edge == 7 ==> rests(ys, rc.bottom as int, s.bottom, reach) && rests(
                xs,
                rc.left as int,
                s.left,
                reach,
            ) && s.top == rc.top && s.right == rc.right
            &&& edge == 8 ==> rests(ys, rc.bottom as int, s.bottom, reach) && rests(
                xs,
                rc.right as int,
                s.right,
                reach,
            ) && s.left == rc.left && s.top == rc.top
            &&& edge == 0 || edge > 8 ==> s.left == rc.left && s.top == rc.top && s.right
                == rc.right && s.bottom == rc.bottom
        }),
{
    let xs = size_xs(others);
    let ys = size_ys(others);
    assert(snap_reach(dpi) == reach);
    lemma_snapped_rests(xs, rc.left as int, reach);
    lemma_snapped_rests(xs, rc.right as int, reach);
    lemma_snapped_rests(ys, rc.top as int, reach);
    lemma_snapped_rests(ys, rc.bottom as int, reach);
}

/// A fence that is moved comes to rest, along each axis, at the nearest spot
/// within a twelfth of the resolution, and keeps its size.
pub proof fn law_moved_fence_comes_to_rest(rc: Rect, others: Seq<Rect>, dpi: u32, reach: int)
    requires
        12 * reach <= dpi < 12 * (reach + 1),
    ensures
        ({
            let s = snapped_move(rc, others, dpi);
            &&& rests(move_xs(others, rc.right - rc.left), rc.left as int, s.left, reach)
            &&& rests(move_ys(others, rc.bottom - rc.top), rc.top as int, s.top, reach)
            &&& s.right - s.left == rc.right - rc.left
            &&& s.bottom - s.top == rc.bottom - rc.top
        }),
{
    assert(snap_reach(dpi) == reach);
    lemma_snapped_rests(move_xs(others, rc.right - rc.left), rc.left as int, reach);
    lemma_snapped_rests(move_ys(others, rc.bottom - rc.top), rc.top as int, reach);
}

/// An opening fence pushes a neighbor away exactly if the neighbor is rolled
/// up, is not open for a peek, was not pushed already, and the two have some
/// point in common; one that is wholly to the left, to the right, above or
/// below is never pushed. A point of a rectangle is right of or on its left
/// edge and left of its right edge, and likewise from top to bottom.
pub proof fn law_only_covered_fences_are_pushed(n: Neighbor, expanded: Rect)
    ensures
        is_pushed(n, expanded) ==> n.rolled_up && !n.peeking && !n.displaced,
        n.rect.right <= expanded.left ==> !is_pushed(n, expanded),
        n.rect.left >= expanded.right ==> !is_pushed(n, expanded),
        n.rect.bottom <= expanded.top ==> !is_pushed(n, expanded),
        n.rect.top >= expanded.bottom ==> !is_pushed(n, expanded),
        n.rolled_up && !n.peeking && !n.displaced && !is_pushed(n, expanded) ==> n.rect.right
            <= expanded.left || n.rect.left >= expanded.right || n.rect.bottom <= expanded.top
            || n.rect.top >= expanded.bottom,
        forall|x: int, y: int|
            #![trigger in_both(n.rect, expanded, x, y)]
            n.rolled_up && !n.peeking && !n.displaced && in_both(n.rect, expanded, x, y)
                ==> is_pushed(n, expanded),
        is_pushed(n, expanded) && n.rect.left < n.rect.right && n.rect.top < n.rect.bottom
            && expanded.left < expanded.right && expanded.top < expanded.bottom ==> exists|
            x: int,
            y: int,
        | #[trigger]
            in_both(n.rect, expanded, x, y),
{
    if is_pushed(n, expanded) && n.rect.left < n.rect.right && n.rect.top < n.rect.bottom
        && expanded.left < expanded.right && expanded.top < expanded.bottom {
        let x = if n.rect.left < expanded.left {
            expanded.left as int
        } else {
            n.rect.left as int
        };
        let y = if n.rect.top < expanded.top {
            expanded.top as int
        } else {
            n.rect.top as int
        };
        assert(in_both(n.rect, expanded, x, y));
    }
}

/// Whether a point lies in both of two rectangles.
pub open spec fn in_both(a: Rect, b: Rect, x: int, y: int) -> bool {
    &&& a.left <= x < a.right && a.top <= y < a.bottom
    &&& b.left <= x < b.right && b.top <= y < b.bottom
}

/// The pushed neighbors are each pushed once, from top to bottom, those on
/// the same level in the order of the list.
pub proof fn law_push_order(order: Seq<int>, all: Seq<Neighbor>, expanded: Rect, a: int, b: int)
    requires
        is_push_order(order, all, expanded),
        0 <= a < b < order.len(),
    ensures
        0 <= order[a] < all.len() && 0 <= order[b] < all.len(),
        order[a] != order[b],
        all[order[a]].rect.top <= all[order[b]].rect.top,
        all[order[a]].rect.top == all[order[b]].rect.top ==> order[a] < order[b],
        forall|k: int|
            0 <= k < all.len() ==> (#[trigger] order.contains(k) <==> is_pushed(all[k], expanded)),
{
    assert(order.contains(order[a]) && order.contains(order[b]));
    assert(stands_before(all, order[a], order[b]));
}

/// Pushed neighbors are stacked: the first starts 24 pixels below the opening
/// fence, and each further one 24 pixels below the one before it.
pub proof fn law_pushed_fences_are_stacked(
    order: Seq<int>,
    all: Seq<Neighbor>,
    expanded: Rect,
    n: int,
)
    requires
        0 < n < order.len(),
    ensures
        pushed_top(order, all, expanded, 0) - expanded.bottom == 24,
        pushed_top(order, all, expanded, n) - (pushed_top(order, all, expanded, n - 1) + (
        all[order[n - 1]].rect.bottom - all[order[n - 1]].rect.top)) == 24,
{
    reveal_with_fuel(pushed_top, 2);
}

/// The window under a point is the first one, in the order given, that the
/// point is in: not left of it, not above it, and short of its right and
/// bottom edges.
pub proof fn law_window_under_a_point(windows: Seq<Rect>, pt: Point)
    ensures
        match first_index(windows, holds_point(pt)) {
            Some(i) => {
                &&& 0 <= i < windows.len()
                &&& in_both(windows[i], windows[i], pt.x as int, pt.y as int)
                &&& forall|j: int|
                    #![trigger windows[j]]
                    0 <= j < i ==> !in_both(windows[j], windows[j], pt.x as int, pt.y as int)
            },
            None => forall|j: int|
                #![trigger windows[j]]
                0 <= j < windows.len() ==> !in_both(
                    windows[j],
                    windows[j],
                    pt.x as int,
                    pt.y as int,
                ),
        },
{
    crate::list::lemma_first_index(windows, holds_point(pt));
    assert forall|j: int| 0 <= j < windows.len() implies holds_point(pt)(#[trigger] windows[j])
        == in_both(windows[j], windows[j], pt.x as int, pt.y as int) by {}
}

/// The place of a monitor is the first place where it is in the list, and the
/// first place of all if it is nowhere.
pub proof fn law_place_of_a_monitor(monitors: Seq<i64>, target: i64)
    ensures
        forall|i: int|
            0 <= i < monitor_place(monitors, target) ==> #[trigger] monitors[i] != target,
        monitors.contains(target) ==> 0 <= monitor_place(monitors, target) < monitors.len()
            && monitors[monitor_place(monitors, target)] == target,
        !monitors.contains(target) ==> monitor_place(monitors, target) == 0,
{
    monitors.index_of_first_ensures(target);
}

/// The band along each edge of a window is 8 pixels wide and resizes that
/// edge; where two bands meet both edges are resized, and a point in no band
/// resizes nothing. The window must be large enough for its bands.
pub proof fn law_bands_resize_their_edges(rc: Rect, x: int, y: int)
    requires
        rc.right - rc.left >= 16,
        rc.bottom - rc.top >= 16,
    ensures
        ({
            let h = hit_of(rc, x, y);
            &&& (h is Left || h is TopLeft || h is BottomLeft) == (x - rc.left < 8)
            &&& (h is Right || h is TopRight || h is BottomRight) == (rc.right - x <= 8)
            &&& (h is Top || h is TopLeft || h is TopRight) == (y - rc.top < 8)
            &&& (h is Bottom || h is BottomLeft || h is BottomRight) == (rc.bottom - y <= 8)
            &&& (h is Client) == (rc.left + 8 <= x < rc.right - 8 && rc.top + 8 <= y < rc.bottom - 8)
        }),
{
}

/// In a window that is too small for its bands the left one wins over the
/// right one, and the top one over the bottom one.
pub proof fn law_left_and_top_bands_win(rc: Rect, x: int, y: int)
    ensures
        ({
            let h = hit_of(rc, x, y);
            &&& x - rc.left < 8 && y - rc.top < 8 ==> h is TopLeft
            &&& x - rc.left < 8 && y - rc.top >= 8 && rc.bottom - y > 8 ==> h is Left
            &&& x - rc.left >= 8 && rc.right - x > 8 && y - rc.top < 8 ==> h is Top
            &&& x - rc.left >= 8 && rc.right - x <= 8 && y - rc.top < 8 ==> h is TopRight
            &&& x - rc.left < 8 && y - rc.top >= 8 && rc.bottom - y <= 8 ==> h is BottomLeft
            &&& x - rc.left >= 8 && rc.right - x <= 8 && y - rc.top >= 8 && rc.bottom - y > 8
                ==> h is Right
        }),
{
}

/// What is centered has the same margin on both sides, to within two pixels,
/// and an exact one where the numbers are even.
pub proof fn law_centered_has_equal_margins(low: int, high: int, len: int)
    ensures
        ({
            let before = centered(low, high, len) - low;
            let behind = high - (centered(low, high, len) + len);
            &&& -2 <= before - behind <= 2
            &&& (low + high) % 2 == 0 && len % 2 == 0 ==> before == behind
            &&& (low + high) % 2 == 0 && len % 2 != 0 && len > 0 ==> before == behind + 1
            &&& (low + high) % 2 != 0 && low + high > 0 && len % 2 == 0 ==> before == behind - 1
            &&& (low + high) % 2 != 0 && low + high < 0 && len % 2 == 0 ==> before == behind + 1
        }),
{
}

/// A scaled length is proportional to the resolution, rounded down, and is
/// itself at 96 dots per inch.
pub proof fn law_scaling(v: int, dpi: int)
    ensures
        96 * scaled(v, dpi) <= v * dpi < 96 * (scaled(v, dpi) + 1),
        scaled(v, 96) == v,
{
}

/// What is kept within a range lies in it, stays where it is if it lies in it
/// already, and else goes to the end that it is beyond.
pub proof fn law_kept_within(v: int, low: int, high: int, len: int)
    ensures
        low + len <= high ==> low <= kept_within(v, low, high, len) && kept_within(
            v,
            low,
            high,
            len,
        ) + len <= high,
        low <= v && v + len <= high ==> kept_within(v, low, high, len) == v,
        v < low ==> kept_within(v, low, high, len) == low,
        v >= low && v + len > high && low + len <= high ==> kept_within(v, low, high, len) + len
            == high,
        low + len > high ==> kept_within(v, low, high, len) == low,
{
}

/// The rectangle that a drag spans has both its ends as opposite corners,
/// whichever way the drag went.
pub proof fn law_spanned(a: Point, b: Point)
    ensures
        spanned(a, b) == spanned(b, a),
        ({
            let r = spanned(a, b);
            &&& r.left <= a.x <= r.right && r.left <= b.x <= r.right
            &&& r.top <= a.y <= r.bottom && r.top <= b.y <= r.bottom
            &&& (r.left == a.x && r.right == b.x) || (r.left == b.x && r.right == a.x)
            &&& (r.top == a.y && r.bottom == b.y) || (r.top == b.y && r.bottom == a.y)
        }),
{
}

/// The height of a title bar is 28 pixels at 96 dots per inch and within half
/// a pixel of that proportion at every resolution.
pub proof fn law_titlebar_height(dpi: u32)
    ensures
        28 * dpi - 48 < 96 * titlebar_height(dpi) <= 28 * dpi + 48,
{
}

/// A coordinate fits a screen where 32 bits hold it, and a rectangle where all
/// its edges do.
pub proof fn law_what_fits(v: int, r: IntRect)
    ensures
        fits(v) <==> -0x8000_0000 <= v < 0x8000_0000,
        rect_fits(r) <==> fits(r.left) && fits(r.top) && fits(r.right) && fits(r.bottom),
{
}

/// The order of the pushes names one neighbor for each push, in turn, and the
/// numbers of a list are those that it holds.
pub proof fn law_orders_and_lists(pushes: Seq<Push>, v: Seq<i64>, i: int)
    ensures
        push_order(pushes).len() == pushes.len(),
        0 <= i < pushes.len() ==> push_order(pushes)[i] == pushes[i].index,
        ints(v).len() == v.len(),
        0 <= i < v.len() ==> ints(v)[i] == v[i],
{
}

} // verus!
