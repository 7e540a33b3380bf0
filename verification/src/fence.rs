//! A fence window: what it remembers, and what each thing the user does to it
//! changes and asks for. The window procedure performs what is asked.

use vstd::prelude::*;
use crate::color::{color_of, parse_color};
use crate::config::{FenceConfig, FenceView, Real};
use crate::geometry::{distance, Point};
use crate::list::{contains, copy_of, position};
use crate::text::{same_text, texts};

verus! {

broadcast use crate::text::lemma_texts_push;

/// Items that are being dragged, or may be once the mouse has moved enough.
#[derive(Debug)]
pub struct DragState {
    pub paths: Vec<String>,
    /// Where the button went down, in client pixels.
    pub start: Point,
    pub active: bool,
}

#[verifier::ext_equal]
pub struct DragView {
    pub paths: Seq<Seq<char>>,
    pub start: Point,
    pub active: bool,
}

impl View for DragState {
    type V = DragView;

    open spec fn view(&self) -> DragView {
        DragView { paths: texts(self.paths@), start: self.start, active: self.active }
    }
}

pub open spec fn drag_view(d: Option<DragState>) -> Option<DragView> {
    match d {
        Some(d) => Some(d@),
        None => None,
    }
}

/// A rubber band, in client pixels.
#[derive(Clone, Copy, PartialEq, Eq, Structural, Debug)]
pub struct Band {
    pub start: Point,
    pub current: Point,
}

/// A fence that an opening fence has pushed away for a while.
#[derive(Debug)]
pub struct Displaced {
    /// Where it belongs.
    pub top: i32,
    /// The id of the fence that pushed it.
    pub by: String,
}

pub struct DisplacedView {
    pub top: i32,
    pub by: Seq<char>,
}

pub open spec fn displaced_view(d: Option<Displaced>) -> Option<DisplacedView> {
    match d {
        Some(d) => Some(DisplacedView { top: d.top, by: d.by@ }),
        None => None,
    }
}

/// The state of a fence window.
#[derive(Debug)]
pub struct FenceState {
    pub id: String,
    pub title: String,
    /// 0xRRGGBB
    pub color: u32,
    pub opacity: Real,
    pub corner_radius: Real,
    pub rolled_up: bool,
    pub restore_height: i32,
    pub drag: Option<DragState>,
    /// The item under the mouse.
    pub hover: Option<usize>,
    /// Whether the window is to be told when the mouse leaves it.
    pub tracking_mouse: bool,
    /// A rolled-up fence that is open while the mouse is over it.
    pub peeking: bool,
    /// Set when the mouse leaves, so that a fence that is rolled up under the
    /// mouse does not open again at once.
    pub peek_armed: bool,
    pub selected: Vec<String>,
    pub band: Option<Band>,
    pub scrollbar_visible: bool,
    pub displaced: Option<Displaced>,
}

#[verifier::ext_equal]
pub struct StateView {
    pub id: Seq<char>,
    pub title: Seq<char>,
    pub color: u32,
    pub opacity: Real,
    pub corner_radius: Real,
    pub rolled_up: bool,
    pub restore_height: i32,
    pub drag: Option<DragView>,
    pub hover: Option<usize>,
    pub tracking_mouse: bool,
    pub peeking: bool,
    pub peek_armed: bool,
    pub selected: Seq<Seq<char>>,
    pub band: Option<Band>,
    pub scrollbar_visible: bool,
    pub displaced: Option<DisplacedView>,
}

impl View for FenceState {
    type V = StateView;

    open spec fn view(&self) -> StateView {
        StateView {
            id: self.id@,
            title: self.title@,
            color: self.color,
            opacity: self.opacity,
            corner_radius: self.corner_radius,
            rolled_up: self.rolled_up,
            restore_height: self.restore_height,
            drag: drag_view(self.drag),
            hover: self.hover,
            tracking_mouse: self.tracking_mouse,
            peeking: self.peeking,
            peek_armed: self.peek_armed,
            selected: texts(self.selected@),
            band: self.band,
            scrollbar_visible: self.scrollbar_visible,
            displaced: displaced_view(self.displaced),
        }
    }
}

/// What is always so of a fence window: a drag carries something, and a fence
/// that peeks is rolled up.
pub open spec fn well_formed(s: StateView) -> bool {
    &&& s.drag matches Some(d) ==> d.paths.len() > 0
    &&& s.peeking ==> s.rolled_up
}

/// The state of a window that was just made for a fence.
pub open spec fn opened(f: FenceView) -> StateView {
    StateView {
        id: f.id,
        title: f.title,
        color: color_of(f.color),
        opacity: f.opacity,
        corner_radius: f.corner_radius,
        rolled_up: f.rolled_up,
        restore_height: f.h,
        drag: None,
        hover: None,
        tracking_mouse: false,
        peeking: false,
        peek_armed: true,
        selected: Seq::empty(),
        band: None,
        scrollbar_visible: false,
        displaced: None,
    }
}

/// What a press of the left button asks for.
#[derive(Clone, Copy, PartialEq, Eq, Structural, Debug)]
pub enum DownAction {
    Nothing,
    /// Roll the fence up or open it.
    ToggleRollup,
    /// Let the system move the window.
    BeginMove,
    Repaint,
    /// Capture the mouse for a drag of icons.
    BeginDrag { repaint: bool },
    /// Capture the mouse for a rubber band; clear the selections of all
    /// fences first if asked.
    BeginBand { clear_all: bool },
}

/// Where and how the left button went down.
#[derive(Clone, Copy, PartialEq, Eq, Structural, Debug)]
pub struct Press {
    pub at: Point,
    pub control: bool,
    /// The height of the title bar in pixels.
    pub titlebar: i32,
    /// The right edge of the client area in pixels.
    pub client_right: i32,
    pub dpi: u32,
}

/// Where the chevron of a rolled-up fence begins.
pub open spec fn chevron_left(press: Press) -> int {
    press.client_right - press.dpi as int * 26 / 96
}

/// A selection with one item added to it, or taken from it if it was in it.
pub open spec fn toggled(selected: Seq<Seq<char>>, item: Seq<char>) -> Seq<Seq<char>> {
    match selected.index_of_first(item) {
        Some(k) => selected.remove(k),
        None => selected.push(item),
    }
}

/// The item at a grid cell.
pub open spec fn item_at(items: Seq<Seq<char>>, cell: Option<usize>) -> Option<Seq<char>> {
    match cell {
        Some(i) => if i < items.len() {
            Some(items[i as int])
        } else {
            None
        },
        None => None,
    }
}

/// The state after a press of the left button.
pub open spec fn pressed(
    s: StateView,
    press: Press,
    cell: Option<usize>,
    items: Seq<Seq<char>>,
) -> StateView {
    if press.at.y < press.titlebar {
        if s.rolled_up && press.at.x >= chevron_left(press) {
            s
        } else {
            // Grabbing a fence that was pushed away adopts where it is.
            StateView { displaced: None, ..s }
        }
    } else if cell is Some {
        match item_at(items, cell) {
            Some(item) => if press.control {
                StateView { selected: toggled(s.selected, item), ..s }
            } else {
                // A press on an icon outside the selection selects it alone;
                // one inside keeps the group, so that the drag moves all.
                let selected = if s.selected.contains(item) {
                    s.selected
                } else {
                    seq![item]
                };
                StateView {
                    selected,
                    drag: Some(DragView { paths: selected, start: press.at, active: false }),
                    ..s
                }
            },
            None => s,
        }
    } else {
        StateView {
            selected: if press.control {
                s.selected
            } else {
                Seq::empty()
            },
            band: Some(Band { start: press.at, current: press.at }),
            ..s
        }
    }
}

/// What a press of the left button asks for.
pub open spec fn press_action(
    s: StateView,
    press: Press,
    cell: Option<usize>,
    items: Seq<Seq<char>>,
) -> DownAction {
    if press.at.y < press.titlebar {
        if s.rolled_up && press.at.x >= chevron_left(press) {
            DownAction::ToggleRollup
        } else {
            DownAction::BeginMove
        }
    } else if cell is Some {
        match item_at(items, cell) {
            Some(item) => if press.control {
                DownAction::Repaint
            } else {
                DownAction::BeginDrag { repaint: !s.selected.contains(item) }
            },
            None => DownAction::Nothing,
        }
    } else {
        DownAction::BeginBand { clear_all: !press.control }
    }
}

/// What a movement of the mouse asks for, in this order.
#[derive(Clone, Copy, PartialEq, Eq, Structural, Debug)]
pub struct MoveAction {
    /// Select what the rubber band touches; nothing else is to be done.
    pub band: bool,
    /// Make the ghost cursor for the first item of the drag.
    pub load_ghost: bool,
    /// Show the ghost cursor and where a drop would go.
    pub dragging: bool,
    /// Open to this height and push covered fences away.
    pub peek: Option<i32>,
    /// Ask to be told when the mouse leaves.
    pub track: bool,
}

/// Whether the mouse has moved more than the system's drag distance.
pub open spec fn moved_enough(start: Point, at: Point, cx: i32, cy: i32) -> bool {
    distance(at.x as int, start.x as int) > cx || distance(at.y as int, start.y as int) > cy
}

/// Whether a rolled-up fence opens under the mouse.
pub open spec fn peeks(s: StateView) -> bool {
    s.rolled_up && !s.peeking && s.peek_armed && s.drag is None
}

/// A drag after a movement of the mouse.
pub open spec fn dragged_to(d: DragView, at: Point, cx: i32, cy: i32) -> DragView {
    DragView { active: d.active || moved_enough(d.start, at, cx, cy), ..d }
}

/// The state after a movement of the mouse.
pub open spec fn moved(s: StateView, at: Point, cx: i32, cy: i32) -> StateView {
    match s.band {
        Some(b) => StateView { band: Some(Band { start: b.start, current: at }), ..s },
        None => StateView {
            drag: match s.drag {
                Some(d) => Some(dragged_to(d, at, cx, cy)),
                None => None,
            },
            peeking: s.peeking || peeks(s),
            peek_armed: s.peek_armed && !peeks(s),
            tracking_mouse: true,
            ..s
        },
    }
}

/// What a movement of the mouse asks for.
pub open spec fn move_action(s: StateView, at: Point, cx: i32, cy: i32) -> MoveAction {
    match s.band {
        Some(b) => MoveAction {
            band: true,
            load_ghost: false,
            dragging: false,
            peek: None,
            track: false,
        },
        None => MoveAction {
            band: false,
            load_ghost: s.drag matches Some(d) && !d.active && moved_enough(d.start, at, cx, cy),
            dragging: s.drag matches Some(d) && dragged_to(d, at, cx, cy).active,
            peek: if peeks(s) {
                Some(s.restore_height)
            } else {
                None
            },
            track: !s.tracking_mouse,
        },
    }
}

/// What the mouse leaving the window asks for.
#[derive(Clone, Copy, PartialEq, Eq, Structural, Debug)]
pub struct LeaveAction {
    /// Hide the tooltip and repaint.
    pub unhover: bool,
    /// Shrink to the title bar and let displaced fences return.
    pub collapse: bool,
}

/// What a release of the left button asks for.
#[derive(Debug)]
pub enum UpAction {
    Nothing,
    /// Release the capture and repaint.
    EndBand,
    /// Release the capture and clear the drop indicator.
    EndPress,
    /// As `EndPress`, then restore the cursor and drop these items.
    Drop { paths: Vec<String> },
}

pub enum UpView {
    Nothing,
    EndBand,
    EndPress,
    Drop { paths: Seq<Seq<char>> },
}

impl View for UpAction {
    type V = UpView;

    open spec fn view(&self) -> UpView {
        match self {
            UpAction::Nothing => UpView::Nothing,
            UpAction::EndBand => UpView::EndBand,
            UpAction::EndPress => UpView::EndPress,
            UpAction::Drop { paths } => UpView::Drop { paths: texts(paths@) },
        }
    }
}

/// What the loss of the mouse capture asks for.
#[derive(Clone, Copy, PartialEq, Eq, Structural, Debug)]
pub struct CaptureAction {
    /// Restore the cursor and clear the drop indicator.
    pub end_drag: bool,
    pub repaint: bool,
}

/// What rolling a fence up or opening it asks for.
#[derive(Clone, Copy, PartialEq, Eq, Structural, Debug)]
pub enum RollAction {
    /// Grow to this height and push covered fences away.
    Open { height: i32 },
    /// Shrink to this height and let displaced fences return.
    RollUp { height: i32 },
}

/// What a click other than a press of the left button asks for.
#[derive(Debug)]
pub enum ClickAction {
    Nothing,
    /// The title bar was clicked.
    TitleBar,
    /// An item was clicked.
    Item { path: String },
}

pub enum ClickView {
    Nothing,
    TitleBar,
    Item { path: Seq<char> },
}

impl View for ClickAction {
    type V = ClickView;

    open spec fn view(&self) -> ClickView {
        match self {
            ClickAction::Nothing => ClickView::Nothing,
            ClickAction::TitleBar => ClickView::TitleBar,
            ClickAction::Item { path } => ClickView::Item { path: path@ },
        }
    }
}

/// What was clicked at a height `y` of the window.
pub open spec fn clicked(
    y: i32,
    titlebar: i32,
    cell: Option<usize>,
    items: Seq<Seq<char>>,
) -> ClickView {
    if y < titlebar {
        ClickView::TitleBar
    } else {
        match item_at(items, cell) {
            Some(path) => ClickView::Item { path },
            None => ClickView::Nothing,
        }
    }
}

/// What was clicked: the title bar, or the item at a grid cell. A double click
/// rolls the fence up or launches the item; a right click opens the fence's
/// menu or the item's.
pub fn click_target(y: i32, titlebar: i32, cell: Option<usize>, items: &Vec<String>) -> (r:
    ClickAction)
    ensures
        r@ == clicked(y, titlebar, cell, texts(items@)),
{
    if y < titlebar {
        return ClickAction::TitleBar;
    }
    match cell {
        Some(i) => {
            if i < items.len() {
                ClickAction::Item { path: items[i].clone() }
            } else {
                ClickAction::Nothing
            }
        },
        None => ClickAction::Nothing,
    }
}

/// The items of `items` that the rubber band touches.
pub open spec fn touched_items(items: Seq<Seq<char>>, touched: Seq<bool>) -> Seq<Seq<char>>
    decreases items.len(),
{
    if items.len() == 0 {
        Seq::empty()
    } else {
        let n = items.len() - 1;
        let before = touched_items(items.drop_last(), touched);
        if n < touched.len() && touched[n] {
            before.push(items.last())
        } else {
            before
        }
    }
}

/// Whether icons can be under the mouse: not while dragging, and not on a
/// fence that shows only its title bar.
pub open spec fn can_hover(s: StateView) -> bool {
    !(s.drag matches Some(d) && d.active) && !(s.rolled_up && !s.peeking)
}

/// The state when the mouse is over a grid cell, or over none.
pub open spec fn hovering(s: StateView, cell: Option<usize>) -> StateView {
    StateView {
        hover: if can_hover(s) {
            cell
        } else {
            None
        },
        ..s
    }
}

/// The state after the mouse left the window.
pub open spec fn left(s: StateView) -> StateView {
    StateView { tracking_mouse: false, peek_armed: true, hover: None, peeking: false, ..s }
}

/// The state after a release of the left button.
pub open spec fn released(s: StateView) -> StateView {
    if s.band is Some {
        StateView { band: None, ..s }
    } else {
        StateView { drag: None, ..s }
    }
}

/// What a release of the left button asks for: a drag that has begun to move
/// drops what it carries.
pub open spec fn release_action(s: StateView) -> UpView {
    if s.band is Some {
        UpView::EndBand
    } else {
        match s.drag {
            Some(d) => if d.active {
                UpView::Drop { paths: d.paths }
            } else {
                UpView::EndPress
            },
            None => UpView::Nothing,
        }
    }
}

/// The state of a window of height `height` after it was rolled up or opened.
pub open spec fn rolled(s: StateView, height: i32) -> StateView {
    StateView {
        peeking: false,
        peek_armed: false,
        rolled_up: !s.rolled_up,
        restore_height: if s.rolled_up {
            s.restore_height
        } else {
            height
        },
        ..s
    }
}

/// What rolling up or opening asks for.
pub open spec fn roll_action(s: StateView, titlebar: i32) -> RollAction {
    if s.rolled_up {
        RollAction::Open { height: s.restore_height }
    } else {
        RollAction::RollUp { height: titlebar }
    }
}

/// Rolling an open fence up and opening it again gives it the height it had,
/// and leaves everything else but the peek as it was.
pub proof fn law_rollup_keeps_height(s: StateView, height: i32, titlebar: i32)
    requires
        !s.rolled_up,
        well_formed(s),
    ensures
        roll_action(s, titlebar) == (RollAction::RollUp { height: titlebar }),
        roll_action(rolled(s, height), titlebar) == (RollAction::Open { height }),
        rolled(rolled(s, height), titlebar) == (StateView {
            restore_height: height,
            peek_armed: false,
            ..s
        }),
{
}

/// A fence that was rolled up does not open under the mouse before the mouse
/// has left it once.
pub proof fn law_no_peek_before_leaving(s: StateView, height: i32, at: Point, cx: i32, cy: i32)
    requires
        !s.rolled_up,
        well_formed(s),
    ensures
        move_action(rolled(s, height), at, cx, cy).peek is None,
        s.drag is None && s.band is None ==> move_action(
            left(rolled(s, height)),
            at,
            cx,
            cy,
        ).peek == Some(height),
{
}

/// A press that is released before the mouse has moved enough drops nothing.
pub proof fn law_click_is_no_drag(
    s: StateView,
    press: Press,
    cell: Option<usize>,
    items: Seq<Seq<char>>,
    at: Point,
    cx: i32,
    cy: i32,
)
    requires
        s.drag is None,
        !moved_enough(press.at, at, cx, cy),
    ensures
        !(release_action(moved(pressed(s, press, cell, items), at, cx, cy)) is Drop),
{
}

/// A press on an icon of the selection, moved enough and released, drops the
/// whole selection.
pub proof fn law_drag_moves_selection(
    s: StateView,
    press: Press,
    cell: usize,
    items: Seq<Seq<char>>,
    at: Point,
    cx: i32,
    cy: i32,
)
    requires
        s.band is None,
        press.at.y >= press.titlebar,
        !press.control,
        cell < items.len(),
        s.selected.contains(items[cell as int]),
        moved_enough(press.at, at, cx, cy),
    ensures
        release_action(moved(pressed(s, press, Some(cell), items), at, cx, cy)) == (UpView::Drop {
            paths: s.selected,
        }),
{
}

/// A fence that the fence `by` has pushed away from `top`.
pub open spec fn pushed_away(s: StateView, top: i32, by: Seq<char>) -> StateView {
    StateView { displaced: Some(DisplacedView { top, by }), ..s }
}

/// A fence that returns if it was the fence `by` that pushed it away, and
/// where it returns to.
pub open spec fn returned(s: StateView, by: Seq<char>) -> (StateView, Option<i32>) {
    match s.displaced {
        Some(d) if d.by == by => (StateView { displaced: None, ..s }, Some(d.top)),
        _ => (s, None),
    }
}

/// A fence that was pushed away returns to where it stood when the fence that
/// pushed it is rolled up, and not when another one is.
pub proof fn law_pushed_fence_returns(s: StateView, top: i32, by: Seq<char>, other: Seq<char>)
    requires
        s.displaced is None,
    ensures
        returned(pushed_away(s, top, by), by) == (s, Some(top)),
        other != by ==> returned(pushed_away(s, top, by), other) == (
            pushed_away(s, top, by),
            None::<i32>,
        ),
{
}

/// Selecting with Ctrl held twice selects what was selected before, in
/// another order at most.
pub proof fn law_toggle_twice(selected: Seq<Seq<char>>, item: Seq<char>)
    requires
        selected.no_duplicates(),
    ensures
        toggled(toggled(selected, item), item).to_multiset() == selected.to_multiset(),
        !selected.contains(item) ==> toggled(toggled(selected, item), item) == selected,
        toggled(selected, item).contains(item) == !selected.contains(item),
{
    broadcast use vstd::seq_lib::group_to_multiset_ensures;

    selected.index_of_first_ensures(item);
    let once = toggled(selected, item);
    once.index_of_first_ensures(item);
    match selected.index_of_first(item) {
        Some(k) => {
            assert(!once.contains(item)) by {
                if once.contains(item) {
                    let j = choose|j: int| 0 <= j < once.len() && once[j] == item;
                    let i = if j < k {
                        j
                    } else {
                        j + 1
                    };
                    assert(selected[i] == item);
                }
            }
            assert(toggled(once, item) == once.push(item));
            assert(selected.to_multiset().remove(item).insert(item) =~= selected.to_multiset());
        },
        None => {
            assert(once.last() == item);
            assert(toggled(once, item) =~= selected);
        },
    }
}

impl FenceState {
    /// The state of a window that is made for a fence.
    pub fn new(cfg: &FenceConfig) -> (r: Self)
        ensures
            r@ == opened(cfg@),
            well_formed(r@),
    {
        let r = FenceState {
            id: cfg.id.clone(),
            title: cfg.title.clone(),
            color: parse_color(&cfg.color),
            opacity: cfg.opacity,
            corner_radius: cfg.corner_radius,
            rolled_up: cfg.rolled_up,
            restore_height: cfg.h,
            drag: None,
            hover: None,
            tracking_mouse: false,
            peeking: false,
            peek_armed: true,
            selected: Vec::new(),
            band: None,
            scrollbar_visible: false,
            displaced: None,
        };
        assert(texts(r.selected@) =~= Seq::<Seq<char>>::empty());
        r
    }

    /// The height that the window of a fence opens with: that of the title bar
    /// while the fence is rolled up.
    pub fn initial_height(&self, titlebar: i32) -> (r: i32)
        ensures
            r == if self@.rolled_up {
                titlebar
            } else {
                self@.restore_height
            },
    {
        if self.rolled_up {
            titlebar
        } else {
            self.restore_height
        }
    }

    /// The left button went down; `cell` is the grid cell under it, if any.
    pub fn left_button_down(
        &mut self,
        press: Press,
        cell: Option<usize>,
        items: &Vec<String>,
    ) -> (r: DownAction)
        requires
            well_formed(old(self)@),
        ensures
            final(self)@ == pressed(old(self)@, press, cell, texts(items@)),
            r == press_action(old(self)@, press, cell, texts(items@)),
            well_formed(final(self)@),
    {
        if press.at.y < press.titlebar {
            let zone: i64 = press.client_right as i64 - press.dpi as i64 * 26 / 96;
            if self.rolled_up && press.at.x as i64 >= zone {
                return DownAction::ToggleRollup;
            }
            self.displaced = None;
            return DownAction::BeginMove;
        }
        match cell {
            Some(i) => {
                if i >= items.len() {
                    return DownAction::Nothing;
                }
                let item = items[i].clone();
                assert(item@ == texts(items@)[i as int]);
                if press.control {
                    let ghost before = texts(self.selected@);
                    match position(&self.selected, &item) {
                        Some(k) => {
                            proof {
                                before.index_of_first_ensures(item@);
                            }
                            let _ = self.selected.remove(k);
                            assert(texts(self.selected@) =~= before.remove(k as int));
                        },
                        None => {
                            self.selected.push(item);
                        },
                    }
                    return DownAction::Repaint;
                }
                let repaint = !contains(&self.selected, &item);
                if repaint {
                    let mut only: Vec<String> = Vec::new();
                    only.push(item);
                    assert(texts(only@) =~= seq![item@]);
                    self.selected = only;
                }
                let paths = copy_of(&self.selected);
                self.drag = Some(DragState { paths, start: press.at, active: false });
                DownAction::BeginDrag { repaint }
            },
            None => {
                if !press.control {
                    self.selected = Vec::new();
                    assert(texts(self.selected@) =~= Seq::<Seq<char>>::empty());
                }
                self.band = Some(Band { start: press.at, current: press.at });
                DownAction::BeginBand { clear_all: !press.control }
            },
        }
    }

    /// The mouse moved; `cx` and `cy` are the system's drag distances.
    pub fn mouse_move(&mut self, at: Point, cx: i32, cy: i32) -> (r: MoveAction)
        requires
            well_formed(old(self)@),
        ensures
            final(self)@ == moved(old(self)@, at, cx, cy),
            r == move_action(old(self)@, at, cx, cy),
            well_formed(final(self)@),
            r.load_ghost ==> final(self)@.drag is Some,
    {
        if let Some(b) = self.band {
            self.band = Some(Band { start: b.start, current: at });
            return MoveAction {
                band: true,
                load_ghost: false,
                dragging: false,
                peek: None,
                track: false,
            };
        }
        let mut load_ghost = false;
        let mut dragging = false;
        let no_drag = self.drag.is_none();
        if let Some(mut d) = self.drag.take() {
            let dx = at.x as i64 - d.start.x as i64;
            let dy = at.y as i64 - d.start.y as i64;
            let far = dx > cx as i64 || -dx > cx as i64 || dy > cy as i64 || -dy > cy as i64;
            if !d.active && far {
                d.active = true;
                load_ghost = true;
            }
            dragging = d.active;
            self.drag = Some(d);
        }
        let peek = if self.rolled_up && !self.peeking && self.peek_armed && no_drag {
            self.peeking = true;
            self.peek_armed = false;
            Some(self.restore_height)
        } else {
            None
        };
        let track = !self.tracking_mouse;
        self.tracking_mouse = true;
        MoveAction { band: false, load_ghost, dragging, peek, track }
    }

    /// The mouse is over a grid cell, or over none. Tells whether that is
    /// new.
    pub fn update_hover(&mut self, cell: Option<usize>) -> (r: bool)
        requires
            well_formed(old(self)@),
        ensures
            final(self)@ == hovering(old(self)@, cell),
            r == (final(self)@.hover != old(self)@.hover),
            well_formed(final(self)@),
    {
        let dragging = match &self.drag {
            Some(d) => d.active,
            None => false,
        };
        let idx = if dragging || (self.rolled_up && !self.peeking) {
            None
        } else {
            cell
        };
        let same = match (self.hover, idx) {
            (Some(a), Some(b)) => a == b,
            (None, None) => true,
            _ => false,
        };
        self.hover = idx;
        !same
    }

    /// The mouse left the window.
    pub fn mouse_leave(&mut self) -> (r: LeaveAction)
        requires
            well_formed(old(self)@),
        ensures
            final(self)@ == left(old(self)@),
            r.unhover == old(self)@.hover is Some,
            r.collapse == old(self)@.peeking,
            well_formed(final(self)@),
    {
        let r = LeaveAction { unhover: self.hover.is_some(), collapse: self.peeking };
        self.tracking_mouse = false;
        self.peek_armed = true;
        self.hover = None;
        self.peeking = false;
        r
    }

    /// The left button was released.
    pub fn left_button_up(&mut self) -> (r: UpAction)
        requires
            well_formed(old(self)@),
        ensures
            final(self)@ == released(old(self)@),
            r@ == release_action(old(self)@),
            well_formed(final(self)@),
    {
        if self.band.is_some() {
            self.band = None;
            return UpAction::EndBand;
        }
        match self.drag.take() {
            Some(d) => if d.active {
                UpAction::Drop { paths: d.paths }
            } else {
                UpAction::EndPress
            },
            None => UpAction::Nothing,
        }
    }

    /// The mouse capture went elsewhere: a drag or a rubber band ends.
    pub fn capture_changed(&mut self) -> (r: CaptureAction)
        requires
            well_formed(old(self)@),
        ensures
            final(self)@ == (StateView { drag: None, band: None, ..old(self)@ }),
            r.end_drag == old(self)@.drag is Some,
            r.repaint == old(self)@.band is Some,
            well_formed(final(self)@),
    {
        let r = CaptureAction { end_drag: self.drag.is_some(), repaint: self.band.is_some() };
        self.drag = None;
        self.band = None;
        r
    }

    /// Rolls the fence up or opens it. `height` is the window's height and
    /// `titlebar` that of its title bar.
    pub fn toggle_rollup(&mut self, height: i32, titlebar: i32) -> (r: RollAction)
        requires
            well_formed(old(self)@),
        ensures
            final(self)@ == rolled(old(self)@, height),
            r == roll_action(old(self)@, titlebar),
            well_formed(final(self)@),
    {
        self.peeking = false;
        // Not right back open under the mouse that just rolled the fence up.
        self.peek_armed = false;
        if self.rolled_up {
            self.rolled_up = false;
            RollAction::Open { height: self.restore_height }
        } else {
            self.rolled_up = true;
            self.restore_height = height;
            RollAction::RollUp { height: titlebar }
        }
    }

    /// Whether the mouse wheel scrolls the grid.
    pub fn can_scroll(&self) -> (r: bool)
        ensures
            r == (!self@.rolled_up || self@.peeking),
    {
        !self.rolled_up || self.peeking
    }

    /// The grid was scrolled: its scrollbar shows.
    pub fn scrolled(&mut self)
        requires
            well_formed(old(self)@),
        ensures
            final(self)@ == (StateView { scrollbar_visible: true, ..old(self)@ }),
            well_formed(final(self)@),
    {
        self.scrollbar_visible = true;
    }

    /// The time of the scrollbar is over. Tells whether it was showing.
    pub fn scrollbar_timeout(&mut self) -> (r: bool)
        requires
            well_formed(old(self)@),
        ensures
            final(self)@ == (StateView { scrollbar_visible: false, ..old(self)@ }),
            r == old(self)@.scrollbar_visible,
            well_formed(final(self)@),
    {
        let shown = self.scrollbar_visible;
        self.scrollbar_visible = false;
        shown
    }

    /// Selects nothing. Tells whether something was selected.
    pub fn clear_selection(&mut self) -> (r: bool)
        requires
            well_formed(old(self)@),
        ensures
            final(self)@ == (StateView { selected: Seq::empty(), ..old(self)@ }),
            r == (old(self)@.selected.len() > 0),
            well_formed(final(self)@),
    {
        let some = self.selected.len() > 0;
        self.selected = Vec::new();
        assert(texts(self.selected@) =~= Seq::<Seq<char>>::empty());
        some
    }

    /// Selects the items whose cells the rubber band touches.
    pub fn select_touched(&mut self, items: &Vec<String>, touched: &Vec<bool>)
        requires
            well_formed(old(self)@),
        ensures
            final(self)@ == (StateView {
                selected: touched_items(texts(items@), touched@),
                ..old(self)@
            }),
            well_formed(final(self)@),
    {
        let ghost all = texts(items@);
        let mut selected: Vec<String> = Vec::new();
        let mut i: usize = 0;
        assert(texts(selected@) =~= touched_items(all.take(0), touched@));
        while i < items.len()
            invariant
                all == texts(items@),
                i <= items@.len(),
                texts(selected@) == touched_items(all.take(i as int), touched@),
            decreases items@.len() - i,
        {
            proof {
                assert(all.take(i + 1).drop_last() =~= all.take(i as int));
                assert(all.take(i + 1).last() == items@[i as int]@);
            }
            if i < touched.len() && touched[i] {
                selected.push(items[i].clone());
            }
            i = i + 1;
        }
        assert(all.take(all.len() as int) =~= all);
        self.selected = selected;
    }

    /// The fence was pushed away from `top` by the fence `by`.
    pub fn displace(&mut self, top: i32, by: &str)
        requires
            well_formed(old(self)@),
        ensures
            final(self)@ == pushed_away(old(self)@, top, by@),
            well_formed(final(self)@),
    {
        self.displaced = Some(Displaced { top, by: by.to_owned() });
    }

    /// Where the fence returns to if it was the fence `by` that pushed it
    /// away.
    pub fn restore_displaced_by(&mut self, by: &str) -> (r: Option<i32>)
        requires
            well_formed(old(self)@),
        ensures
            (final(self)@, r) == returned(old(self)@, by@),
            well_formed(final(self)@),
    {
        let top = match &self.displaced {
            Some(d) => if same_text(&d.by, by) {
                Some(d.top)
            } else {
                None
            },
            None => None,
        };
        if top.is_some() {
            self.displaced = None;
        }
        top
    }

    /// Takes over a new title.
    pub fn set_title(&mut self, title: &str)
        requires
            well_formed(old(self)@),
        ensures
            final(self)@ == (StateView { title: title@, ..old(self)@ }),
            well_formed(final(self)@),
    {
        self.title = title.to_owned();
    }

    /// Takes over a new color.
    pub fn set_color(&mut self, hex: u32)
        requires
            well_formed(old(self)@),
        ensures
            final(self)@ == (StateView { color: hex, ..old(self)@ }),
            well_formed(final(self)@),
    {
        self.color = hex;
    }

    /// Takes over a new opacity.
    pub fn set_opacity(&mut self, opacity: Real)
        requires
            well_formed(old(self)@),
        ensures
            final(self)@ == (StateView { opacity, ..old(self)@ }),
            well_formed(final(self)@),
    {
        self.opacity = opacity;
    }

    /// Takes over a new corner radius.
    pub fn set_radius(&mut self, corner_radius: Real)
        requires
            well_formed(old(self)@),
        ensures
            final(self)@ == (StateView { corner_radius, ..old(self)@ }),
            well_formed(final(self)@),
    {
        self.corner_radius = corner_radius;
    }

    /// The mark at the right end of the title bar of a rolled-up fence: a
    /// triangle that points down while the fence peeks, and right otherwise.
    pub fn chevron(&self) -> (r: Option<char>)
        ensures
            r == if self@.rolled_up {
                Some(if self@.peeking { '\u{25BE}' } else { '\u{25B8}' })
            } else {
                None
            },
    {
        if self.rolled_up {
            Some(if self.peeking { '\u{25BE}' } else { '\u{25B8}' })
        } else {
            None
        }
    }

    /// The grid cells of the selected items.
    pub fn selected_indices(&self, items: &Vec<String>) -> (r: Vec<usize>)
        ensures
            forall|k: int| 0 <= k < r@.len() ==> (#[trigger] r@[k]) < items@.len(),
            forall|j: int, k: int| 0 <= j < k < r@.len() ==> #[trigger] r@[j] < #[trigger] r@[k],
            forall|i: usize|
                i < items@.len() ==> r@.contains(i) == self@.selected.contains(
                    #[trigger] texts(items@)[i as int],
                ),
    {
        let mut out: Vec<usize> = Vec::new();
        let mut i: usize = 0;
        while i < items.len()
            invariant
                i <= items@.len(),
                forall|k: int| 0 <= k < out@.len() ==> (#[trigger] out@[k]) < i,
                forall|j: int, k: int|
                    0 <= j < k < out@.len() ==> #[trigger] out@[j] < #[trigger] out@[k],
                forall|n: usize|
                    n < i ==> out@.contains(n) == self@.selected.contains(
                        #[trigger] texts(items@)[n as int],
                    ),
            decreases items@.len() - i,
        {
            let ghost before = out@;
            let chosen = contains(&self.selected, &items[i]);
            assert(!before.contains(i));
            if chosen {
                out.push(i);
                assert(out@[out@.len() - 1] == i);
            }
            assert forall|n: usize| n < i + 1 implies out@.contains(n) == self@.selected.contains(
                #[trigger] texts(items@)[n as int],
            ) by {
                if n < i && before.contains(n) {
                    let k = choose|k: int| 0 <= k < before.len() && before[k] == n;
                    assert(out@[k] == n);
                }
            }
            i = i + 1;
        }
        out
    }
}

/// A window that was just made shows its fence as the layout has it, and is at
/// rest: nothing is dragged, selected or under the mouse, it is at its own
/// place, and it may open under the mouse.
pub proof fn law_new_window(f: FenceView)
    ensures
        ({
            let s = opened(f);
            &&& s.id == f.id && s.title == f.title && s.rolled_up == f.rolled_up
            &&& s.restore_height == f.h && s.opacity == f.opacity && s.corner_radius
                == f.corner_radius
            &&& s.color == color_of(f.color)
            &&& s.drag is None && s.band is None && s.hover is None && s.displaced is None
            &&& s.selected.len() == 0
            &&& !s.peeking && s.peek_armed && !s.tracking_mouse && !s.scrollbar_visible
        }),
{
}

/// A press on the title bar of a rolled-up fence asks to open it where it is
/// within 26 pixels, at 96 dots per inch, of the right end, and changes nothing
/// yet. Anywhere else on a title bar it begins to move the window, which from
/// then on belongs where it is.
pub proof fn law_press_on_the_title_bar(
    s: StateView,
    press: Press,
    cell: Option<usize>,
    items: Seq<Seq<char>>,
    zone: int,
)
    requires
        press.at.y < press.titlebar,
        96 * zone <= 26 * press.dpi < 96 * (zone + 1),
    ensures
        s.rolled_up && press.at.x + zone >= press.client_right ==> press_action(
            s,
            press,
            cell,
            items,
        ) is ToggleRollup && pressed(s, press, cell, items) == s,
        !s.rolled_up || press.at.x + zone < press.client_right ==> press_action(
            s,
            press,
            cell,
            items,
        ) is BeginMove && pressed(s, press, cell, items).displaced is None && s == (StateView {
            displaced: s.displaced,
            ..pressed(s, press, cell, items)
        }),
{
}

/// A press on an icon selects it, alone unless it was selected already, and
/// gets ready to drag what is selected from where the button went down.
/// Nothing else changes.
pub proof fn law_press_on_an_icon(s: StateView, press: Press, k: usize, items: Seq<Seq<char>>)
    requires
        press.at.y >= press.titlebar,
        !press.control,
        k < items.len(),
    ensures
        ({
            let e = pressed(s, press, Some(k), items);
            let item = items[k as int];
            &&& e.drag matches Some(d) && d.paths == e.selected && d.start == press.at && !d.active
            &&& e.selected.contains(item)
            &&& s.selected.contains(item) ==> e.selected == s.selected
            &&& !s.selected.contains(item) ==> e.selected.len() == 1 && e.selected[0] == item
            &&& press_action(s, press, Some(k), items) == (DownAction::BeginDrag {
                repaint: e.selected != s.selected,
            })
            &&& s == (StateView { drag: s.drag, selected: s.selected, ..e })
        }),
{
    let item = items[k as int];
    let e = pressed(s, press, Some(k), items);
    if !s.selected.contains(item) {
        assert(e.selected[0] == item);
    }
}

/// A press on an icon with Ctrl held adds the icon to the selection, at its
/// end, or takes it out of the selection, and leaves the others selected, in
/// their order. Nothing is dragged and nothing else changes.
pub proof fn law_control_press_on_an_icon(
    s: StateView,
    press: Press,
    k: usize,
    items: Seq<Seq<char>>,
    j: int,
)
    requires
        press.at.y >= press.titlebar,
        press.control,
        k < items.len(),
    ensures
        ({
            let e = pressed(s, press, Some(k), items);
            let item = items[k as int];
            &&& !s.selected.contains(item) ==> e.selected == s.selected + seq![item]
            &&& 0 <= j < s.selected.len() && s.selected[j] == item && !s.selected.take(j).contains(
                item,
            ) ==> e.selected == s.selected.take(j) + s.selected.skip(j + 1)
            &&& press_action(s, press, Some(k), items) is Repaint
            &&& s == (StateView { selected: s.selected, ..e })
        }),
{
    let item = items[k as int];
    let e = pressed(s, press, Some(k), items);
    s.selected.index_of_first_ensures(item);
    if !s.selected.contains(item) {
        assert(e.selected =~= s.selected + seq![item]);
    }
    if 0 <= j < s.selected.len() && s.selected[j] == item && !s.selected.take(j).contains(item) {
        assert(s.selected.contains(item));
        let n = s.selected.index_of_first(item)->0;
        if n < j {
            assert(s.selected.take(j)[n] == item);
        }
        assert(n == j);
        assert(s.selected.remove(j) =~= s.selected.take(j) + s.selected.skip(j + 1));
    }
}

/// A press beside the icons begins a rubber band where the button went down.
/// It clears the selection, and those of the other fences, unless Ctrl is
/// held. A press on a cell without an icon does nothing.
pub proof fn law_press_beside_the_icons(s: StateView, press: Press, k: usize, items: Seq<Seq<char>>)
    requires
        press.at.y >= press.titlebar,
    ensures
        ({
            let e = pressed(s, press, None, items);
            &&& e.band matches Some(b) && b.start == press.at && b.current == press.at
            &&& press.control ==> e.selected == s.selected
            &&& !press.control ==> e.selected.len() == 0
            &&& press_action(s, press, None, items) == (DownAction::BeginBand {
                clear_all: !press.control,
            })
            &&& s == (StateView { band: s.band, selected: s.selected, ..e })
        }),
        k >= items.len() ==> pressed(s, press, Some(k), items) == s && press_action(
            s,
            press,
            Some(k),
            items,
        ) is Nothing,
{
}

/// While a rubber band is drawn, the mouse moves its free end and does nothing
/// else.
pub proof fn law_moving_a_rubber_band(s: StateView, at: Point, cx: i32, cy: i32)
    requires
        s.band is Some,
    ensures
        ({
            let e = moved(s, at, cx, cy);
            let a = move_action(s, at, cx, cy);
            &&& e.band matches Some(b) && b.start == s.band->0.start && b.current == at
            &&& s == (StateView { band: s.band, ..e })
            &&& a.band && !a.load_ghost && !a.dragging && a.peek is None && !a.track
        }),
{
}

/// A drag begins once the mouse is further than `cx` to either side or `cy` up
/// or down from where the button went down, and goes on wherever it moves
/// then. Where it began and what it carries stay the same. The ghost is made
/// when it begins. Without a press nothing is dragged.
pub proof fn law_moving_a_drag(s: StateView, at: Point, cx: i32, cy: i32)
    requires
        s.band is None,
    ensures
        ({
            let e = moved(s, at, cx, cy);
            let a = move_action(s, at, cx, cy);
            &&& !a.band && e.band is None
            &&& s.drag is None ==> e.drag is None && !a.dragging && !a.load_ghost
            &&& s.drag matches Some(d) ==> {
                let far = at.x - d.start.x > cx || d.start.x - at.x > cx || at.y - d.start.y > cy
                    || d.start.y - at.y > cy;
                &&& e.drag matches Some(n) && n.paths == d.paths && n.start == d.start && n.active
                    == (d.active || far)
                &&& a.dragging == (d.active || far)
                &&& a.load_ghost == (!d.active && far)
            }
        }),
{
}

/// A rolled-up fence opens under the mouse, to the height it has when open,
/// if the mouse may open it, it is not open already and nothing is dragged;
/// then the mouse may not open it again before it has left. The window asks
/// once to be told when the mouse leaves. Nothing else changes.
pub proof fn law_peeking(s: StateView, at: Point, cx: i32, cy: i32)
    requires
        s.band is None,
    ensures
        ({
            let e = moved(s, at, cx, cy);
            let a = move_action(s, at, cx, cy);
            let opens = s.rolled_up && s.peek_armed && !s.peeking && s.drag is None;
            &&& opens ==> a.peek == Some(s.restore_height) && e.peeking && !e.peek_armed
            &&& !opens ==> a.peek is None && e.peeking == s.peeking && e.peek_armed == s.peek_armed
            &&& a.track == !s.tracking_mouse && e.tracking_mouse
            &&& s == (StateView {
                drag: s.drag,
                peeking: s.peeking,
                peek_armed: s.peek_armed,
                tracking_mouse: s.tracking_mouse,
                ..e
            })
        }),
{
}

/// The icon under the mouse is the one at its cell, but none while something
/// is dragged or the fence shows only its title bar. Nothing else changes.
pub proof fn law_hovering(s: StateView, cell: Option<usize>)
    ensures
        ({
            let e = hovering(s, cell);
            &&& (s.drag matches Some(d) && d.active) ==> e.hover is None
            &&& s.rolled_up && !s.peeking ==> e.hover is None
            &&& !(s.drag matches Some(d) && d.active) && (!s.rolled_up || s.peeking) ==> e.hover
                == cell
            &&& s == (StateView { hover: s.hover, ..e })
        }),
{
}

/// When the mouse has left, no icon is under it, a fence that peeked is closed
/// and the mouse may open it again; the window asks anew to be told. Nothing
/// else changes.
pub proof fn law_leaving(s: StateView)
    ensures
        ({
            let e = left(s);
            &&& e.hover is None && !e.peeking && e.peek_armed && !e.tracking_mouse
            &&& s == (StateView {
                hover: s.hover,
                peeking: s.peeking,
                peek_armed: s.peek_armed,
                tracking_mouse: s.tracking_mouse,
                ..e
            })
        }),
{
}

/// A release ends a rubber band, or else a drag; a drag that had begun drops
/// what it carries, and one that had not was a click. What is selected stays
/// selected, and nothing else changes.
pub proof fn law_releasing(s: StateView)
    ensures
        ({
            let e = released(s);
            let a = release_action(s);
            &&& s.band is Some ==> e.band is None && e.drag == s.drag && a is EndBand
            &&& s.band is None ==> e.band is None && e.drag is None
            &&& s.band is None && s.drag is None ==> a is Nothing
            &&& s.band is None ==> (s.drag matches Some(d) ==> (d.active ==> a == (UpView::Drop {
                paths: d.paths,
            })) && (!d.active ==> a is EndPress))
            &&& s == (StateView { band: s.band, drag: s.drag, ..e })
        }),
{
}

/// Rolling turns a rolled-up fence into an open one and an open one into a
/// rolled-up one. An open fence remembers its height and shrinks to its title
/// bar; a rolled-up one grows to the height that it remembers. Either way it
/// does not peek, and the mouse may not open it before it has left. Nothing
/// else changes.
pub proof fn law_rolling(s: StateView, height: i32, titlebar: i32)
    ensures
        ({
            let e = rolled(s, height);
            let a = roll_action(s, titlebar);
            &&& e.rolled_up != s.rolled_up
            &&& s.rolled_up ==> e.restore_height == s.restore_height && a == (RollAction::Open {
                height: s.restore_height,
            })
            &&& !s.rolled_up ==> e.restore_height == height && a == (RollAction::RollUp {
                height: titlebar,
            })
            &&& !e.peeking && !e.peek_armed
            &&& s == (StateView {
                rolled_up: s.rolled_up,
                restore_height: s.restore_height,
                peeking: s.peeking,
                peek_armed: s.peek_armed,
                ..e
            })
        }),
{
}

/// A click above the lower end of the title bar is on the title bar; one below
/// is on the icon of its cell, if there is one.
pub proof fn law_clicking(y: i32, titlebar: i32, k: usize, items: Seq<Seq<char>>)
    ensures
        y < titlebar ==> clicked(y, titlebar, Some(k), items) is TitleBar && clicked(
            y,
            titlebar,
            None,
            items,
        ) is TitleBar,
        y >= titlebar ==> clicked(y, titlebar, None, items) is Nothing,
        y >= titlebar && k < items.len() ==> clicked(y, titlebar, Some(k), items)
            == (ClickView::Item { path: items[k as int] }),
        y >= titlebar && k >= items.len() ==> clicked(y, titlebar, Some(k), items) is Nothing,
{
}

/// A rubber band selects the items whose cells it touches, in their order, and
/// no others.
pub proof fn law_touched_items(items: Seq<Seq<char>>, touched: Seq<bool>, item: Seq<char>)
    ensures
        touched_items(Seq::empty(), touched).len() == 0,
        items.len() < touched.len() && touched[items.len() as int] ==> touched_items(
            items.push(item),
            touched,
        ) == touched_items(items, touched).push(item),
        items.len() >= touched.len() || !touched[items.len() as int] ==> touched_items(
            items.push(item),
            touched,
        ) == touched_items(items, touched),
        touched_items(items, touched).contains(item) <==> exists|i: int|
            0 <= i < items.len() && i < touched.len() && touched[i] && #[trigger] items[i] == item,
    decreases items.len(),
{
    assert(items.push(item).drop_last() =~= items);
    if items.len() > 0 {
        let t = items.drop_last();
        let n = t.len() as int;
        law_touched_items(t, touched, item);
        let before = touched_items(t, touched);
        let after = touched_items(items, touched);
        if after.contains(item) {
            let k = choose|k: int| 0 <= k < after.len() && after[k] == item;
            if k < before.len() {
                assert(before[k] == item);
                let i = choose|i: int|
                    0 <= i < t.len() && i < touched.len() && touched[i] && #[trigger] t[i] == item;
                assert(items[i] == item);
            } else {
                assert(items[n] == item);
            }
        }
        if exists|i: int|
            0 <= i < items.len() && i < touched.len() && touched[i] && #[trigger] items[i]
                == item {
            let i = choose|i: int|
                0 <= i < items.len() && i < touched.len() && touched[i] && #[trigger] items[i]
                    == item;
            if i < n {
                assert(t[i] == item);
                assert(before.contains(item));
                let k = choose|k: int| 0 <= k < before.len() && before[k] == item;
                assert(after[k] == item);
            } else {
                assert(after[before.len() as int] == item);
            }
        }
    }
}

/// A fence that is pushed away remembers where it stood and who pushed it, and
/// changes in nothing else; one that was not pushed away does not return.
pub proof fn law_pushing_away(s: StateView, top: i32, by: Seq<char>)
    ensures
        pushed_away(s, top, by).displaced matches Some(d) && d.top == top && d.by == by,
        s == (StateView { displaced: s.displaced, ..pushed_away(s, top, by) }),
        s.displaced is None ==> returned(s, by) == (s, None::<i32>),
{
}

/// A window is well formed unless it drags nothing or peeks while it is open.
pub proof fn law_well_formed_windows(s: StateView)
    ensures
        !well_formed(s) <==> (s.drag is Some && s.drag->0.paths.len() == 0) || (s.peeking
            && !s.rolled_up),
{
}

} // verus!
