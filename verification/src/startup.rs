//! Starting up: the arguments, the first layout, fences that a monitor change
//! left off-screen, new fences, and what is registered with the system.

use vstd::prelude::*;
use crate::config::{
    has_free_number, next_id, next_id_for, plain_fence, rule_views, Config, ConfigView, FenceConfig,
    FenceView, LoadResult, default_config, fence_views,
};
use crate::geometry::{centered, centered_on, fits, Rect};
use crate::number::{decimal, push_numeral};
use crate::rules::{Rule, RuleKind, RuleView};
use crate::text::{
    ascii_lowered, ends_with, eq_ignore_ascii_case, has_suffix, same_but_ascii_case, same_text,
    texts, to_ascii_lowercase,
};

verus! {

broadcast use crate::text::lemma_texts_push;

/// Whether an argument asks for a new fence.
pub open spec fn is_new_fence_switch(arg: Seq<char>) -> bool {
    same_but_ascii_case(arg, "/shellnew"@)
}

/// Whether an argument names a placeholder file of a new fence.
pub open spec fn is_placeholder() -> spec_fn(Seq<char>) -> bool {
    |arg: Seq<char>| ends_with(ascii_lowered(arg), ".orbirusfence"@)
}

/// Whether the arguments ask for a new fence.
pub open spec fn asks_for_fence(args: Seq<Seq<char>>) -> bool {
    exists|i: int| 0 <= i < args.len() && is_new_fence_switch(#[trigger] args[i])
}

/// Whether the program was started to make a new fence.
pub fn asks_for_new_fence(args: &Vec<String>) -> (r: bool)
    ensures
        r == asks_for_fence(texts(args@)),
{
    let ghost all = texts(args@);
    let mut i: usize = 0;
    while i < args.len()
        invariant
            all == texts(args@),
            i <= args@.len(),
            forall|j: int| 0 <= j < i ==> !is_new_fence_switch(#[trigger] all[j]),
        decreases args@.len() - i,
    {
        if eq_ignore_ascii_case(&args[i], "/shellnew") {
            assert(is_new_fence_switch(all[i as int]));
            return true;
        }
        i = i + 1;
    }
    false
}

/// The placeholder files to clean up: none unless a new fence is asked for.
pub open spec fn placeholders_of(args: Seq<Seq<char>>) -> Seq<Seq<char>> {
    if asks_for_fence(args) {
        args.filter(is_placeholder())
    } else {
        Seq::empty()
    }
}

/// The placeholder files that were named for a new fence, to be removed where
/// they exist.
pub fn placeholders(args: &Vec<String>) -> (r: Vec<String>)
    ensures
        texts(r@) == placeholders_of(texts(args@)),
{
    let ghost all = texts(args@);
    let mut out: Vec<String> = Vec::new();
    assert(texts(out@) =~= Seq::<Seq<char>>::empty());
    if !asks_for_new_fence(args) {
        return out;
    }
    let mut i: usize = 0;
    proof {
        reveal(Seq::filter);
        assert(all.take(0).filter(is_placeholder()) =~= Seq::<Seq<char>>::empty());
    }
    while i < args.len()
        invariant
            all == texts(args@),
            i <= args@.len(),
            texts(out@) == all.take(i as int).filter(is_placeholder()),
        decreases args@.len() - i,
    {
        proof {
            crate::list::lemma_filter_take(all, is_placeholder(), i as int);
        }
        if has_suffix(&to_ascii_lowercase(&args[i]), ".orbirusfence") {
            out.push(args[i].clone());
        }
        i = i + 1;
    }
    assert(all.take(all.len() as int) =~= all);
    out
}

/// What a second launch does before it ends.
#[derive(Clone, Copy, PartialEq, Eq, Structural, Debug)]
pub enum SecondLaunch {
    /// Hand the request for a new fence to the running program.
    ForwardNewFence,
    /// Bring the running program to the user's attention.
    FocusRunning,
}

/// What a second launch does before it ends.
pub fn second_launch(new_fence: bool) -> (r: SecondLaunch)
    ensures
        r == if new_fence {
            SecondLaunch::ForwardNewFence
        } else {
            SecondLaunch::FocusRunning
        },
{
    if new_fence {
        SecondLaunch::ForwardNewFence
    } else {
        SecondLaunch::FocusRunning
    }
}

/// Titles of the first fences, each with the category that it collects.
pub open spec fn starters() -> Seq<(Seq<char>, Option<Seq<char>>)> {
    seq![
        ("Apps"@, Some("apps"@)),
        ("Documents"@, Some("documents"@)),
        ("Pictures"@, Some("pictures"@)),
        ("Folders"@, Some("folders"@)),
        ("Unsorted"@, None),
    ]
}

/// Where the first fences stand: side by side from the top left of the
/// monitor, with gaps between them, and in a new row where one would reach
/// beyond the monitor.
pub open spec fn starter_spot(work: Rect, i: nat) -> (int, int)
    decreases i,
{
    let start = work.left + 24;
    let (x, y) = if i == 0 {
        (start, work.top + 24)
    } else {
        let last = starter_spot(work, (i - 1) as nat);
        (last.0 + 444, last.1)
    };
    if x + 420 > work.right {
        (start, y + 324)
    } else {
        (x, y)
    }
}

/// Whether the first fences stand within the coordinates of a screen.
pub open spec fn starters_fit(work: Rect) -> bool {
    forall|i: nat|
        i < 5 ==> fits((#[trigger] starter_spot(work, i)).0) && fits(starter_spot(work, i).1)
}

/// The rule that collects a category.
pub open spec fn category_rules(category: Option<Seq<char>>) -> Seq<RuleView> {
    match category {
        Some(c) => seq![RuleView { kind: RuleKind::Category, value: c }],
        None => Seq::empty(),
    }
}

/// One of the first fences.
pub open spec fn starter_fence(work: Rect, i: int) -> FenceView {
    let spot = starter_spot(work, i as nat);
    FenceView {
        rules: category_rules(starters()[i].1),
        ..plain_fence(
            "fence-"@ + decimal((i + 1) as nat),
            starters()[i].0,
            spot.0 as i32,
            spot.1 as i32,
            420,
            300,
        )
    }
}

/// The layout of a program that is run for the first time.
pub open spec fn first_layout(work: Rect) -> ConfigView {
    ConfigView {
        version: 2,
        icon_size: 48,
        fences: Seq::new(5, |i: int| starter_fence(work, i)),
    }
}

fn starter(number: u64, title: &str, category: Option<&str>, x: i32, y: i32) -> (r: FenceConfig)
    ensures
        r@ == (FenceView {
            rules: category_rules(
                match category {
                    Some(c) => Some(c@),
                    None => None,
                },
            ),
            ..plain_fence("fence-"@ + decimal(number as nat), title@, x, y, 420, 300)
        }),
{
    let mut id = "fence-".to_owned();
    push_numeral(&mut id, number, 10);
    let mut f = FenceConfig::plain(id, title, x, y, 420, 300);
    match category {
        Some(c) => {
            let mut rules: Vec<Rule> = Vec::new();
            rules.push(Rule { kind: RuleKind::Category, value: c.to_owned() });
            assert(rule_views(rules@) =~= seq![
                RuleView { kind: RuleKind::Category, value: c@ },
            ]);
            f.rules = rules;
        },
        None => {},
    }
    f
}

/// Where the next of the first fences stands.
fn next_spot(work: Rect, last: Option<(i64, i64)>) -> (r: (i64, i64))
    requires
        last matches Some(p) ==> -0x1_0000_0000 < p.0 < 0x1_0000_0000 && -0x1_0000_0000 < p.1
            < 0x1_0000_0000,
    ensures
        r == {
            let (x, y) = match last {
                Some(p) => (p.0 + 444, p.1 as int),
                None => (work.left + 24, work.top + 24),
            };
            if x + 420 > work.right {
                ((work.left + 24) as i64, (y + 324) as i64)
            } else {
                (x as i64, y as i64)
            }
        },
{
    let start: i64 = work.left as i64 + 24;
    let (x, y): (i64, i64) = match last {
        Some((px, py)) => (px + 444, py),
        None => (start, work.top as i64 + 24),
    };
    if x + 420 > work.right as i64 {
        (start, y + 324)
    } else {
        (x, y)
    }
}

/// The layout of a program that is run for the first time: five fences on the
/// primary monitor, four of which collect a category.
pub fn first_run_config(work: Rect) -> (r: Config)
    requires
        starters_fit(work),
    ensures
        r@ == first_layout(work),
{
    let a = next_spot(work, None);
    assert((a.0 as int, a.1 as int) == starter_spot(work, 0));
    let b = next_spot(work, Some(a));
    assert((b.0 as int, b.1 as int) == starter_spot(work, 1));
    let c = next_spot(work, Some(b));
    assert((c.0 as int, c.1 as int) == starter_spot(work, 2));
    let d = next_spot(work, Some(c));
    assert((d.0 as int, d.1 as int) == starter_spot(work, 3));
    let e = next_spot(work, Some(d));
    assert((e.0 as int, e.1 as int) == starter_spot(work, 4));
    let mut fences: Vec<FenceConfig> = Vec::new();
    fences.push(starter(1, "Apps", Some("apps"), a.0 as i32, a.1 as i32));
    fences.push(starter(2, "Documents", Some("documents"), b.0 as i32, b.1 as i32));
    fences.push(starter(3, "Pictures", Some("pictures"), c.0 as i32, c.1 as i32));
    fences.push(starter(4, "Folders", Some("folders"), d.0 as i32, d.1 as i32));
    fences.push(starter(5, "Unsorted", None, e.0 as i32, e.1 as i32));
    proof {
        assert(fence_views(fences@)[0] == starter_fence(work, 0));
        assert(fence_views(fences@)[1] == starter_fence(work, 1));
        assert(fence_views(fences@)[2] == starter_fence(work, 2));
        assert(fence_views(fences@)[3] == starter_fence(work, 3));
        assert(fence_views(fences@)[4] == starter_fence(work, 4));
        assert(fence_views(fences@) =~= first_layout(work).fences);
    }
    Config { version: 2, icon_size: 48, fences }
}

fn spot_fits(p: (i64, i64)) -> (r: bool)
    ensures
        r == (fits(p.0 as int) && fits(p.1 as int)),
{
    -0x8000_0000 <= p.0 && p.0 <= 0x7FFF_FFFF && -0x8000_0000 <= p.1 && p.1 <= 0x7FFF_FFFF
}

/// Whether the first fences stand within the coordinates of a screen.
pub fn has_room_for_starters(work: Rect) -> (r: bool)
    ensures
        r == starters_fit(work),
{
    let a = next_spot(work, None);
    assert((a.0 as int, a.1 as int) == starter_spot(work, 0));
    let b = next_spot(work, Some(a));
    assert((b.0 as int, b.1 as int) == starter_spot(work, 1));
    let c = next_spot(work, Some(b));
    assert((c.0 as int, c.1 as int) == starter_spot(work, 2));
    let d = next_spot(work, Some(c));
    assert((d.0 as int, d.1 as int) == starter_spot(work, 3));
    let e = next_spot(work, Some(d));
    assert((e.0 as int, e.1 as int) == starter_spot(work, 4));
    spot_fits(a) && spot_fits(b) && spot_fits(c) && spot_fits(d) && spot_fits(e)
}

/// The first fences do not touch: of two of them, the later one stands at
/// least the gap to the right of the other or at least the gap below it.
pub proof fn law_starters_are_apart(work: Rect, i: nat, j: nat)
    requires
        i < j,
    ensures
        ({
            let a = starter_spot(work, i);
            let b = starter_spot(work, j);
            ||| b.1 == a.1 && b.0 >= a.0 + 420 + 24
            ||| b.1 >= a.1 + 300 + 24
        }),
    decreases j,
{
    if i < j - 1 {
        law_starters_are_apart(work, i, (j - 1) as nat);
    }
}

/// The layout to start with. A layout that is missing is a first run; one that
/// cannot be read is replaced by the plain default, and never by the first
/// layout.
pub fn start_config(loaded: LoadResult, work: Rect) -> (r: (Config, bool))
    requires
        loaded is Missing ==> starters_fit(work),
    ensures
        r.1 == loaded is Missing,
        match loaded {
            LoadResult::Loaded(c) => r.0 == c,
            LoadResult::Missing => r.0@ == first_layout(work),
            LoadResult::Corrupt => r.0@ == default_config(),
        },
{
    match loaded {
        LoadResult::Loaded(c) => (c, false),
        LoadResult::Missing => (first_run_config(work), true),
        LoadResult::Corrupt => (Config::default(), false),
    }
}

/// The fences with those that are off-screen pulled back, each a little
/// further from the corner.
pub open spec fn rescued(fences: Seq<FenceView>, offscreen: Seq<bool>) -> Seq<FenceView> {
    Seq::new(
        fences.len(),
        |i: int|
            if i < offscreen.len() && offscreen[i] {
                FenceView { x: (100 + 40 * i) as i32, y: (80 + 40 * i) as i32, ..fences[i] }
            } else {
                fences[i]
            },
    )
}

/// Pulls fences that are off-screen back onto the primary monitor. Tells
/// whether there were any.
pub fn rescue_offscreen(cfg: &mut Config, offscreen: &Vec<bool>) -> (r: bool)
    requires
        forall|i: int|
            0 <= i < offscreen@.len() && i < old(cfg).fences@.len() && #[trigger] offscreen@[i]
                ==> fits(100 + 40 * i),
    ensures
        final(cfg)@ == (ConfigView {
            fences: rescued(old(cfg)@.fences, offscreen@),
            ..old(cfg)@
        }),
        r == exists|i: int|
            0 <= i < offscreen@.len() && i < old(cfg).fences@.len() && #[trigger] offscreen@[i],
{
    let ghost start = cfg@;
    let ghost n = cfg.fences@.len();
    let ghost want = rescued(start.fences, offscreen@);
    let mut changed = false;
    let mut i: usize = 0;
    while i < cfg.fences.len()
        invariant
            n == cfg.fences@.len() == start.fences.len(),
            i <= n,
            want == rescued(start.fences, offscreen@),
            cfg@.version == start.version,
            cfg@.icon_size == start.icon_size,
            forall|k: int|
                0 <= k < offscreen@.len() && k < n && #[trigger] offscreen@[k] ==> fits(
                    100 + 40 * k,
                ),
            forall|k: int| 0 <= k < i ==> (#[trigger] cfg@.fences[k]) == want[k],
            forall|k: int| i <= k < n ==> (#[trigger] cfg@.fences[k]) == start.fences[k],
            changed == exists|k: int|
                0 <= k < offscreen@.len() && k < i && #[trigger] offscreen@[k],
        decreases n - i,
    {
        if i < offscreen.len() && offscreen[i] {
            let ghost before = cfg@.fences;
            assert(fits(100 + 40 * i));
            let step: i32 = i as i32 * 40;
            cfg.fences[i].x = 100 + step;
            cfg.fences[i].y = 80 + step;
            changed = true;
            assert(offscreen@[i as int]);
            proof {
                let f = start.fences[i as int];
                let g = FenceView { x: (100 + 40 * i) as i32, y: (80 + 40 * i) as i32, ..f };
                assert(want[i as int] == g);
                assert(before[i as int] == f);
                assert(cfg@.fences[i as int] =~= g);
                assert(cfg@.fences =~= before.update(i as int, g));
            }
        } else {
            assert(want[i as int] == start.fences[i as int]);
        }
        i = i + 1;
    }
    assert(cfg@.fences =~= want);
    changed
}

/// The rectangle that a fence covers when it is open.
pub fn open_rect(f: &FenceConfig) -> (r: Rect)
    requires
        fits(f@.x + f@.w),
        fits(f@.y + f@.h),
    ensures
        r.left == f@.x,
        r.top == f@.y,
        r.right == f@.x + f@.w,
        r.bottom == f@.y + f@.h,
{
    Rect { left: f.x, top: f.y, right: f.x + f.w, bottom: f.y + f.h }
}

/// A new fence, centered on a monitor.
pub open spec fn new_fence(fences: Seq<FenceView>, work: Rect) -> FenceView {
    plain_fence(
        next_id(fences),
        "New Fence"@,
        centered(work.left as int, work.right as int, 300) as i32,
        centered(work.top as int, work.bottom as int, 200) as i32,
        300,
        200,
    )
}

/// Adds a new fence to the layout, centered on a monitor, and gives its place
/// in the layout.
pub fn create_new_fence(cfg: &mut Config, work: Rect) -> (r: usize)
    requires
        has_free_number(old(cfg)@.fences),
        fits(centered(work.left as int, work.right as int, 300)),
        fits(centered(work.top as int, work.bottom as int, 200)),
    ensures
        final(cfg)@ == (ConfigView {
            fences: old(cfg)@.fences.push(new_fence(old(cfg)@.fences, work)),
            ..old(cfg)@
        }),
        r == old(cfg)@.fences.len(),
        r < final(cfg).fences@.len(),
{
    let ghost before = cfg@.fences;
    let at = centered_on(work, 300, 200);
    let id = next_id_for(cfg);
    let i = cfg.fences.len();
    cfg.fences.push(FenceConfig::plain(id, "New Fence", at.x, at.y, 300, 200));
    assert(cfg@.fences =~= before.push(new_fence(before, work)));
    i
}

/// Whether the layout is to be written at the start.
pub fn saves_at_start(first_run: bool, changed: bool, rescued_some: bool) -> (r: bool)
    ensures
        r == (first_run || changed || rescued_some),
{
    first_run || changed || rescued_some
}

/// An entry of the registry, below the current user: a key, the name of the
/// value (none for the default value), and its data.
#[derive(Debug)]
pub struct RegistryEntry {
    pub key: String,
    pub value: Option<String>,
    pub data: String,
}

#[verifier::ext_equal]
pub struct RegistryView {
    pub key: Seq<char>,
    pub value: Option<Seq<char>>,
    pub data: Seq<char>,
}

impl View for RegistryEntry {
    type V = RegistryView;

    open spec fn view(&self) -> RegistryView {
        RegistryView {
            key: self.key@,
            value: crate::text::opt_text(self.value),
            data: self.data@,
        }
    }
}

pub open spec fn registry_views(v: Seq<RegistryEntry>) -> Seq<RegistryView> {
    Seq::new(v.len(), |i: int| v[i]@)
}

/// What offers "Orbirus Fence" among the new things of a desktop: the program
/// `exe` is run with the switch and the name of the placeholder.
pub open spec fn shell_new_of(exe: Seq<char>) -> Seq<RegistryView> {
    seq![
        RegistryView {
            key: "Software\\Classes\\.orbirusfence"@,
            value: None,
            data: "Orbirus.Fence"@,
        },
        RegistryView {
            key: "Software\\Classes\\Orbirus.Fence"@,
            value: None,
            data: "Orbirus Fence"@,
        },
        RegistryView {
            key: "Software\\Classes\\Orbirus.Fence\\DefaultIcon"@,
            value: None,
            data: "\""@ + exe + "\",0"@,
        },
        RegistryView {
            key: "Software\\Classes\\.orbirusfence\\ShellNew"@,
            value: Some("Command"@),
            data: "\""@ + exe + "\" /shellnew \"%1\""@,
        },
    ]
}

/// What offers "Orbirus Fence" among the new things of a desktop.
pub fn shell_new_entries(exe: &str) -> (r: Vec<RegistryEntry>)
    ensures
        registry_views(r@) == shell_new_of(exe@),
{
    let mut icon = "\"".to_owned();
    icon.append(exe);
    icon.append("\",0");
    let mut run = "\"".to_owned();
    run.append(exe);
    run.append("\" /shellnew \"%1\"");
    let mut v: Vec<RegistryEntry> = Vec::new();
    v.push(
        RegistryEntry {
            key: "Software\\Classes\\.orbirusfence".to_owned(),
            value: None,
            data: "Orbirus.Fence".to_owned(),
        },
    );
    v.push(
        RegistryEntry {
            key: "Software\\Classes\\Orbirus.Fence".to_owned(),
            value: None,
            data: "Orbirus Fence".to_owned(),
        },
    );
    v.push(
        RegistryEntry {
            key: "Software\\Classes\\Orbirus.Fence\\DefaultIcon".to_owned(),
            value: None,
            data: icon,
        },
    );
    v.push(
        RegistryEntry {
            key: "Software\\Classes\\.orbirusfence\\ShellNew".to_owned(),
            value: Some("Command".to_owned()),
            data: run,
        },
    );
    assert(registry_views(v@) =~= shell_new_of(exe@));
    v
}

/// The command that starts the program with the system: its path in quotes,
/// with a zero behind them.
pub fn autostart_value(exe: &Vec<u16>) -> (r: Vec<u16>)
    ensures
        r@ == seq![0x22u16] + exe@ + seq![0x22u16, 0u16],
{
    let mut out: Vec<u16> = Vec::new();
    out.push(0x22);
    let mut i: usize = 0;
    while i < exe.len()
        invariant
            i <= exe@.len(),
            out@ == seq![0x22u16] + exe@.take(i as int),
        decreases exe@.len() - i,
    {
        out.push(exe[i]);
        assert(out@ =~= seq![0x22u16] + exe@.take(i + 1));
        i = i + 1;
    }
    assert(exe@.take(exe@.len() as int) =~= exe@);
    out.push(0x22);
    out.push(0);
    out
}

/// The message that the left button went down.
pub const WM_LBUTTONDOWN: u32 = 0x0201;

/// Whether what a mouse hook reports is a press of the left button outside of
/// every fence. `class` is that of the window under the mouse.
pub fn is_outside_click(code: i32, message: u32, class: &str) -> (r: bool)
    ensures
        r == (code >= 0 && message == WM_LBUTTONDOWN && class@ != "OrbirusFence"@),
{
    code >= 0 && message == WM_LBUTTONDOWN && !same_text(class, "OrbirusFence")
}

/// Whether what the shell answers to a launch is an error.
pub fn launch_failed(answer: i64) -> (r: bool)
    ensures
        r == (answer <= 32),
{
    answer <= 32
}

/// Whether a message is one that the shell's own menus may want.
pub fn is_shell_menu_message(message: u32) -> (r: bool)
    ensures
        r == (message == 0x0117 || message == 0x002B || message == 0x002C),
{
    message == 0x0117 || message == 0x002B || message == 0x002C
}

/// The verb of a command of the shell's menu, whose commands count from one.
pub fn shell_verb(command: i32) -> (r: Option<u32>)
    ensures
        r == if command > 0 {
            Some((command - 1) as u32)
        } else {
            None
        },
{
    if command > 0 {
        Some((command - 1) as u32)
    } else {
        None
    }
}

/// A new fence is asked for by an argument "/shellnew" in any case, and only
/// then are the arguments that end in ".orbirusfence", in any case, placeholders.
pub proof fn law_asking_for_a_fence(args: Seq<Seq<char>>)
    ensures
        asks_for_fence(args) <==> exists|i: int|
            0 <= i < args.len() && same_but_ascii_case(#[trigger] args[i], "/shellnew"@),
        asks_for_fence(args) ==> placeholders_of(args) == args.filter(
            |a: Seq<char>| ends_with(ascii_lowered(a), ".orbirusfence"@),
        ),
        !asks_for_fence(args) ==> placeholders_of(args).len() == 0,
{
    if exists|i: int| 0 <= i < args.len() && same_but_ascii_case(#[trigger] args[i], "/shellnew"@) {
        let i = choose|i: int|
            0 <= i < args.len() && same_but_ascii_case(#[trigger] args[i], "/shellnew"@);
        assert(is_new_fence_switch(args[i]));
    }
    if asks_for_fence(args) {
        let i = choose|i: int| 0 <= i < args.len() && is_new_fence_switch(#[trigger] args[i]);
        assert(same_but_ascii_case(args[i], "/shellnew"@));
    }
    let p = |a: Seq<char>| ends_with(ascii_lowered(a), ".orbirusfence"@);
    assert(p =~= is_placeholder());
}

/// The first of the first fences stands 24 pixels from the top left of the
/// monitor, and every other one 24 pixels to the right of the one before it. One
/// that would reach beyond the right of the monitor starts a row instead, 24
/// pixels below the row before.
pub proof fn law_starter_spots(work: Rect, i: nat)
    ensures
        ({
            let a = starter_spot(work, 0);
            let p = starter_spot(work, i);
            let q = starter_spot(work, i + 1);
            &&& a.0 == work.left + 24
            &&& work.left + 24 + 420 <= work.right ==> a.1 == work.top + 24
            &&& work.left + 24 + 420 > work.right ==> a.1 == work.top + 24 + 300 + 24
            &&& p.0 + 420 + 24 + 420 <= work.right ==> q.0 == p.0 + 420 + 24 && q.1 == p.1
            &&& p.0 + 420 + 24 + 420 > work.right ==> q.0 == work.left + 24 && q.1 == p.1 + 300 + 24
        }),
{
}

/// The first layout has five fences: four that collect a category each, and the
/// catch-all fence, which comes last. They stand at their spots, are 420 by 300
/// pixels large, open and empty.
pub proof fn law_first_layout(work: Rect, i: int)
    requires
        0 <= i < 5,
        i32::MIN <= starter_spot(work, i as nat).0 <= i32::MAX,
        i32::MIN <= starter_spot(work, i as nat).1 <= i32::MAX,
    ensures
        ({
            let c = first_layout(work);
            let f = c.fences[i];
            &&& c.version == 2 && c.icon_size == 48 && c.fences.len() == 5
            &&& f.x == starter_spot(work, i as nat).0 && f.y == starter_spot(work, i as nat).1
            &&& f.w == 420 && f.h == 300
            &&& !f.rolled_up && f.items.len() == 0 && f.monitor == 0
            &&& c.fences[0].id == "fence-1"@ && c.fences[0].title == "Apps"@
            &&& c.fences[1].id == "fence-2"@ && c.fences[1].title == "Documents"@
            &&& c.fences[2].id == "fence-3"@ && c.fences[2].title == "Pictures"@
            &&& c.fences[3].id == "fence-4"@ && c.fences[3].title == "Folders"@
            &&& c.fences[4].id == "fence-5"@ && c.fences[4].title == "Unsorted"@
            &&& c.fences[0].rules == seq![RuleView { kind: RuleKind::Category, value: "apps"@ }]
            &&& c.fences[1].rules == seq![RuleView { kind: RuleKind::Category, value: "documents"@ }]
            &&& c.fences[2].rules == seq![RuleView { kind: RuleKind::Category, value: "pictures"@ }]
            &&& c.fences[3].rules == seq![RuleView { kind: RuleKind::Category, value: "folders"@ }]
            &&& c.fences[4].rules.len() == 0
        }),
{
    reveal_strlit("fence-");
    reveal_strlit("fence-1");
    reveal_strlit("fence-2");
    reveal_strlit("fence-3");
    reveal_strlit("fence-4");
    reveal_strlit("fence-5");
    assert(decimal(1) =~= seq!['1']);
    assert(decimal(2) =~= seq!['2']);
    assert(decimal(3) =~= seq!['3']);
    assert(decimal(4) =~= seq!['4']);
    assert(decimal(5) =~= seq!['5']);
    assert("fence-"@ + decimal(1) =~= "fence-1"@);
    assert("fence-"@ + decimal(2) =~= "fence-2"@);
    assert("fence-"@ + decimal(3) =~= "fence-3"@);
    assert("fence-"@ + decimal(4) =~= "fence-4"@);
    assert("fence-"@ + decimal(5) =~= "fence-5"@);
}

/// The first fences have room where the corner of each of them has coordinates
/// that a screen can have.
pub proof fn law_room_for_starters(work: Rect)
    ensures
        starters_fit(work) <==> {
            &&& i32::MIN <= starter_spot(work, 0).0 <= i32::MAX
            &&& i32::MIN <= starter_spot(work, 0).1 <= i32::MAX
            &&& i32::MIN <= starter_spot(work, 1).0 <= i32::MAX
            &&& i32::MIN <= starter_spot(work, 1).1 <= i32::MAX
            &&& i32::MIN <= starter_spot(work, 2).0 <= i32::MAX
            &&& i32::MIN <= starter_spot(work, 2).1 <= i32::MAX
            &&& i32::MIN <= starter_spot(work, 3).0 <= i32::MAX
            &&& i32::MIN <= starter_spot(work, 3).1 <= i32::MAX
            &&& i32::MIN <= starter_spot(work, 4).0 <= i32::MAX
            &&& i32::MIN <= starter_spot(work, 4).1 <= i32::MAX
        },
{
}

/// A fence that is off-screen goes to a corner of the primary monitor, 40 pixels
/// further for every fence before it in the layout. Nothing else of it changes,
/// and no other fence does.
pub proof fn law_what_is_rescued(fences: Seq<FenceView>, offscreen: Seq<bool>, i: int)
    requires
        0 <= i < fences.len(),
        100 + 40 * i <= i32::MAX,
    ensures
        rescued(fences, offscreen).len() == fences.len(),
        i < offscreen.len() && offscreen[i] ==> ({
            let f = rescued(fences, offscreen)[i];
            f.x == 100 + 40 * i && f.y == 80 + 40 * i && f == (FenceView {
                x: f.x,
                y: f.y,
                ..fences[i]
            })
        }),
        i >= offscreen.len() || !offscreen[i] ==> rescued(fences, offscreen)[i] == fences[i],
{
}

/// A new fence is 300 by 200 pixels large, has as much of the monitor to its
/// left as to its right and above it as below it, but for a pixel, and is open,
/// empty, without rules, and of an id that no other fence has.
pub proof fn law_what_a_new_fence_is(fences: Seq<FenceView>, work: Rect)
    requires
        has_free_number(fences),
        i32::MIN <= centered(work.left as int, work.right as int, 300) <= i32::MAX,
        i32::MIN <= centered(work.top as int, work.bottom as int, 200) <= i32::MAX,
    ensures
        ({
            let f = new_fence(fences, work);
            &&& f.title == "New Fence"@
            &&& f.w == 300 && f.h == 200
            &&& f.x == centered(work.left as int, work.right as int, f.w as int)
            &&& f.y == centered(work.top as int, work.bottom as int, f.h as int)
            &&& -1 <= (work.right - (f.x + 300)) - (f.x - work.left) <= 1
            &&& -1 <= (work.bottom - (f.y + 200)) - (f.y - work.top) <= 1
            &&& !f.rolled_up && f.items.len() == 0 && f.rules.len() == 0 && f.monitor == 0
            &&& forall|i: int| 0 <= i < fences.len() ==> (#[trigger] fences[i]).id != f.id
        }),
{
    crate::geometry::law_centered_has_equal_margins(work.left as int, work.right as int, 300);
    crate::geometry::law_centered_has_equal_margins(work.top as int, work.bottom as int, 200);
    crate::config::law_next_id_is_unused(fences);
}

/// What the desktop runs for a new fence asks for one, and names a placeholder
/// that is taken for one.
pub proof fn law_registered_command(exe: Seq<char>, front: Seq<char>)
    ensures
        ({
            let e = shell_new_of(exe);
            &&& e.len() == 4
            &&& e[0].key == "Software\\Classes\\.orbirusfence"@ && e[0].value is None
            &&& e[0].data == "Orbirus.Fence"@
            &&& e[1].key == "Software\\Classes\\Orbirus.Fence"@ && e[1].value is None
            &&& e[1].data == "Orbirus Fence"@
            &&& e[2].key == "Software\\Classes\\Orbirus.Fence\\DefaultIcon"@ && e[2].value is None
            &&& e[2].data == "\""@ + exe + "\",0"@
            &&& e[3].key == "Software\\Classes\\.orbirusfence\\ShellNew"@
            &&& e[3].value == Some("Command"@)
            &&& e[3].data == "\""@ + exe + "\" /shellnew \"%1\""@
        }),
        asks_for_fence(seq![exe, "/shellnew"@, front + ".orbirusfence"@]),
        placeholders_of(seq![exe, "/shellnew"@, front + ".orbirusfence"@]).contains(
            front + ".orbirusfence"@,
        ),
{
    let args = seq![exe, "/shellnew"@, front + ".orbirusfence"@];
    assert(is_new_fence_switch(args[1]));
    reveal_strlit(".orbirusfence");
    let low = ascii_lowered(args[2]);
    assert(low.skip(front.len() as int) =~= ".orbirusfence"@);
    assert(is_placeholder()(args[2]));
    args.lemma_filter_contains(is_placeholder(), 2);
}

} // verus!
