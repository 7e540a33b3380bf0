//! The menus and the settings: what they offer, which entries they mark, and
//! what their commands mean.

use vstd::prelude::*;
use crate::color::{
    current_menu_color, current_settings_color, menu_color, settings_color, DEFAULT_COLOR,
};
use crate::config::{
    fence_at, fence_index, Config, FenceView, Real, DEFAULT_OPACITY_BITS, DEFAULT_RADIUS_BITS,
};
use crate::input::{command_code, command_id, low_word};
use crate::layout::{may_go, without_fence};
use crate::list::{first_index, lemma_first_index, lemma_is_first, lemma_is_nowhere};
use crate::text::{same_text, texts};

verus! {

/// A named value to choose.
#[derive(Debug)]
pub struct Preset {
    pub name: String,
    pub value: u32,
}

#[verifier::ext_equal]
pub struct PresetView {
    pub name: Seq<char>,
    pub value: u32,
}

impl View for Preset {
    type V = PresetView;

    open spec fn view(&self) -> PresetView {
        PresetView { name: self.name@, value: self.value }
    }
}

pub open spec fn preset_views(v: Seq<Preset>) -> Seq<PresetView> {
    Seq::new(v.len(), |i: int| v[i]@)
}

pub open spec fn preset(name: Seq<char>, value: u32) -> PresetView {
    PresetView { name, value }
}

fn new_preset(name: &str, value: u32) -> (r: Preset)
    ensures
        r@ == preset(name@, value),
{
    Preset { name: name.to_owned(), value }
}

/// The colors to choose from.
pub open spec fn palette() -> Seq<PresetView> {
    seq![
        preset("Midnight"@, 0x1E1E2E),
        preset("Charcoal"@, 0x111111),
        preset("Slate"@, 0x334155),
        preset("Ocean"@, 0x0C4A6E),
        preset("Forest"@, 0x14532D),
        preset("Plum"@, 0x581C87),
        preset("Wine"@, 0x7F1D1D),
        preset("Amber"@, 0x78350F),
    ]
}

/// The opacities to choose from, in percent.
pub open spec fn opacities() -> Seq<PresetView> {
    seq![preset("50%"@, 50), preset("65%"@, 65), preset("78%"@, 78), preset("90%"@, 90)]
}

/// The corner radii to choose from.
pub open spec fn radii() -> Seq<PresetView> {
    seq![preset("0"@, 0), preset("6"@, 6), preset("12"@, 12), preset("20"@, 20)]
}

/// The icon sizes to choose from.
pub open spec fn icon_sizes() -> Seq<PresetView> {
    seq![preset("Small"@, 32), preset("Medium"@, 48), preset("Large"@, 64)]
}

/// The colors to choose from.
pub fn color_presets() -> (r: Vec<Preset>)
    ensures
        preset_views(r@) == palette(),
{
    let mut v: Vec<Preset> = Vec::new();
    v.push(new_preset("Midnight", 0x1E1E2E));
    v.push(new_preset("Charcoal", 0x111111));
    v.push(new_preset("Slate", 0x334155));
    v.push(new_preset("Ocean", 0x0C4A6E));
    v.push(new_preset("Forest", 0x14532D));
    v.push(new_preset("Plum", 0x581C87));
    v.push(new_preset("Wine", 0x7F1D1D));
    v.push(new_preset("Amber", 0x78350F));
    assert(preset_views(v@) =~= palette());
    v
}

/// The opacities to choose from.
pub fn opacity_presets() -> (r: Vec<Preset>)
    ensures
        preset_views(r@) == opacities(),
{
    let mut v: Vec<Preset> = Vec::new();
    v.push(new_preset("50%", 50));
    v.push(new_preset("65%", 65));
    v.push(new_preset("78%", 78));
    v.push(new_preset("90%", 90));
    assert(preset_views(v@) =~= opacities());
    v
}

/// The corner radii to choose from.
pub fn radius_presets() -> (r: Vec<Preset>)
    ensures
        preset_views(r@) == radii(),
{
    let mut v: Vec<Preset> = Vec::new();
    v.push(new_preset("0", 0));
    v.push(new_preset("6", 6));
    v.push(new_preset("12", 12));
    v.push(new_preset("20", 20));
    assert(preset_views(v@) =~= radii());
    v
}

/// The icon sizes to choose from.
pub fn icon_size_presets() -> (r: Vec<Preset>)
    ensures
        preset_views(r@) == icon_sizes(),
{
    let mut v: Vec<Preset> = Vec::new();
    v.push(new_preset("Small", 32));
    v.push(new_preset("Medium", 48));
    v.push(new_preset("Large", 64));
    assert(preset_views(v@) =~= icon_sizes());
    v
}

/// An entry of a menu.
#[derive(Debug)]
pub struct Entry {
    pub id: usize,
    pub label: String,
    pub checked: bool,
    pub grayed: bool,
}

#[verifier::ext_equal]
pub struct EntryView {
    pub id: usize,
    pub label: Seq<char>,
    pub checked: bool,
    pub grayed: bool,
}

impl View for Entry {
    type V = EntryView;

    open spec fn view(&self) -> EntryView {
        EntryView { id: self.id, label: self.label@, checked: self.checked, grayed: self.grayed }
    }
}

pub open spec fn entry_views(v: Seq<Entry>) -> Seq<EntryView> {
    Seq::new(v.len(), |i: int| v[i]@)
}

/// What a menu holds, from top to bottom.
#[derive(Debug)]
pub enum MenuItem {
    Command { entry: Entry },
    Submenu { label: String, entries: Vec<Entry> },
    Separator,
}

#[verifier::ext_equal]
pub enum MenuView {
    Command { entry: EntryView },
    Submenu { label: Seq<char>, entries: Seq<EntryView> },
    Separator,
}

impl View for MenuItem {
    type V = MenuView;

    open spec fn view(&self) -> MenuView {
        match self {
            MenuItem::Command { entry } => MenuView::Command { entry: entry@ },
            MenuItem::Submenu { label, entries } => MenuView::Submenu {
                label: label@,
                entries: entry_views(entries@),
            },
            MenuItem::Separator => MenuView::Separator,
        }
    }
}

pub open spec fn menu_views(v: Seq<MenuItem>) -> Seq<MenuView> {
    Seq::new(v.len(), |i: int| v[i]@)
}

pub open spec fn command(id: usize, label: Seq<char>, checked: bool, grayed: bool) -> MenuView {
    MenuView::Command { entry: EntryView { id, label, checked, grayed } }
}

fn new_command(id: usize, label: &str, checked: bool, grayed: bool) -> (r: MenuItem)
    ensures
        r@ == command(id, label@, checked, grayed),
{
    MenuItem::Command { entry: Entry { id, label: label.to_owned(), checked, grayed } }
}

pub const IDM_FENCE_DELETE: usize = 100;

pub const IDM_FENCE_RENAME: usize = 101;

pub const IDM_FENCE_AUTOORG: usize = 102;

pub const IDM_FENCE_RAINBOW: usize = 103;

pub const IDM_COLOR_BASE: usize = 110;

pub const IDM_OPACITY_BASE: usize = 120;

pub const IDM_RADIUS_BASE: usize = 130;

pub const IDM_ICONSIZE_BASE: usize = 140;

/// The entries for values to choose; the current value is marked.
pub open spec fn preset_entries(base: usize, presets: Seq<PresetView>, current: u32) -> Seq<
    EntryView,
> {
    Seq::new(
        presets.len(),
        |i: int|
            EntryView {
                id: (base + i) as usize,
                label: presets[i].name,
                checked: presets[i].value == current,
                grayed: false,
            },
    )
}

fn list_presets(label: &str, base: usize, presets: Vec<Preset>, current: u32) -> (r: MenuItem)
    requires
        base + presets@.len() <= 1000,
    ensures
        r@ == (MenuView::Submenu {
            label: label@,
            entries: preset_entries(base, preset_views(presets@), current),
        }),
{
    let mut entries: Vec<Entry> = Vec::new();
    let mut i: usize = 0;
    let ghost want = preset_entries(base, preset_views(presets@), current);
    while i < presets.len()
        invariant
            base + presets@.len() <= 1000,
            i <= presets@.len(),
            entries@.len() == i,
            want == preset_entries(base, preset_views(presets@), current),
            forall|k: int| 0 <= k < i ==> (#[trigger] entries@[k])@ == want[k],
        decreases presets@.len() - i,
    {
        entries.push(
            Entry {
                id: base + i,
                label: presets[i].name.clone(),
                checked: presets[i].value == current,
                grayed: false,
            },
        );
        i = i + 1;
    }
    assert(entry_views(entries@) =~= want);
    MenuItem::Submenu { label: label.to_owned(), entries }
}

/// The look of a fence, as the menu and the settings show it.
#[derive(Clone, Copy, PartialEq, Eq, Structural, Debug)]
pub struct Look {
    /// 0xRRGGBB
    pub color: u32,
    pub opacity: Real,
    pub corner_radius: Real,
}

/// The look where there is no fence.
pub open spec fn standard_look() -> Look {
    Look {
        color: DEFAULT_COLOR,
        opacity: Real { bits: DEFAULT_OPACITY_BITS },
        corner_radius: Real { bits: DEFAULT_RADIUS_BITS },
    }
}

fn new_standard_look() -> (r: Look)
    ensures
        r == standard_look(),
{
    Look {
        color: DEFAULT_COLOR,
        opacity: Real { bits: DEFAULT_OPACITY_BITS },
        corner_radius: Real { bits: DEFAULT_RADIUS_BITS },
    }
}

/// Whether the menu of a fence offers to delete it, and the look of the
/// fence. A fence that is not in the layout cannot be deleted.
pub open spec fn look_of(fences: Seq<FenceView>, id: Seq<char>) -> (bool, Look) {
    match fence_at(fences, id) {
        Some(i) => (
            may_go(fences[i]),
            Look {
                color: menu_color(fences[i].color),
                opacity: fences[i].opacity,
                corner_radius: fences[i].corner_radius,
            },
        ),
        None => (false, standard_look()),
    }
}

/// Whether a fence can be deleted, and its look, for its menu.
pub fn fence_look(cfg: &Config, id: &str) -> (r: (bool, Look))
    ensures
        r == look_of(cfg@.fences, id@),
{
    match fence_index(cfg, id) {
        Some(i) => {
            let f = &cfg.fences[i];
            assert(cfg@.fences[i as int] == f@);
            assert(f@.items.len() == f.items@.len());
            let unsorted = same_text(&f.title, "Unsorted");
            (
                !unsorted || f.items.len() == 0,
                Look {
                    color: current_menu_color(&f.color),
                    opacity: f.opacity,
                    corner_radius: f.corner_radius,
                },
            )
        },
        None => (false, new_standard_look()),
    }
}

/// What the menu of a fence does not offer to delete stays, and what it offers
/// is a fence of the layout that may go.
pub proof fn law_menu_offers_deletion(fences: Seq<FenceView>, id: Seq<char>)
    ensures
        !look_of(fences, id).0 ==> without_fence(fences, id) == fences,
        look_of(fences, id).0 ==> fence_at(fences, id) is Some && may_go(
            fences[fence_at(fences, id)->0],
        ),
{
}

/// The menu of a fence's title bar.
pub open spec fn fence_menu_of(
    deletable: bool,
    color: u32,
    percent: u32,
    radius: u32,
    icon_size: u32,
) -> Seq<MenuView> {
    seq![
        command(IDM_FENCE_RENAME, "Rename"@, false, false),
        command(IDM_FENCE_AUTOORG, "Sorting rules…"@, false, false),
        command(IDM_FENCE_RAINBOW, "Sort by color"@, false, false),
        MenuView::Submenu {
            label: "Color"@,
            entries: preset_entries(IDM_COLOR_BASE, palette(), color),
        },
        MenuView::Submenu {
            label: "Opacity"@,
            entries: preset_entries(IDM_OPACITY_BASE, opacities(), percent),
        },
        MenuView::Submenu {
            label: "Corner radius"@,
            entries: preset_entries(IDM_RADIUS_BASE, radii(), radius),
        },
        MenuView::Submenu {
            label: "Icon size"@,
            entries: preset_entries(IDM_ICONSIZE_BASE, icon_sizes(), icon_size),
        },
        MenuView::Separator,
        command(IDM_FENCE_DELETE, "Delete fence"@, false, !deletable),
    ]
}

/// The menu of a fence's title bar. The current color, opacity (in percent),
/// corner radius and icon size are marked, and a fence that may not be
/// deleted has that entry grayed.
pub fn fence_menu(
    deletable: bool,
    color: u32,
    percent: u32,
    radius: u32,
    icon_size: u32,
) -> (r: Vec<MenuItem>)
    ensures
        menu_views(r@) == fence_menu_of(deletable, color, percent, radius, icon_size),
{
    let colors = color_presets();
    let opacity_list = opacity_presets();
    let radius_list = radius_presets();
    let sizes = icon_size_presets();
    proof {
        assert(palette().len() == 8);
        assert(preset_views(colors@).len() == colors@.len());
        assert(opacities().len() == 4);
        assert(preset_views(opacity_list@).len() == opacity_list@.len());
        assert(radii().len() == 4);
        assert(preset_views(radius_list@).len() == radius_list@.len());
        assert(icon_sizes().len() == 3);
        assert(preset_views(sizes@).len() == sizes@.len());
    }
    let mut v: Vec<MenuItem> = Vec::new();
    v.push(new_command(IDM_FENCE_RENAME, "Rename", false, false));
    v.push(new_command(IDM_FENCE_AUTOORG, "Sorting rules…", false, false));
    v.push(new_command(IDM_FENCE_RAINBOW, "Sort by color", false, false));
    v.push(list_presets("Color", IDM_COLOR_BASE, colors, color));
    v.push(list_presets("Opacity", IDM_OPACITY_BASE, opacity_list, percent));
    v.push(list_presets("Corner radius", IDM_RADIUS_BASE, radius_list, radius));
    v.push(list_presets("Icon size", IDM_ICONSIZE_BASE, sizes, icon_size));
    v.push(MenuItem::Separator);
    v.push(new_command(IDM_FENCE_DELETE, "Delete fence", false, !deletable));
    assert(menu_views(v@) =~= fence_menu_of(deletable, color, percent, radius, icon_size));
    v
}

/// A command of a fence's menu.
#[derive(Clone, Copy, PartialEq, Eq, Structural, Debug)]
pub enum FenceCommand {
    Nothing,
    Delete,
    Rename,
    EditRules,
    SortByColor,
    Color { hex: u32 },
    Opacity { percent: u32 },
    Radius { radius: u32 },
    IconSize { size: u32 },
}

/// The command that an entry of a fence's menu stands for.
pub open spec fn fence_command(id: usize) -> FenceCommand {
    if id == IDM_FENCE_DELETE {
        FenceCommand::Delete
    } else if id == IDM_FENCE_RENAME {
        FenceCommand::Rename
    } else if id == IDM_FENCE_AUTOORG {
        FenceCommand::EditRules
    } else if id == IDM_FENCE_RAINBOW {
        FenceCommand::SortByColor
    } else if IDM_COLOR_BASE <= id < IDM_COLOR_BASE + palette().len() {
        FenceCommand::Color { hex: palette()[id - IDM_COLOR_BASE].value }
    } else if IDM_OPACITY_BASE <= id < IDM_OPACITY_BASE + opacities().len() {
        FenceCommand::Opacity { percent: opacities()[id - IDM_OPACITY_BASE].value }
    } else if IDM_RADIUS_BASE <= id < IDM_RADIUS_BASE + radii().len() {
        FenceCommand::Radius { radius: radii()[id - IDM_RADIUS_BASE].value }
    } else if IDM_ICONSIZE_BASE <= id < IDM_ICONSIZE_BASE + icon_sizes().len() {
        FenceCommand::IconSize { size: icon_sizes()[id - IDM_ICONSIZE_BASE].value }
    } else {
        FenceCommand::Nothing
    }
}

/// The value of the chosen entry, if there is one at that place.
pub fn preset_value(presets: &Vec<Preset>, at: usize) -> (r: Option<u32>)
    ensures
        r == if at < presets@.len() {
            Some(preset_views(presets@)[at as int].value)
        } else {
            None
        },
{
    if at < presets.len() {
        Some(presets[at].value)
    } else {
        None
    }
}

/// What an entry of a fence's menu stands for.
pub fn decode_fence_command(id: usize) -> (r: FenceCommand)
    ensures
        r == fence_command(id),
{
    if id == IDM_FENCE_DELETE {
        return FenceCommand::Delete;
    }
    if id == IDM_FENCE_RENAME {
        return FenceCommand::Rename;
    }
    if id == IDM_FENCE_AUTOORG {
        return FenceCommand::EditRules;
    }
    if id == IDM_FENCE_RAINBOW {
        return FenceCommand::SortByColor;
    }
    let colors = color_presets();
    let opacity_list = opacity_presets();
    let radius_list = radius_presets();
    let sizes = icon_size_presets();
    proof {
        assert(preset_views(colors@).len() == colors@.len());
        assert(preset_views(opacity_list@).len() == opacity_list@.len());
        assert(preset_views(radius_list@).len() == radius_list@.len());
        assert(preset_views(sizes@).len() == sizes@.len());
    }
    if IDM_COLOR_BASE <= id && id < IDM_OPACITY_BASE {
        match preset_value(&colors, id - IDM_COLOR_BASE) {
            Some(hex) => FenceCommand::Color { hex },
            None => FenceCommand::Nothing,
        }
    } else if IDM_OPACITY_BASE <= id && id < IDM_RADIUS_BASE {
        match preset_value(&opacity_list, id - IDM_OPACITY_BASE) {
            Some(percent) => FenceCommand::Opacity { percent },
            None => FenceCommand::Nothing,
        }
    } else if IDM_RADIUS_BASE <= id && id < IDM_ICONSIZE_BASE {
        match preset_value(&radius_list, id - IDM_RADIUS_BASE) {
            Some(radius) => FenceCommand::Radius { radius },
            None => FenceCommand::Nothing,
        }
    } else if IDM_ICONSIZE_BASE <= id {
        match preset_value(&sizes, id - IDM_ICONSIZE_BASE) {
            Some(size) => FenceCommand::IconSize { size },
            None => FenceCommand::Nothing,
        }
    } else {
        FenceCommand::Nothing
    }
}

/// Every entry of the lists in a fence's menu stands for its own value, and
/// at most the current value is marked.
pub proof fn law_fence_menu_entries(i: int, current: u32)
    ensures
        0 <= i < palette().len() ==> {
            let e = preset_entries(IDM_COLOR_BASE, palette(), current)[i];
            &&& fence_command(e.id) == (FenceCommand::Color { hex: palette()[i].value })
            &&& e.checked == (palette()[i].value == current)
        },
        0 <= i < opacities().len() ==> {
            let e = preset_entries(IDM_OPACITY_BASE, opacities(), current)[i];
            &&& fence_command(e.id) == (FenceCommand::Opacity { percent: opacities()[i].value })
            &&& e.checked == (opacities()[i].value == current)
        },
        0 <= i < radii().len() ==> {
            let e = preset_entries(IDM_RADIUS_BASE, radii(), current)[i];
            &&& fence_command(e.id) == (FenceCommand::Radius { radius: radii()[i].value })
            &&& e.checked == (radii()[i].value == current)
        },
        0 <= i < icon_sizes().len() ==> {
            let e = preset_entries(IDM_ICONSIZE_BASE, icon_sizes(), current)[i];
            &&& fence_command(e.id) == (FenceCommand::IconSize { size: icon_sizes()[i].value })
            &&& e.checked == (icon_sizes()[i].value == current)
        },
{
}

pub const IDM_EXIT: usize = 1;

pub const IDM_NEW_FENCE: usize = 2;

pub const IDM_SETTINGS: usize = 3;

pub const IDM_SORT_UNSORTED: usize = 4;

pub const IDM_AUTOSTART: usize = 5;

pub const IDM_UNDO_SORT: usize = 6;

pub const IDM_SAVE_LAYOUT: usize = 7;

pub const IDM_RESTORE_BASE: usize = 700;

/// How many snapshots the menu can hold.
pub const MAX_SNAPSHOTS: usize = 10;

/// The entries of the "Restore layout" menu, one for each snapshot.
pub open spec fn restore_entries(labels: Seq<Seq<char>>) -> Seq<EntryView> {
    if labels.len() == 0 {
        seq![EntryView { id: 0, label: "(no snapshots)"@, checked: false, grayed: true }]
    } else {
        Seq::new(
            labels.len(),
            |i: int|
                EntryView {
                    id: (IDM_RESTORE_BASE + i) as usize,
                    label: labels[i],
                    checked: false,
                    grayed: false,
                },
        )
    }
}

/// The menu of the tray icon.
pub open spec fn tray_menu_of(
    undoable: bool,
    labels: Seq<Seq<char>>,
    autostart: bool,
) -> Seq<MenuView> {
    seq![
        command(IDM_NEW_FENCE, "New Fence"@, false, false),
        command(IDM_SORT_UNSORTED, "Sort Unsorted now"@, false, false),
        command(IDM_UNDO_SORT, "Undo last sort"@, false, !undoable),
        command(IDM_SAVE_LAYOUT, "Save layout"@, false, false),
        MenuView::Submenu { label: "Restore layout"@, entries: restore_entries(labels) },
        command(IDM_AUTOSTART, "Start with Windows"@, autostart, false),
        command(IDM_SETTINGS, "Settings…"@, false, false),
        command(IDM_EXIT, "Exit"@, false, false),
    ]
}

/// The menu of the tray icon: the undo is grayed when there is nothing to
/// undo, and starting with the system is marked when it is on.
pub fn tray_menu(undoable: bool, labels: &Vec<String>, autostart: bool) -> (r: Vec<MenuItem>)
    requires
        labels@.len() <= MAX_SNAPSHOTS,
    ensures
        menu_views(r@) == tray_menu_of(undoable, texts(labels@), autostart),
{
    let mut entries: Vec<Entry> = Vec::new();
    let ghost want = restore_entries(texts(labels@));
    if labels.len() == 0 {
        entries.push(
            Entry { id: 0, label: "(no snapshots)".to_owned(), checked: false, grayed: true },
        );
    } else {
        let mut i: usize = 0;
        while i < labels.len()
            invariant
                0 < labels@.len() <= MAX_SNAPSHOTS,
                i <= labels@.len(),
                entries@.len() == i,
                want == restore_entries(texts(labels@)),
                forall|k: int| 0 <= k < i ==> (#[trigger] entries@[k])@ == want[k],
            decreases labels@.len() - i,
        {
            entries.push(
                Entry {
                    id: IDM_RESTORE_BASE + i,
                    label: labels[i].clone(),
                    checked: false,
                    grayed: false,
                },
            );
            i = i + 1;
        }
    }
    assert(entry_views(entries@) =~= want);
    let mut v: Vec<MenuItem> = Vec::new();
    v.push(new_command(IDM_NEW_FENCE, "New Fence", false, false));
    v.push(new_command(IDM_SORT_UNSORTED, "Sort Unsorted now", false, false));
    v.push(new_command(IDM_UNDO_SORT, "Undo last sort", false, !undoable));
    v.push(new_command(IDM_SAVE_LAYOUT, "Save layout", false, false));
    v.push(MenuItem::Submenu { label: "Restore layout".to_owned(), entries });
    v.push(new_command(IDM_AUTOSTART, "Start with Windows", autostart, false));
    v.push(new_command(IDM_SETTINGS, "Settings…", false, false));
    v.push(new_command(IDM_EXIT, "Exit", false, false));
    assert(menu_views(v@) =~= tray_menu_of(undoable, texts(labels@), autostart));
    v
}

/// A command of the tray icon's menu.
#[derive(Clone, Copy, PartialEq, Eq, Structural, Debug)]
pub enum TrayCommand {
    Nothing,
    Exit,
    NewFence,
    Settings,
    SortUnsorted,
    ToggleAutostart,
    UndoSort,
    SaveLayout,
    /// Restore the snapshot that stands at this place of the menu.
    Restore { index: usize },
}

/// The command that an entry of the tray icon's menu stands for.
pub open spec fn tray_command(id: int) -> TrayCommand {
    if id == IDM_EXIT {
        TrayCommand::Exit
    } else if id == IDM_NEW_FENCE {
        TrayCommand::NewFence
    } else if id == IDM_SETTINGS {
        TrayCommand::Settings
    } else if id == IDM_SORT_UNSORTED {
        TrayCommand::SortUnsorted
    } else if id == IDM_AUTOSTART {
        TrayCommand::ToggleAutostart
    } else if id == IDM_UNDO_SORT {
        TrayCommand::UndoSort
    } else if id == IDM_SAVE_LAYOUT {
        TrayCommand::SaveLayout
    } else if IDM_RESTORE_BASE <= id < IDM_RESTORE_BASE + MAX_SNAPSHOTS {
        TrayCommand::Restore { index: (id - IDM_RESTORE_BASE) as usize }
    } else {
        TrayCommand::Nothing
    }
}

/// What a command message of the tray icon's menu stands for.
pub fn decode_tray_command(wparam: u64) -> (r: TrayCommand)
    ensures
        r == tray_command(low_word(wparam)),
{
    let id: usize = command_id(wparam) as usize;
    if id == IDM_EXIT {
        TrayCommand::Exit
    } else if id == IDM_NEW_FENCE {
        TrayCommand::NewFence
    } else if id == IDM_SETTINGS {
        TrayCommand::Settings
    } else if id == IDM_SORT_UNSORTED {
        TrayCommand::SortUnsorted
    } else if id == IDM_AUTOSTART {
        TrayCommand::ToggleAutostart
    } else if id == IDM_UNDO_SORT {
        TrayCommand::UndoSort
    } else if id == IDM_SAVE_LAYOUT {
        TrayCommand::SaveLayout
    } else if IDM_RESTORE_BASE <= id && id < IDM_RESTORE_BASE + MAX_SNAPSHOTS {
        TrayCommand::Restore { index: id - IDM_RESTORE_BASE }
    } else {
        TrayCommand::Nothing
    }
}

/// The entry for a snapshot restores that snapshot.
pub proof fn law_restore_entries(labels: Seq<Seq<char>>, i: int)
    requires
        0 <= i < labels.len() <= MAX_SNAPSHOTS,
    ensures
        restore_entries(labels)[i].label == labels[i],
        tray_command(restore_entries(labels)[i].id as int) == (TrayCommand::Restore {
            index: i as usize,
        }),
{
}

pub const TIMER_SAVE: usize = 1;

pub const TIMER_REFRESH: usize = 2;

pub const TIMER_SCROLLBAR: usize = 7;

/// What a timer of the main window is for.
#[derive(Clone, Copy, PartialEq, Eq, Structural, Debug)]
pub enum TimerEvent {
    Nothing,
    /// Write the layout.
    Save,
    /// Follow the Desktop folders.
    Refresh,
}

/// What a timer of the main window is for.
pub fn decode_timer(id: usize) -> (r: TimerEvent)
    ensures
        r == if id == TIMER_SAVE {
            TimerEvent::Save
        } else if id == TIMER_REFRESH {
            TimerEvent::Refresh
        } else {
            TimerEvent::Nothing
        },
{
    if id == TIMER_SAVE {
        TimerEvent::Save
    } else if id == TIMER_REFRESH {
        TimerEvent::Refresh
    } else {
        TimerEvent::Nothing
    }
}

pub const ID_OK: u32 = 1;

pub const ID_CANCEL: u32 = 2;

pub const ID_COLOR: u32 = 20;

pub const ID_OPACITY: u32 = 21;

pub const ID_RADIUS: u32 = 22;

pub const ID_ICONSIZE: u32 = 23;

pub const ID_AUTOSTART: u32 = 24;

/// The code with which a list reports that another entry was chosen.
pub const CBN_SELCHANGE: u32 = 1;

/// Whether a preset has a value.
pub open spec fn has_value(value: u32) -> spec_fn(PresetView) -> bool {
    |p: PresetView| p.value == value
}

/// The place of a value among the presets, or `fallback` if it is none of
/// them.
pub open spec fn place_of(presets: Seq<PresetView>, value: u32, fallback: int) -> int {
    match first_index(presets, has_value(value)) {
        Some(i) => i,
        None => fallback,
    }
}

/// The place of a value among the presets.
pub fn place_of_value(presets: &Vec<Preset>, value: u32, fallback: usize) -> (r: usize)
    ensures
        r == place_of(preset_views(presets@), value, fallback as int),
{
    let ghost all = preset_views(presets@);
    let mut i: usize = 0;
    while i < presets.len()
        invariant
            all == preset_views(presets@),
            i <= presets@.len(),
            forall|j: int| 0 <= j < i ==> (#[trigger] all[j]).value != value,
        decreases presets@.len() - i,
    {
        if presets[i].value == value {
            proof {
                assert(all[i as int].value == value);
                lemma_is_first(all, has_value(value), i as int);
            }
            return i;
        }
        i = i + 1;
    }
    proof {
        lemma_is_nowhere(all, has_value(value));
    }
    fallback
}

/// A row of the settings: a label, the control, what it offers and what it
/// shows as chosen.
#[derive(Debug)]
pub struct SettingsRow {
    pub label: String,
    pub id: u32,
    pub choices: Vec<Preset>,
    pub current: usize,
}

#[verifier::ext_equal]
pub struct RowView {
    pub label: Seq<char>,
    pub id: u32,
    pub choices: Seq<PresetView>,
    pub current: usize,
}

impl View for SettingsRow {
    type V = RowView;

    open spec fn view(&self) -> RowView {
        RowView {
            label: self.label@,
            id: self.id,
            choices: preset_views(self.choices@),
            current: self.current,
        }
    }
}

pub open spec fn row_views(v: Seq<SettingsRow>) -> Seq<RowView> {
    Seq::new(v.len(), |i: int| v[i]@)
}

pub open spec fn row(
    label: Seq<char>,
    id: u32,
    choices: Seq<PresetView>,
    value: u32,
    fallback: int,
) -> RowView {
    RowView { label, id, choices, current: place_of(choices, value, fallback) as usize }
}

/// The rows of the settings.
pub open spec fn settings_rows_of(color: u32, percent: u32, radius: u32, icon_size: u32) -> Seq<
    RowView,
> {
    seq![
        row("Color"@, ID_COLOR, palette(), color, 0),
        row("Opacity"@, ID_OPACITY, opacities(), percent, 2),
        row("Corner radius"@, ID_RADIUS, radii(), radius, 2),
        row("Icon size"@, ID_ICONSIZE, icon_sizes(), icon_size, 1),
    ]
}

fn new_row(label: &str, id: u32, choices: Vec<Preset>, value: u32, fallback: usize) -> (r:
    SettingsRow)
    ensures
        r@ == row(label@, id, preset_views(choices@), value, fallback as int),
{
    let current = place_of_value(&choices, value, fallback);
    SettingsRow { label: label.to_owned(), id, choices, current }
}

/// The rows of the settings, each with the current value chosen, or a
/// standard one if the current value is not offered.
pub fn settings_rows(color: u32, percent: u32, radius: u32, icon_size: u32) -> (r: Vec<
    SettingsRow,
>)
    ensures
        row_views(r@) == settings_rows_of(color, percent, radius, icon_size),
{
    let mut v: Vec<SettingsRow> = Vec::new();
    v.push(new_row("Color", ID_COLOR, color_presets(), color, 0));
    v.push(new_row("Opacity", ID_OPACITY, opacity_presets(), percent, 2));
    v.push(new_row("Corner radius", ID_RADIUS, radius_presets(), radius, 2));
    v.push(new_row("Icon size", ID_ICONSIZE, icon_size_presets(), icon_size, 1));
    assert(row_views(v@) =~= settings_rows_of(color, percent, radius, icon_size));
    v
}

/// The look that the settings show: that of the first fence.
pub open spec fn first_look(fences: Seq<FenceView>) -> Look {
    if fences.len() > 0 {
        Look {
            color: settings_color(fences[0].color),
            opacity: fences[0].opacity,
            corner_radius: fences[0].corner_radius,
        }
    } else {
        standard_look()
    }
}

/// The look that the settings show.
pub fn settings_look(cfg: &Config) -> (r: Look)
    ensures
        r == first_look(cfg@.fences),
{
    if cfg.fences.len() > 0 {
        let f = &cfg.fences[0];
        assert(cfg@.fences[0] == f@);
        Look {
            color: current_settings_color(&f.color),
            opacity: f.opacity,
            corner_radius: f.corner_radius,
        }
    } else {
        new_standard_look()
    }
}

/// What a control of the settings asks for.
#[derive(Clone, Copy, PartialEq, Eq, Structural, Debug)]
pub enum SettingsCommand {
    Nothing,
    Close,
    Autostart,
    Color,
    Opacity,
    Radius,
    IconSize,
}

/// What a command message of the settings asks for. The lists ask for
/// something only when another entry was chosen.
pub open spec fn settings_command(wparam: u64) -> SettingsCommand {
    let id = low_word(wparam);
    let chosen = wparam as int / 0x1_0000 % 0x1_0000_0000 == CBN_SELCHANGE;
    if id == ID_CANCEL || id == ID_OK {
        SettingsCommand::Close
    } else if id == ID_AUTOSTART {
        SettingsCommand::Autostart
    } else if id == ID_COLOR && chosen {
        SettingsCommand::Color
    } else if id == ID_OPACITY && chosen {
        SettingsCommand::Opacity
    } else if id == ID_RADIUS && chosen {
        SettingsCommand::Radius
    } else if id == ID_ICONSIZE && chosen {
        SettingsCommand::IconSize
    } else {
        SettingsCommand::Nothing
    }
}

/// What a command message of the settings asks for.
pub fn decode_settings_command(wparam: u64) -> (r: SettingsCommand)
    ensures
        r == settings_command(wparam),
{
    let id = command_id(wparam);
    let chosen = command_code(wparam) == CBN_SELCHANGE;
    if id == ID_CANCEL || id == ID_OK {
        SettingsCommand::Close
    } else if id == ID_AUTOSTART {
        SettingsCommand::Autostart
    } else if !chosen {
        SettingsCommand::Nothing
    } else if id == ID_COLOR {
        SettingsCommand::Color
    } else if id == ID_OPACITY {
        SettingsCommand::Opacity
    } else if id == ID_RADIUS {
        SettingsCommand::Radius
    } else if id == ID_ICONSIZE {
        SettingsCommand::IconSize
    } else {
        SettingsCommand::Nothing
    }
}

/// What a button of the rename dialog asks for.
#[derive(Clone, Copy, PartialEq, Eq, Structural, Debug)]
pub enum RenameCommand {
    Nothing,
    Commit,
    Cancel,
}

/// What a command message of the rename dialog asks for.
pub fn decode_rename_command(wparam: u64) -> (r: RenameCommand)
    ensures
        r == if low_word(wparam) == ID_OK {
            RenameCommand::Commit
        } else if low_word(wparam) == ID_CANCEL {
            RenameCommand::Cancel
        } else {
            RenameCommand::Nothing
        },
{
    let id = command_id(wparam);
    if id == ID_OK {
        RenameCommand::Commit
    } else if id == ID_CANCEL {
        RenameCommand::Cancel
    } else {
        RenameCommand::Nothing
    }
}

/// The values to choose from, in the order in which they are offered.
pub proof fn law_values_to_choose()
    ensures
        ({
            let p = palette();
            &&& p.len() == 8
            &&& p[0].name == "Midnight"@ && p[0].value == 0x1E1E2E
            &&& p[1].name == "Charcoal"@ && p[1].value == 0x111111
            &&& p[2].name == "Slate"@ && p[2].value == 0x334155
            &&& p[3].name == "Ocean"@ && p[3].value == 0x0C4A6E
            &&& p[4].name == "Forest"@ && p[4].value == 0x14532D
            &&& p[5].name == "Plum"@ && p[5].value == 0x581C87
            &&& p[6].name == "Wine"@ && p[6].value == 0x7F1D1D
            &&& p[7].name == "Amber"@ && p[7].value == 0x78350F
        }),
        ({
            let p = opacities();
            &&& p.len() == 4
            &&& p[0].name == "50%"@ && p[0].value == 50
            &&& p[1].name == "65%"@ && p[1].value == 65
            &&& p[2].name == "78%"@ && p[2].value == 78
            &&& p[3].name == "90%"@ && p[3].value == 90
        }),
        ({
            let p = radii();
            &&& p.len() == 4
            &&& p[0].name == "0"@ && p[0].value == 0
            &&& p[1].name == "6"@ && p[1].value == 6
            &&& p[2].name == "12"@ && p[2].value == 12
            &&& p[3].name == "20"@ && p[3].value == 20
        }),
        ({
            let p = icon_sizes();
            &&& p.len() == 3
            &&& p[0].name == "Small"@ && p[0].value == 32
            &&& p[1].name == "Medium"@ && p[1].value == 48
            &&& p[2].name == "Large"@ && p[2].value == 64
        }),
{
}

/// A list of values has one entry for each, under its name and never grayed, and
/// marks those that are the current value.
pub proof fn law_entries_for_values(base: usize, presets: Seq<PresetView>, current: u32, i: int)
    requires
        0 <= i < presets.len(),
        base + presets.len() <= usize::MAX,
    ensures
        preset_entries(base, presets, current).len() == presets.len(),
        preset_entries(base, presets, current)[i].id == base + i,
        preset_entries(base, presets, current)[i].label == presets[i].name,
        preset_entries(base, presets, current)[i].checked <==> presets[i].value == current,
        !preset_entries(base, presets, current)[i].grayed,
{
}

/// A command of a menu has the number, the label and the marks that it is given.
pub proof fn law_command(id: usize, label: Seq<char>, checked: bool, grayed: bool)
    ensures
        command(id, label, checked, grayed) is Command,
        command(id, label, checked, grayed)->entry.id == id,
        command(id, label, checked, grayed)->entry.label == label,
        command(id, label, checked, grayed)->entry.checked == checked,
        command(id, label, checked, grayed)->entry.grayed == grayed,
{
}

/// The menu of a fence, from top to bottom. Only the deletion can be grayed, and
/// is so exactly where the fence may not be deleted. Each list marks its own
/// current value.
pub proof fn law_menu_of_a_fence(
    deletable: bool,
    color: u32,
    percent: u32,
    radius: u32,
    icon_size: u32,
)
    ensures
        ({
            let m = fence_menu_of(deletable, color, percent, radius, icon_size);
            &&& m.len() == 9
            &&& m[0] == command(101, "Rename"@, false, false)
            &&& m[1] == command(102, "Sorting rules…"@, false, false)
            &&& m[2] == command(103, "Sort by color"@, false, false)
            &&& m[3]->label == "Color"@ && m[3]->entries == preset_entries(110, palette(), color)
            &&& m[4]->label == "Opacity"@ && m[4]->entries == preset_entries(
                120,
                opacities(),
                percent,
            )
            &&& m[5]->label == "Corner radius"@ && m[5]->entries == preset_entries(
                130,
                radii(),
                radius,
            )
            &&& m[6]->label == "Icon size"@ && m[6]->entries == preset_entries(
                140,
                icon_sizes(),
                icon_size,
            )
            &&& m[7] is Separator
            &&& m[8] == command(100, "Delete fence"@, false, !deletable)
        }),
{
}

/// What the entries of a fence's menu stand for, each by its number.
pub proof fn law_commands_of_a_fence(id: usize)
    ensures
        fence_command(100) is Delete,
        fence_command(101) is Rename,
        fence_command(102) is EditRules,
        fence_command(103) is SortByColor,
        110 <= id < 118 ==> fence_command(id) == (FenceCommand::Color {
            hex: palette()[id - 110].value,
        }),
        120 <= id < 124 ==> fence_command(id) == (FenceCommand::Opacity {
            percent: opacities()[id - 120].value,
        }),
        130 <= id < 134 ==> fence_command(id) == (FenceCommand::Radius {
            radius: radii()[id - 130].value,
        }),
        140 <= id < 143 ==> fence_command(id) == (FenceCommand::IconSize {
            size: icon_sizes()[id - 140].value,
        }),
        id < 100 || 104 <= id < 110 || 118 <= id < 120 || 124 <= id < 130 || 134 <= id < 140 || id
            >= 143 ==> fence_command(id) is Nothing,
{
}

/// The menu of the tray icon, from top to bottom. The undo is grayed where there
/// is nothing to undo, and starting with the system is marked where it is on.
/// Without a snapshot the list of them has one grayed entry that asks for
/// nothing.
pub proof fn law_menu_of_the_tray(undoable: bool, labels: Seq<Seq<char>>, autostart: bool, i: int)
    ensures
        ({
            let m = tray_menu_of(undoable, labels, autostart);
            &&& m.len() == 8
            &&& m[0] == command(2, "New Fence"@, false, false)
            &&& m[1] == command(4, "Sort Unsorted now"@, false, false)
            &&& m[2] == command(6, "Undo last sort"@, false, !undoable)
            &&& m[3] == command(7, "Save layout"@, false, false)
            &&& m[4]->label == "Restore layout"@
            &&& m[5] == command(5, "Start with Windows"@, autostart, false)
            &&& m[6] == command(3, "Settings…"@, false, false)
            &&& m[7] == command(1, "Exit"@, false, false)
            &&& labels.len() == 0 ==> m[4]->entries == seq![
                EntryView { id: 0, label: "(no snapshots)"@, checked: false, grayed: true },
            ]
            &&& labels.len() > 0 ==> m[4]->entries.len() == labels.len()
            &&& 0 <= i < labels.len() <= 10 ==> m[4]->entries[i] == (EntryView {
                id: (700 + i) as usize,
                label: labels[i],
                checked: false,
                grayed: false,
            })
        }),
        tray_command(0) is Nothing,
{
}

/// What the entries of the tray icon's menu stand for, each by its number.
pub proof fn law_commands_of_the_tray(id: int)
    ensures
        tray_command(1) is Exit,
        tray_command(2) is NewFence,
        tray_command(3) is Settings,
        tray_command(4) is SortUnsorted,
        tray_command(5) is ToggleAutostart,
        tray_command(6) is UndoSort,
        tray_command(7) is SaveLayout,
        700 <= id < 710 ==> tray_command(id) == (TrayCommand::Restore {
            index: (id - 700) as usize,
        }),
        id < 1 || 7 < id < 700 || id >= 710 ==> tray_command(id) is Nothing,
{
}

/// The look of a fence is its own, and its menu offers to delete it unless it is
/// the catch-all fence and holds something. Where there is no fence, the look is
/// the standard one and nothing is to be deleted.
pub proof fn law_look_of_a_fence(fences: Seq<FenceView>, id: Seq<char>, i: int)
    ensures
        0 <= i < fences.len() && fences[i].id == id && (forall|j: int|
            0 <= j < i ==> (#[trigger] fences[j]).id != id) ==> {
            let (deletable, look) = look_of(fences, id);
            &&& deletable <==> !(fences[i].title == "Unsorted"@ && fences[i].items.len() > 0)
            &&& look.color == menu_color(fences[i].color)
            &&& look.opacity == fences[i].opacity
            &&& look.corner_radius == fences[i].corner_radius
        },
        (forall|j: int| 0 <= j < fences.len() ==> (#[trigger] fences[j]).id != id) ==> {
            let (deletable, look) = look_of(fences, id);
            &&& !deletable
            &&& look.color == 0x1E1E2E
            &&& look.opacity.bits == 0x3F47_AE14u32
            &&& look.corner_radius.bits == 0x4140_0000u32
        },
        fences.len() > 0 ==> first_look(fences).color == settings_color(fences[0].color)
            && first_look(fences).opacity == fences[0].opacity && first_look(fences).corner_radius
            == fences[0].corner_radius,
        fences.len() == 0 ==> first_look(fences).color == 0x1E1E2E && first_look(
            fences,
        ).opacity.bits == 0x3F47_AE14u32 && first_look(fences).corner_radius.bits == 0x4140_0000u32,
{
    if 0 <= i < fences.len() && fences[i].id == id && (forall|j: int|
        0 <= j < i ==> (#[trigger] fences[j]).id != id) {
        lemma_is_first(fences, crate::config::has_id(id), i);
    }
    if forall|j: int| 0 <= j < fences.len() ==> (#[trigger] fences[j]).id != id {
        lemma_is_nowhere(fences, crate::config::has_id(id));
    }
}

/// The place of a value is the first at which it is offered, or the fallback
/// where it is not.
pub proof fn law_place_of_a_value(presets: Seq<PresetView>, value: u32, fallback: int, i: int)
    ensures
        0 <= i < presets.len() && presets[i].value == value && (forall|j: int|
            0 <= j < i ==> (#[trigger] presets[j]).value != value) ==> place_of(
            presets,
            value,
            fallback,
        ) == i,
        (forall|j: int| 0 <= j < presets.len() ==> (#[trigger] presets[j]).value != value)
            ==> place_of(presets, value, fallback) == fallback,
{
    if 0 <= i < presets.len() && presets[i].value == value && (forall|j: int|
        0 <= j < i ==> (#[trigger] presets[j]).value != value) {
        lemma_is_first(presets, has_value(value), i);
    }
    if forall|j: int| 0 <= j < presets.len() ==> (#[trigger] presets[j]).value != value {
        lemma_is_nowhere(presets, has_value(value));
    }
}

/// The rows of the settings: each offers its own values and shows the current
/// one. Where that is not offered, it shows the color "Midnight", 78 percent, a
/// radius of 12 and medium icons.
pub proof fn law_rows_of_the_settings(color: u32, percent: u32, radius: u32, icon_size: u32)
    ensures
        ({
            let r = settings_rows_of(color, percent, radius, icon_size);
            &&& r.len() == 4
            &&& r[0].label == "Color"@ && r[0].id == 20 && r[0].choices == palette()
            &&& r[1].label == "Opacity"@ && r[1].id == 21 && r[1].choices == opacities()
            &&& r[2].label == "Corner radius"@ && r[2].id == 22 && r[2].choices == radii()
            &&& r[3].label == "Icon size"@ && r[3].id == 23 && r[3].choices == icon_sizes()
            &&& r[0].current < 8 && r[1].current < 4 && r[2].current < 4 && r[3].current < 3
            &&& r[0].choices[r[0].current as int].value == color || (r[0].current == 0
                && forall|i: int|
                0 <= i < 8 ==> (#[trigger] palette()[i]).value != color)
            &&& r[1].choices[r[1].current as int].value == percent || (r[1].current == 2
                && forall|i: int|
                0 <= i < 4 ==> (#[trigger] opacities()[i]).value != percent)
            &&& r[2].choices[r[2].current as int].value == radius || (r[2].current == 2
                && forall|i: int|
                0 <= i < 4 ==> (#[trigger] radii()[i]).value != radius)
            &&& r[3].choices[r[3].current as int].value == icon_size || (r[3].current == 1
                && forall|i: int|
                0 <= i < 3 ==> (#[trigger] icon_sizes()[i]).value != icon_size)
        }),
{
    lemma_first_index(palette(), has_value(color));
    lemma_first_index(opacities(), has_value(percent));
    lemma_first_index(radii(), has_value(radius));
    lemma_first_index(icon_sizes(), has_value(icon_size));
    assert(palette().len() == 8);
    assert(opacities().len() == 4);
    assert(radii().len() == 4);
    assert(icon_sizes().len() == 3);
    let r = settings_rows_of(color, percent, radius, icon_size);
    assert(first_index(palette(), has_value(color)) is None ==> forall|i: int|
        0 <= i < 8 ==> (#[trigger] palette()[i]).value != color) by {
        if first_index(palette(), has_value(color)) is None {
            assert forall|i: int| 0 <= i < 8 implies (#[trigger] palette()[i]).value != color by {
                assert(!has_value(color)(palette()[i]));
            }
        }
    }
    assert(first_index(opacities(), has_value(percent)) is None ==> forall|i: int|
        0 <= i < 4 ==> (#[trigger] opacities()[i]).value != percent) by {
        if first_index(opacities(), has_value(percent)) is None {
            assert forall|i: int| 0 <= i < 4 implies (#[trigger] opacities()[i]).value
                != percent by {
                assert(!has_value(percent)(opacities()[i]));
            }
        }
    }
    assert(first_index(radii(), has_value(radius)) is None ==> forall|i: int|
        0 <= i < 4 ==> (#[trigger] radii()[i]).value != radius) by {
        if first_index(radii(), has_value(radius)) is None {
            assert forall|i: int| 0 <= i < 4 implies (#[trigger] radii()[i]).value != radius by {
                assert(!has_value(radius)(radii()[i]));
            }
        }
    }
    assert(first_index(icon_sizes(), has_value(icon_size)) is None ==> forall|i: int|
        0 <= i < 3 ==> (#[trigger] icon_sizes()[i]).value != icon_size) by {
        if first_index(icon_sizes(), has_value(icon_size)) is None {
            assert forall|i: int| 0 <= i < 3 implies (#[trigger] icon_sizes()[i]).value
                != icon_size by {
                assert(!has_value(icon_size)(icon_sizes()[i]));
            }
        }
    }
}

/// The buttons of the settings ask for something whatever the code of the
/// message, and the lists only where the code says that another entry was
/// chosen.
pub proof fn law_commands_of_the_settings(wparam: u64, id: int, code: int)
    requires
        id == wparam as int % 0x1_0000,
        code == wparam as int / 0x1_0000 % 0x1_0000_0000,
    ensures
        id == 1 || id == 2 ==> settings_command(wparam) is Close,
        id == 24 ==> settings_command(wparam) is Autostart,
        id == 20 && code == 1 ==> settings_command(wparam) is Color,
        id == 21 && code == 1 ==> settings_command(wparam) is Opacity,
        id == 22 && code == 1 ==> settings_command(wparam) is Radius,
        id == 23 && code == 1 ==> settings_command(wparam) is IconSize,
        20 <= id <= 23 && code != 1 ==> settings_command(wparam) is Nothing,
        id == 0 || 2 < id < 20 || id > 24 ==> settings_command(wparam) is Nothing,
{
}

} // verus!
