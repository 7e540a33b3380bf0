//! The dialogs: their sizes and the controls in them.

use vstd::prelude::*;
use crate::geometry::{scale, scaled};
use crate::menu::{row_views, RowView, SettingsRow, ID_AUTOSTART, ID_CANCEL, ID_OK};
use crate::rules_ui::{ID_ADD, ID_COMBO, ID_EDIT, ID_LIST, ID_REMOVE};

verus! {

/// What a control is.
#[derive(Clone, Copy, PartialEq, Eq, Structural, Debug)]
pub enum ControlKind {
    Label,
    /// A list of which one entry shows.
    Choice,
    Edit,
    Button,
    /// The button that Enter presses.
    DefaultButton,
    Check,
    /// A list of which all entries show.
    List,
}

/// Where a control stands, in pixels.
#[derive(Clone, Copy, PartialEq, Eq, Structural, Debug)]
pub struct Place {
    pub x: u64,
    pub y: u64,
    pub w: u64,
    pub h: u64,
}

/// A control of a dialog.
#[derive(Debug)]
pub struct Control {
    pub kind: ControlKind,
    pub text: String,
    pub place: Place,
    pub id: u32,
    pub visible: bool,
}

#[verifier::ext_equal]
pub struct ControlView {
    pub kind: ControlKind,
    pub text: Seq<char>,
    pub place: Place,
    pub id: u32,
    pub visible: bool,
}

impl View for Control {
    type V = ControlView;

    open spec fn view(&self) -> ControlView {
        ControlView {
            kind: self.kind,
            text: self.text@,
            place: self.place,
            id: self.id,
            visible: self.visible,
        }
    }
}

pub open spec fn control_views(v: Seq<Control>) -> Seq<ControlView> {
    Seq::new(v.len(), |i: int| v[i]@)
}

/// A place that is given for 96 dots per inch, at another resolution.
pub open spec fn place_at(x: u32, y: u32, w: u32, h: u32, dpi: u32) -> Place {
    Place {
        x: scaled(x as int, dpi as int) as u64,
        y: scaled(y as int, dpi as int) as u64,
        w: scaled(w as int, dpi as int) as u64,
        h: scaled(h as int, dpi as int) as u64,
    }
}

fn place(x: u32, y: u32, w: u32, h: u32, dpi: u32) -> (r: Place)
    ensures
        r == place_at(x, y, w, h, dpi),
{
    Place { x: scale(x, dpi), y: scale(y, dpi), w: scale(w, dpi), h: scale(h, dpi) }
}

pub open spec fn control(
    kind: ControlKind,
    text: Seq<char>,
    place: Place,
    id: u32,
) -> ControlView {
    ControlView { kind, text, place, id, visible: true }
}

fn new_control(kind: ControlKind, text: &str, place: Place, id: u32) -> (r: Control)
    ensures
        r@ == control(kind, text@, place, id),
{
    Control { kind, text: text.to_owned(), place, id, visible: true }
}

/// The width and height of a dialog, and the height of its font.
#[derive(Clone, Copy, PartialEq, Eq, Structural, Debug)]
pub struct DialogSize {
    pub w: u64,
    pub h: u64,
    pub font: u64,
}

pub open spec fn size_at(w: u32, h: u32, dpi: u32) -> DialogSize {
    DialogSize {
        w: scaled(w as int, dpi as int) as u64,
        h: scaled(h as int, dpi as int) as u64,
        font: scaled(15, dpi as int) as u64,
    }
}

/// The size of the dialog for sorting rules.
pub fn rules_dialog_size(dpi: u32) -> (r: DialogSize)
    ensures
        r == size_at(430, 345, dpi),
{
    DialogSize { w: scale(430, dpi), h: scale(345, dpi), font: scale(15, dpi) }
}

/// The controls of the dialog for sorting rules. The text field is hidden until
/// a choice takes a text.
pub open spec fn rules_dialog_of(dpi: u32) -> Seq<ControlView> {
    seq![
        control(ControlKind::Label, "Move files that"@, place_at(10, 16, 96, 20, dpi), 0),
        control(ControlKind::Choice, ""@, place_at(110, 12, 170, 220, dpi), ID_COMBO),
        control(ControlKind::Label, "into this fence."@, place_at(286, 16, 110, 20, dpi), 0),
        ControlView {
            visible: false,
            ..control(ControlKind::Edit, ""@, place_at(110, 44, 170, 24, dpi), ID_EDIT)
        },
        control(ControlKind::DefaultButton, "Add rule"@, place_at(10, 78, 90, 26, dpi), ID_ADD),
        control(ControlKind::Button, "Cancel"@, place_at(108, 78, 80, 26, dpi), ID_CANCEL),
        control(ControlKind::List, ""@, place_at(10, 116, 302, 180, dpi), ID_LIST),
        control(ControlKind::Button, "Remove"@, place_at(320, 116, 84, 26, dpi), ID_REMOVE),
    ]
}

/// The controls of the dialog for sorting rules.
pub fn rules_dialog(dpi: u32) -> (r: Vec<Control>)
    ensures
        control_views(r@) == rules_dialog_of(dpi),
{
    let mut edit = new_control(ControlKind::Edit, "", place(110, 44, 170, 24, dpi), ID_EDIT);
    edit.visible = false;
    let mut v: Vec<Control> = Vec::new();
    v.push(new_control(ControlKind::Label, "Move files that", place(10, 16, 96, 20, dpi), 0));
    v.push(new_control(ControlKind::Choice, "", place(110, 12, 170, 220, dpi), ID_COMBO));
    v.push(new_control(ControlKind::Label, "into this fence.", place(286, 16, 110, 20, dpi), 0));
    v.push(edit);
    v.push(new_control(ControlKind::DefaultButton, "Add rule", place(10, 78, 90, 26, dpi), ID_ADD));
    v.push(new_control(ControlKind::Button, "Cancel", place(108, 78, 80, 26, dpi), ID_CANCEL));
    v.push(new_control(ControlKind::List, "", place(10, 116, 302, 180, dpi), ID_LIST));
    v.push(new_control(ControlKind::Button, "Remove", place(320, 116, 84, 26, dpi), ID_REMOVE));
    assert(control_views(v@) =~= rules_dialog_of(dpi));
    v
}

/// The resolution for the settings: at least 96.
pub open spec fn settings_dpi(dpi: u32) -> u32 {
    if dpi > 96 {
        dpi
    } else {
        96
    }
}

/// The size of the settings.
pub fn settings_dialog_size(dpi: u32) -> (r: DialogSize)
    ensures
        r == size_at(320, 260, settings_dpi(dpi)),
{
    let dpi = if dpi > 96 {
        dpi
    } else {
        96
    };
    DialogSize { w: scale(320, dpi), h: scale(260, dpi), font: scale(15, dpi) }
}

/// The label of a row of the settings.
pub open spec fn row_label(row: RowView, i: int, dpi: u32) -> ControlView {
    control(ControlKind::Label, row.label, place_at(12, (18 + 36 * i) as u32, 110, 20, dpi), 0)
}

/// The list of a row of the settings.
pub open spec fn row_choice(row: RowView, i: int, dpi: u32) -> ControlView {
    control(ControlKind::Choice, ""@, place_at(130, (14 + 36 * i) as u32, 168, 200, dpi), row.id)
}

/// The controls of the settings: the rows, whether the program starts with the
/// system, and the button that closes them.
pub open spec fn settings_dialog_of(rows: Seq<RowView>, dpi: u32) -> Seq<ControlView> {
    seq![
        row_label(rows[0], 0, dpi),
        row_choice(rows[0], 0, dpi),
        row_label(rows[1], 1, dpi),
        row_choice(rows[1], 1, dpi),
        row_label(rows[2], 2, dpi),
        row_choice(rows[2], 2, dpi),
        row_label(rows[3], 3, dpi),
        row_choice(rows[3], 3, dpi),
        control(
            ControlKind::Check,
            "Start with Windows"@,
            place_at(12, 162, 200, 24, dpi),
            ID_AUTOSTART,
        ),
        control(ControlKind::DefaultButton, "Close"@, place_at(216, 196, 82, 26, dpi), ID_CANCEL),
    ]
}

fn push_row(v: &mut Vec<Control>, row: &SettingsRow, i: u32, dpi: u32)
    requires
        i < 4,
    ensures
        control_views(final(v)@) == control_views(old(v)@).push(
            row_label(row@, i as int, dpi),
        ).push(row_choice(row@, i as int, dpi)),
{
    let ghost before = control_views(v@);
    let label = new_control(
        ControlKind::Label,
        &row.label,
        place(12, 18 + 36 * i, 110, 20, dpi),
        0,
    );
    v.push(label);
    assert(control_views(v@) =~= before.push(row_label(row@, i as int, dpi)));
    let choice = new_control(
        ControlKind::Choice,
        "",
        place(130, 14 + 36 * i, 168, 200, dpi),
        row.id,
    );
    v.push(choice);
    assert(control_views(v@) =~= before.push(row_label(row@, i as int, dpi)).push(
        row_choice(row@, i as int, dpi),
    ));
}

/// The controls of the settings for the rows that `settings_rows` gives.
pub fn settings_dialog(rows: &Vec<SettingsRow>, dpi: u32) -> (r: Vec<Control>)
    requires
        rows@.len() == 4,
    ensures
        control_views(r@) == settings_dialog_of(row_views(rows@), settings_dpi(dpi)),
{
    let dpi = if dpi > 96 {
        dpi
    } else {
        96
    };
    let mut v: Vec<Control> = Vec::new();
    push_row(&mut v, &rows[0], 0, dpi);
    push_row(&mut v, &rows[1], 1, dpi);
    push_row(&mut v, &rows[2], 2, dpi);
    push_row(&mut v, &rows[3], 3, dpi);
    let ghost before = control_views(v@);
    let check = new_control(
        ControlKind::Check,
        "Start with Windows",
        place(12, 162, 200, 24, dpi),
        ID_AUTOSTART,
    );
    let close = new_control(
        ControlKind::DefaultButton,
        "Close",
        place(216, 196, 82, 26, dpi),
        ID_CANCEL,
    );
    let ghost last = seq![check@, close@];
    v.push(check);
    v.push(close);
    proof {
        let all = row_views(rows@);
        assert(all[0] == rows@[0]@ && all[1] == rows@[1]@ && all[2] == rows@[2]@ && all[3]
            == rows@[3]@);
        assert(before.len() == 8);
        assert(control_views(v@) =~= before + last);
        assert(control_views(v@) =~= settings_dialog_of(all, dpi));
    }
    v
}

/// The width and height of the rename dialog.
pub const RENAME_WIDTH: i32 = 280;

pub const RENAME_HEIGHT: i32 = 130;

/// The control that holds the new title.
pub const ID_TITLE: u32 = 100;

/// The controls of the rename dialog, which shows the title that the fence
/// has. They have one size at every resolution.
pub open spec fn rename_dialog_of(title: Seq<char>) -> Seq<ControlView> {
    seq![
        control(ControlKind::Edit, title, place_at(10, 12, 244, 24, 96), ID_TITLE),
        control(ControlKind::DefaultButton, "OK"@, place_at(98, 52, 75, 26, 96), ID_OK),
        control(ControlKind::Button, "Cancel"@, place_at(179, 52, 75, 26, 96), ID_CANCEL),
    ]
}

/// The controls of the rename dialog.
pub fn rename_dialog(title: &str) -> (r: Vec<Control>)
    ensures
        control_views(r@) == rename_dialog_of(title@),
{
    let mut v: Vec<Control> = Vec::new();
    v.push(new_control(ControlKind::Edit, title, place(10, 12, 244, 24, 96), ID_TITLE));
    v.push(new_control(ControlKind::DefaultButton, "OK", place(98, 52, 75, 26, 96), ID_OK));
    v.push(new_control(ControlKind::Button, "Cancel", place(179, 52, 75, 26, 96), ID_CANCEL));
    assert(control_views(v@) =~= rename_dialog_of(title@));
    v
}

/// Whether a place is a given one at 96 dots per inch, made larger or smaller
/// with the resolution and rounded down.
pub open spec fn stands_at(p: Place, x: int, y: int, w: int, h: int, dpi: u32) -> bool {
    &&& 96 * p.x <= x * dpi < 96 * (p.x + 1)
    &&& 96 * p.y <= y * dpi < 96 * (p.y + 1)
    &&& 96 * p.w <= w * dpi < 96 * (p.w + 1)
    &&& 96 * p.h <= h * dpi < 96 * (p.h + 1)
}

/// Places and sizes grow with the resolution.
pub proof fn law_places_grow(x: u32, y: u32, w: u32, h: u32, dpi: u32)
    ensures
        stands_at(place_at(x, y, w, h, dpi), x as int, y as int, w as int, h as int, dpi),
        96 * size_at(w, h, dpi).w <= w * dpi < 96 * (size_at(w, h, dpi).w + 1),
        96 * size_at(w, h, dpi).h <= h * dpi < 96 * (size_at(w, h, dpi).h + 1),
        96 * size_at(w, h, dpi).font <= 15 * dpi < 96 * (size_at(w, h, dpi).font + 1),
        settings_dpi(dpi) >= 96 && settings_dpi(dpi) >= dpi && (settings_dpi(dpi) == 96
            || settings_dpi(dpi) == dpi),
{
    lemma_scaled(x, dpi);
    lemma_scaled(y, dpi);
    lemma_scaled(w, dpi);
    lemma_scaled(h, dpi);
}

proof fn lemma_scaled(v: u32, dpi: u32)
    ensures
        0 <= scaled(v as int, dpi as int) <= u64::MAX,
        96 * scaled(v as int, dpi as int) <= v * dpi < 96 * (scaled(v as int, dpi as int) + 1),
{
    crate::geometry::law_scaling(v as int, dpi as int);
    assert(0 <= v * dpi <= 0xFFFF_FFFF * 0xFFFF_FFFF) by (nonlinear_arith)
        requires
            0 <= v <= 0xFFFF_FFFF,
            0 <= dpi <= 0xFFFF_FFFF,
    ;
}

/// The controls of the dialog for sorting rules: only the text field is hidden.
pub proof fn law_rules_dialog(dpi: u32)
    ensures
        ({
            let c = rules_dialog_of(dpi);
            &&& c.len() == 8
            &&& c[0].kind is Label && c[0].text == "Move files that"@ && c[0].id == 0
            &&& stands_at(c[0].place, 10, 16, 96, 20, dpi)
            &&& c[1].kind is Choice && c[1].text == ""@ && c[1].id == 10
            &&& stands_at(c[1].place, 110, 12, 170, 220, dpi)
            &&& c[2].kind is Label && c[2].text == "into this fence."@ && c[2].id == 0
            &&& stands_at(c[2].place, 286, 16, 110, 20, dpi)
            &&& c[3].kind is Edit && c[3].text == ""@ && c[3].id == 11
            &&& stands_at(c[3].place, 110, 44, 170, 24, dpi)
            &&& c[4].kind is DefaultButton && c[4].text == "Add rule"@ && c[4].id == 1
            &&& stands_at(c[4].place, 10, 78, 90, 26, dpi)
            &&& c[5].kind is Button && c[5].text == "Cancel"@ && c[5].id == 2
            &&& stands_at(c[5].place, 108, 78, 80, 26, dpi)
            &&& c[6].kind is List && c[6].text == ""@ && c[6].id == 12
            &&& stands_at(c[6].place, 10, 116, 302, 180, dpi)
            &&& c[7].kind is Button && c[7].text == "Remove"@ && c[7].id == 3
            &&& stands_at(c[7].place, 320, 116, 84, 26, dpi)
            &&& forall|i: int| 0 <= i < 8 ==> ((#[trigger] c[i]).visible <==> i != 3)
        }),
{
    law_places_grow(10, 16, 96, 20, dpi);
    law_places_grow(110, 12, 170, 220, dpi);
    law_places_grow(286, 16, 110, 20, dpi);
    law_places_grow(110, 44, 170, 24, dpi);
    law_places_grow(10, 78, 90, 26, dpi);
    law_places_grow(108, 78, 80, 26, dpi);
    law_places_grow(10, 116, 302, 180, dpi);
    law_places_grow(320, 116, 84, 26, dpi);
}

/// The controls of the settings: every row has a label and a list beside it, 36
/// pixels below those of the row before.
pub proof fn law_settings_dialog(rows: Seq<RowView>, dpi: u32, i: int)
    requires
        rows.len() == 4,
        0 <= i < 4,
    ensures
        ({
            let c = settings_dialog_of(rows, dpi);
            let label = c[2 * i];
            let list = c[2 * i + 1];
            &&& c.len() == 10
            &&& label.kind is Label && label.text == rows[i].label && label.id == 0
            &&& label.visible && stands_at(label.place, 12, 18 + 36 * i, 110, 20, dpi)
            &&& list.kind is Choice && list.text == ""@ && list.id == rows[i].id
            &&& list.visible && stands_at(list.place, 130, 14 + 36 * i, 168, 200, dpi)
            &&& c[8].kind is Check && c[8].text == "Start with Windows"@ && c[8].id == 24
            &&& c[8].visible && stands_at(c[8].place, 12, 162, 200, 24, dpi)
            &&& c[9].kind is DefaultButton && c[9].text == "Close"@ && c[9].id == 2
            &&& c[9].visible && stands_at(c[9].place, 216, 196, 82, 26, dpi)
        }),
{
    law_places_grow(12, (18 + 36 * i) as u32, 110, 20, dpi);
    law_places_grow(130, (14 + 36 * i) as u32, 168, 200, dpi);
    law_places_grow(12, 162, 200, 24, dpi);
    law_places_grow(216, 196, 82, 26, dpi);
    assert(i == 0 || i == 1 || i == 2 || i == 3);
}

/// The controls of the rename dialog: the title that the fence has can be
/// edited, and two buttons keep the change or drop it.
pub proof fn law_rename_dialog(title: Seq<char>)
    ensures
        ({
            let c = rename_dialog_of(title);
            &&& c.len() == 3
            &&& c[0].kind is Edit && c[0].text == title && c[0].id == 100 && c[0].visible
            &&& c[0].place == (Place { x: 10, y: 12, w: 244, h: 24 })
            &&& c[1].kind is DefaultButton && c[1].text == "OK"@ && c[1].id == 1 && c[1].visible
            &&& c[1].place == (Place { x: 98, y: 52, w: 75, h: 26 })
            &&& c[2].kind is Button && c[2].text == "Cancel"@ && c[2].id == 2 && c[2].visible
            &&& c[2].place == (Place { x: 179, y: 52, w: 75, h: 26 })
        }),
{
    law_places_grow(10, 12, 244, 24, 96);
    law_places_grow(98, 52, 75, 26, 96);
    law_places_grow(179, 52, 75, 26, 96);
}

} // verus!
