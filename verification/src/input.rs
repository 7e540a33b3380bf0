//! What window messages carry: packed coordinates, key states, commands and
//! position flags.

use vstd::prelude::*;
use crate::geometry::Point;

verus! {

/// A sixteen-bit word read as a signed number.
pub open spec fn signed_word(w: int) -> int {
    if w < 0x8000 {
        w
    } else {
        w - 0x1_0000
    }
}

/// The low word of a message parameter.
pub open spec fn low_word(v: u64) -> int {
    v as int % 0x1_0000
}

/// The word above the low one.
pub open spec fn high_word(v: u64) -> int {
    v as int / 0x1_0000 % 0x1_0000
}

fn signed(w: u64) -> (r: i32)
    requires
        w < 0x1_0000,
    ensures
        r == signed_word(w as int),
{
    if w < 0x8000 {
        w as i32
    } else {
        w as i32 - 0x1_0000
    }
}

/// The point that a mouse message carries: two signed words.
pub fn point_of(lparam: u64) -> (r: Point)
    ensures
        r.x == signed_word(low_word(lparam)),
        r.y == signed_word(high_word(lparam)),
{
    Point { x: signed(lparam % 0x1_0000), y: signed(lparam / 0x1_0000 % 0x1_0000) }
}

/// The signed distance that a wheel message carries in its high word.
pub fn wheel_delta(wparam: u64) -> (r: i32)
    ensures
        r == signed_word(high_word(wparam)),
{
    signed(wparam / 0x1_0000 % 0x1_0000)
}

/// Whether the control key was down: bit 3 of the key state.
pub fn control_held(wparam: u64) -> (r: bool)
    ensures
        r == (wparam as int / 8 % 2 == 1),
{
    wparam / 8 % 2 == 1
}

/// The command of a command message: its low word.
pub fn command_id(wparam: u64) -> (r: u32)
    ensures
        r == low_word(wparam),
{
    (wparam % 0x1_0000) as u32
}

/// The notification code of a command message: what stands above its low
/// word, as far as 32 bits hold it.
pub fn command_code(wparam: u64) -> (r: u32)
    ensures
        r == wparam as int / 0x1_0000 % 0x1_0000_0000,
{
    (wparam / 0x1_0000 % 0x1_0000_0000) as u32
}

/// The width and height that a size message carries.
pub fn size_of_client(lparam: u64) -> (r: (u32, u32))
    ensures
        r.0 == low_word(lparam),
        r.1 == high_word(lparam),
{
    ((lparam % 0x1_0000) as u32, (lparam / 0x1_0000 % 0x1_0000) as u32)
}

/// Set where a window must not be activated.
pub const SWP_NOACTIVATE: u32 = 0x10;

/// Set where a window keeps its place in the z-order.
pub const SWP_NOZORDER: u32 = 0x04;

/// The flags of a change of position that pins a fence to the bottom of the
/// z-order: it is not activated, its place in the z-order is set, and the
/// other flags are as they were.
pub fn pinned_flags(flags: u32) -> (r: u32)
    ensures
        r & SWP_NOACTIVATE == SWP_NOACTIVATE,
        r & SWP_NOZORDER == 0,
        r & !(SWP_NOACTIVATE | SWP_NOZORDER) == flags & !(SWP_NOACTIVATE | SWP_NOZORDER),
{
    let r = (flags | SWP_NOACTIVATE) & !SWP_NOZORDER;
    assert(r & 0x10 == 0x10 && r & 0x04 == 0 && r & !(0x10u32 | 0x04u32) == flags & !(0x10u32
        | 0x04u32)) by (bit_vector)
        requires
            r == (flags | 0x10u32) & !0x04u32,
    ;
    r
}

fn word(v: i64) -> (r: u32)
    requires
        -0x1_0000_0000 <= v <= 0x1_0000_0000,
    ensures
        r == v as int % 0x1_0000,
{
    let m = (v + 0x1_0000_0000) % 0x1_0000;
    m as u32
}

/// Where a tooltip goes for a cursor at `pt`, as its two packed words: twelve
/// pixels to the right and twenty-four below.
pub fn tooltip_position(pt: Point) -> (r: u32)
    ensures
        r == (pt.y + 24) % 0x1_0000 * 0x1_0000 + (pt.x + 12) % 0x1_0000,
{
    word(pt.y as i64 + 24) * 0x1_0000 + word(pt.x as i64 + 12)
}

/// Right button released.
pub const WM_RBUTTONUP: u32 = 0x205;

/// A context menu is asked for.
pub const WM_CONTEXTMENU: u32 = 0x7B;

/// Whether what the mouse did on the tray icon opens its menu.
pub fn tray_opens_menu(mouse_msg: u32) -> (r: bool)
    ensures
        r == (mouse_msg == WM_RBUTTONUP || mouse_msg == WM_CONTEXTMENU),
{
    mouse_msg == WM_RBUTTONUP || mouse_msg == WM_CONTEXTMENU
}

/// A message parameter is made of its words, the low one first, and a word that
/// is read as a signed number differs from itself by a multiple of what a word
/// can count, if at all.
pub proof fn law_words(v: u64, w: int)
    ensures
        v == low_word(v) + 0x1_0000 * high_word(v) + 0x1_0000_0000 * (v as int / 0x1_0000_0000),
        0 <= low_word(v) < 0x1_0000,
        0 <= high_word(v) < 0x1_0000,
        0 <= w < 0x1_0000 ==> -0x8000 <= signed_word(w) <= 0x7FFF,
        0 <= w < 0x1_0000 ==> signed_word(w) % 0x1_0000 == w,
{
}

} // verus!
