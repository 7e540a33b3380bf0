//! What is drawn in a fence: the names under the icons and the cells of the
//! grid.

use vstd::prelude::*;
use crate::path::{
    extension_of_name, file_name, name_extension, name_stem, path_file_name, stem_of_name,
};
use crate::text::{
    ascii_lowered, chars_of, opt_text, same_but_ascii_case, same_text, string_of,
    to_ascii_lowercase,
};

verus! {

/// Whether a file is a shortcut, whose extension is not shown.
pub open spec fn is_shortcut(name: Seq<char>) -> bool {
    match name_extension(name) {
        Some(e) => ascii_lowered(e) == "lnk"@ || ascii_lowered(e) == "url"@,
        None => false,
    }
}

/// What an item is called: its file name, without the extension if it is a
/// shortcut, or its path if it has no file name.
pub open spec fn shown_name(path: Seq<char>, name: Option<Seq<char>>) -> Seq<char> {
    match name {
        Some(n) => if is_shortcut(n) {
            name_stem(n)
        } else {
            n
        },
        None => path,
    }
}

/// What the item with a path and a file name, if the path has one, is called.
pub fn display_name_of(path: &str, name: &Option<String>) -> (r: String)
    ensures
        r@ == shown_name(path@, opt_text(*name)),
{
    match name {
        Some(n) => {
            let shortcut = match extension_of_name(n) {
                Some(e) => {
                    let low = to_ascii_lowercase(&e);
                    same_text(&low, "lnk") || same_text(&low, "url")
                },
                None => false,
            };
            if shortcut {
                stem_of_name(n)
            } else {
                n.clone()
            }
        },
        None => path.to_owned(),
    }
}

/// What an item is called.
pub fn display_name(path: &str) -> (r: String)
    ensures
        r@ == shown_name(path@, path_file_name(path@)),
{
    display_name_of(path, &file_name(path))
}

/// Whether a name is too long for its cell.
pub open spec fn is_cut(name: Seq<char>, max_chars: usize) -> bool {
    name.len() > max_chars && max_chars >= 3
}

/// A name with its middle replaced by an ellipsis, so that it has no more than
/// `max_chars` characters. Of an odd number of characters to keep, the front
/// has one more.
pub open spec fn cut(name: Seq<char>, max_chars: usize) -> Seq<char> {
    if is_cut(name, max_chars) {
        let keep = max_chars - 1;
        name.take(keep / 2 + keep % 2) + seq!['\u{2026}'] + name.skip(name.len() - keep / 2)
    } else {
        name
    }
}

/// Cuts the middle out of a name that is too long for its cell.
pub fn middle_truncate(name: &str, max_chars: usize) -> (r: String)
    ensures
        r@ == cut(name@, max_chars),
{
    let cs = chars_of(name);
    let n = cs.len();
    if n <= max_chars || max_chars < 3 {
        return name.to_owned();
    }
    let keep: usize = max_chars - 1;
    let front: usize = keep / 2 + keep % 2;
    let back: usize = keep / 2;
    let mut out = string_of(&cs, 0, front);
    out.push('\u{2026}');
    let tail = string_of(&cs, n - back, n);
    out.append(&tail);
    assert(out@ =~= cut(name@, max_chars));
    out
}

/// A name that is cut is as long as its cell allows, and starts and ends as
/// the whole name does.
pub proof fn law_cut_fits(name: Seq<char>, max_chars: usize)
    requires
        max_chars >= 3,
    ensures
        cut(name, max_chars).len() <= max_chars,
        is_cut(name, max_chars) ==> {
            let keep = max_chars - 1;
            &&& cut(name, max_chars).len() == max_chars
            &&& cut(name, max_chars).take(keep / 2) == name.take(keep / 2)
            &&& cut(name, max_chars).skip(max_chars - keep / 2) == name.skip(
                name.len() - keep / 2,
            )
        },
{
    if is_cut(name, max_chars) {
        let keep = max_chars - 1;
        assert(cut(name, max_chars).take(keep / 2) =~= name.take(keep / 2));
        assert(cut(name, max_chars).skip(max_chars - keep / 2) =~= name.skip(
            name.len() - keep / 2,
        ));
    }
}

/// The whole name of an item whose label is cut; nothing if it is not.
pub fn truncated_full_name(path: &str, max_chars: usize) -> (r: Option<String>)
    ensures
        opt_text(r) == {
            let name = shown_name(path@, path_file_name(path@));
            if is_cut(name, max_chars) {
                Some(name)
            } else {
                None
            }
        },
{
    let name = display_name(path);
    let n = chars_of(&name).len();
    if n > max_chars && max_chars >= 3 {
        Some(name)
    } else {
        None
    }
}

/// A cell of the grid.
#[derive(Clone, Copy, PartialEq, Eq, Structural, Debug)]
pub struct Cell {
    pub row: usize,
    pub col: usize,
}

/// The cell of the item at a place: the grid is filled row by row.
pub fn cell_of(index: usize, cols: usize) -> (r: Cell)
    requires
        cols > 0,
    ensures
        r.row == index as int / cols as int,
        r.col == index as int % cols as int,
{
    Cell { row: index / cols, col: index % cols }
}

/// The place of the item in a cell; nothing beside the columns of the grid.
pub fn index_of(cell: Cell, cols: usize) -> (r: Option<usize>)
    requires
        cell.col < cols ==> cell.row * cols + cell.col <= usize::MAX,
    ensures
        r == if cell.col < cols {
            Some((cell.row * cols + cell.col) as usize)
        } else {
            None
        },
{
    if cell.col >= cols {
        return None;
    }
    assert(0 <= cell.row * cols) by (nonlinear_arith);
    Some(cell.row * cols + cell.col)
}

/// The item in the cell of an item is that item: a click always finds what is
/// drawn under it.
pub proof fn law_cells_and_places(index: usize, cols: usize)
    requires
        cols > 0,
    ensures
        ({
            let row = index as int / cols as int;
            let col = index as int % cols as int;
            0 <= col < cols && row * cols + col == index
        }),
{
    assert(index as int == (index as int / cols as int) * cols + index as int % cols as int)
        by (nonlinear_arith)
        requires
            cols > 0,
    ;
    assert(0 <= index as int % cols as int) by (nonlinear_arith)
        requires
            cols > 0,
    ;
    assert((index as int % cols as int) < cols) by (nonlinear_arith)
        requires
            cols > 0,
    ;
}

/// How many rows a number of items fills.
pub open spec fn rows_filled(items: int, cols: int) -> int {
    (items + cols - 1) / cols
}

/// How many rows a number of items fills.
pub fn row_count(items: usize, cols: usize) -> (r: usize)
    requires
        cols > 0,
    ensures
        r == rows_filled(items as int, cols as int),
{
    if items == 0 {
        proof {
            assert((cols - 1) / cols as int == 0) by (nonlinear_arith)
                requires
                    cols > 0,
            ;
        }
        return 0;
    }
    proof {
        assert((items + cols - 1) / cols as int == (items - 1) / cols as int + 1)
            by (nonlinear_arith)
            requires
                cols > 0,
                items > 0,
        ;
        assert(0 <= (items - 1) / cols as int <= items - 1) by (nonlinear_arith)
            requires
                cols > 0,
                items > 0,
        ;
    }
    (items - 1) / cols + 1
}

/// Every item stands in one of the rows, and the last row holds one.
pub proof fn law_rows_hold_all_items(items: int, cols: int, index: int)
    requires
        cols > 0,
        0 <= index < items,
    ensures
        0 <= index / cols < rows_filled(items, cols),
        (items - 1) / cols == rows_filled(items, cols) - 1,
{
    assert((items + cols - 1) / cols == (items - 1) / cols + 1) by (nonlinear_arith)
        requires
            cols > 0,
    ;
    assert(0 <= index / cols <= (items - 1) / cols) by (nonlinear_arith)
        requires
            cols > 0,
            0 <= index <= items - 1,
    ;
}

/// An item without a file name is called by its path, one of the type "lnk" or
/// "url", in any case, by its name without the type, and any other by its name.
pub proof fn law_what_an_item_is_called(path: Seq<char>, name: Seq<char>)
    ensures
        shown_name(path, None) == path,
        name_extension(name) is None ==> shown_name(path, Some(name)) == name,
        name_extension(name) matches Some(e) ==> {
            &&& same_but_ascii_case(e, "lnk"@) || same_but_ascii_case(e, "url"@) ==> shown_name(
                path,
                Some(name),
            ) == name_stem(name)
            &&& !same_but_ascii_case(e, "lnk"@) && !same_but_ascii_case(e, "url"@) ==> shown_name(
                path,
                Some(name),
            ) == name
        },
{
    reveal_strlit("lnk");
    reveal_strlit("url");
    assert(ascii_lowered("lnk"@) =~= "lnk"@);
    assert(ascii_lowered("url"@) =~= "url"@);
}

/// A name is cut where it has more characters than its cell, unless the cell has
/// fewer than three. It keeps as many of its first characters as half the cell
/// holds, then comes an ellipsis, and its last characters fill the cell.
pub proof fn law_where_a_name_is_cut(name: Seq<char>, max_chars: usize)
    ensures
        name.len() <= max_chars || max_chars < 3 ==> cut(name, max_chars) == name && !is_cut(
            name,
            max_chars,
        ),
        name.len() > max_chars && max_chars >= 3 ==> ({
            let r = cut(name, max_chars);
            let front = max_chars as int / 2;
            let back = max_chars - 1 - front;
            &&& is_cut(name, max_chars)
            &&& r.len() == max_chars
            &&& r.take(front) == name.take(front)
            &&& r[front] == '\u{2026}'
            &&& r.skip(front + 1) == name.skip(name.len() - back)
        }),
{
    if name.len() > max_chars && max_chars >= 3 {
        let r = cut(name, max_chars);
        let front = max_chars as int / 2;
        let back = max_chars - 1 - front;
        let keep = max_chars - 1;
        assert(keep / 2 + keep % 2 == front);
        assert(keep / 2 == back);
        assert(r.take(front) =~= name.take(front));
        assert(r.skip(front + 1) =~= name.skip(name.len() - back));
    }
}

/// The rows are as many as hold all items, and no more.
pub proof fn law_no_row_too_many(items: int, cols: int)
    requires
        cols > 0,
        items >= 0,
    ensures
        rows_filled(items, cols) * cols >= items,
        (rows_filled(items, cols) - 1) * cols < items,
{
    assert((items + cols - 1) / cols * cols >= items && ((items + cols - 1) / cols - 1) * cols
        < items) by (nonlinear_arith)
        requires
            cols > 0,
            items >= 0,
    ;
}

} // verus!
