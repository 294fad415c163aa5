//! Moving the highlighted row of a table.
use vstd::prelude::*;
use ratatui::widgets::TableState;

verus! {

/// The row `TableState::select_next` moves to: the one after the selected
/// row (saturating at `usize::MAX`), or the first row when none is selected.
pub open spec fn row_after(sel: Option<usize>) -> Option<usize> {
    match sel {
        None => Some(0usize),
        Some(i) => Some(if i == usize::MAX { usize::MAX } else { (i + 1) as usize }),
    }
}

/// The row `TableState::select_previous` moves to: the one before the
/// selected row (saturating at zero), or `usize::MAX` when none is selected.
pub open spec fn row_before(sel: Option<usize>) -> Option<usize> {
    match sel {
        None => Some(usize::MAX),
        Some(i) => Some(if i == 0 { 0usize } else { (i - 1) as usize }),
    }
}

/// A selection past the last of `len` rows is pulled back to the last row.
pub open spec fn clamped(sel: Option<usize>, len: usize) -> Option<usize> {
    match sel {
        None => None,
        Some(i) => {
            let max: usize = if len == 0 { 0usize } else { (len - 1) as usize };
            if i > max {
                Some(max)
            } else {
                Some(i)
            }
        },
    }
}

/// The selection after a step down in a table of `len` rows.
pub open spec fn step_down(len: usize, sel: Option<usize>) -> Option<usize> {
    if len == 0 {
        sel
    } else {
        clamped(row_after(sel), len)
    }
}

/// The selection after a step up in a table of `len` rows.
pub open spec fn step_up(len: usize, sel: Option<usize>) -> Option<usize> {
    if len == 0 {
        sel
    } else {
        clamped(row_before(sel), len)
    }
}

/// The selection names a row of a table of `len` rows, and there is one
/// exactly when the table has rows.
pub open spec fn cursor_in_bounds(len: usize, sel: Option<usize>) -> bool {
    match sel {
        None => len == 0,
        Some(i) => i < len,
    }
}

/// Calls ratatui's `TableState::select_next` on a state whose selection
/// is `sel` and reads the selection back. The crate's source sets it to
/// `selected.map_or(0, |i| i.saturating_add(1))`.
#[verifier::external_body]
fn select_next(sel: Option<usize>) -> (r: Option<usize>)
    ensures
        r == row_after(sel),
{
    let mut state = TableState::default().with_selected(sel);
    state.select_next();
    state.selected()
}

/// Calls ratatui's `TableState::select_previous` on a state whose
/// selection is `sel` and reads the selection back. The crate's source
/// sets it to `selected.map_or(usize::MAX, |i| i.saturating_sub(1))`.
#[verifier::external_body]
fn select_previous(sel: Option<usize>) -> (r: Option<usize>)
    ensures
        r == row_before(sel),
{
    let mut state = TableState::default().with_selected(sel);
    state.select_previous();
    state.selected()
}

/// Pulls a selection past the last of `len` rows back to the last row.
pub fn clamp_selection(sel: Option<usize>, len: usize) -> (r: Option<usize>)
    ensures
        r == clamped(sel, len),
{
    match sel {
        Some(i) => {
            let max = len.saturating_sub(1);
            if i > max {
                Some(max)
            } else {
                sel
            }
        },
        None => None,
    }
}

/// Moves the selection one row down in a table of `len` rows; an empty
/// table keeps its selection. After a move in a table with rows, the
/// selection names one of them.
pub fn move_down(len: usize, sel: Option<usize>) -> (r: Option<usize>)
    ensures
        r == step_down(len, sel),
        len > 0 ==> cursor_in_bounds(len, r),
{
    if len > 0 {
        clamp_selection(select_next(sel), len)
    } else {
        sel
    }
}

/// Moves the selection one row up in a table of `len` rows; an empty
/// table keeps its selection. After a move in a table with rows, the
/// selection names one of them.
pub fn move_up(len: usize, sel: Option<usize>) -> (r: Option<usize>)
    ensures
        r == step_up(len, sel),
        len > 0 ==> cursor_in_bounds(len, r),
{
    if len > 0 {
        clamp_selection(select_previous(sel), len)
    } else {
        sel
    }
}

/// The selection a table starts with: the first row, if there is one.
pub fn first_row(len: usize) -> (r: Option<usize>)
    ensures
        r == (if len == 0 { None } else { Some(0usize) }),
        cursor_in_bounds(len, r),
{
    if len == 0 {
        None
    } else {
        Some(0)
    }
}

/// Moves keep the cursor in bounds: from a selection in bounds, a step
/// either way stays in bounds.
pub proof fn law_cursor_stays_in_bounds(len: usize, sel: Option<usize>)
    requires
        cursor_in_bounds(len, sel),
    ensures
        cursor_in_bounds(len, step_down(len, sel)),
        cursor_in_bounds(len, step_up(len, sel)),
{
}

/// The selection after a run of moves in a table of `len` rows, each one
/// up (`true`) or down (`false`), in order.
pub open spec fn after_moves(len: usize, sel: Option<usize>, ups: Seq<bool>) -> Option<usize>
    decreases ups.len(),
{
    if ups.len() == 0 {
        sel
    } else {
        let before = after_moves(len, sel, ups.drop_last());
        if ups.last() {
            step_up(len, before)
        } else {
            step_down(len, before)
        }
    }
}

/// However a table is moved through from its first row, up and down in
/// any order, the cursor stays in bounds: on a row when the table has
/// rows, on none when it is empty.
pub proof fn law_cursor_in_bounds_after_any_moves(len: usize, ups: Seq<bool>)
    ensures
        cursor_in_bounds(len, after_moves(len, if len == 0 { None } else { Some(0usize) }, ups)),
    decreases ups.len(),
{
    if ups.len() > 0 {
        law_cursor_in_bounds_after_any_moves(len, ups.drop_last());
        law_cursor_stays_in_bounds(len, after_moves(len, if len == 0 { None } else { Some(0usize) }, ups.drop_last()));
    }
}

} // verus!
