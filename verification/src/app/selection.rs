//! Which entry of the list is selected. The moves of the selection are
//! those of the list widget that draws it.

use ratatui::widgets::ListState;
use vstd::prelude::*;

verus! {

/// The selection after a move to the next entry: the entry after the
/// selected one, or the first where none is selected.
pub open spec fn next_of(selected: Option<usize>) -> Option<usize> {
    match selected {
        Some(i) => if i < usize::MAX {
            Some((i + 1) as usize)
        } else {
            Some(i)
        },
        None => Some(0),
    }
}

/// The selection after a move to the previous entry: the entry before the
/// selected one, or the last where none is selected. The last entry is
/// written as the largest number: the widget corrects it when it draws.
pub open spec fn previous_of(selected: Option<usize>) -> Option<usize> {
    match selected {
        Some(i) => if i > 0 {
            Some((i - 1) as usize)
        } else {
            Some(i)
        },
        None => Some(usize::MAX),
    }
}

/// `ratatui::widgets::ListState::select_next`, on a state with the given
/// selection: selects the index after the selected one, without passing the
/// largest number, or index 0 where nothing is selected.
#[verifier::external_body]
pub(crate) fn select_next(selected: Option<usize>) -> (now: Option<usize>)
    ensures
        now == next_of(selected),
{
    let mut state = ListState::default().with_selected(selected);
    state.select_next();
    state.selected()
}

/// `ratatui::widgets::ListState::select_previous`, on a state with the
/// given selection: selects the index before the selected one, without
/// passing 0, or the largest number where nothing is selected.
#[verifier::external_body]
pub(crate) fn select_previous(selected: Option<usize>) -> (now: Option<usize>)
    ensures
        now == previous_of(selected),
{
    let mut state = ListState::default().with_selected(selected);
    state.select_previous();
    state.selected()
}

/// `ratatui::widgets::ListState::select_first`, on a state with the given
/// selection: selects index 0.
#[verifier::external_body]
pub(crate) fn select_first(selected: Option<usize>) -> (now: Option<usize>)
    ensures
        now == Some(0usize),
{
    let mut state = ListState::default().with_selected(selected);
    state.select_first();
    state.selected()
}

/// `ratatui::widgets::ListState::select_last`, on a state with the given
/// selection: selects the largest number, which stands for the last entry.
#[verifier::external_body]
pub(crate) fn select_last(selected: Option<usize>) -> (now: Option<usize>)
    ensures
        now == Some(usize::MAX),
{
    let mut state = ListState::default().with_selected(selected);
    state.select_last();
    state.selected()
}

} // verus!
