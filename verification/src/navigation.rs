//! Which screen the front end shows.

use vstd::prelude::*;

verus! {

/// The top-level screen that is shown.
#[derive(Debug, Clone, Copy, PartialEq, Eq, Structural)]
pub enum View {
    Home,
    Stocks,
    Settings,
    Logs,
}

/// The screen shown after a frame in which a symbol is selected or a search
/// is typed: both bring the front end back to the home screen.
pub open spec fn view_after_input(current: View, symbol_selected: bool, searching: bool) -> View {
    if symbol_selected || searching {
        View::Home
    } else {
        current
    }
}

/// Decides the screen for the next frame.
pub fn next_view(current: View, symbol_selected: bool, searching: bool) -> (next: View)
    ensures
        next == view_after_input(current, symbol_selected, searching),
{
    if symbol_selected || searching {
        View::Home
    } else {
        current
    }
}

} // verus!
