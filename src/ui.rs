use crate::selection::{App, Side};
use vstd::prelude::*;

verus! {

/// The fewest rows the practice screen needs.
pub const MIN_HEIGHT: u16 = 15;

/// The fewest columns the practice screen needs.
pub const MIN_WIDTH: u16 = 50;

/// What the practice screen shows: the tab in front, the focused pane, the
/// highlighted row of each pane, and the deck positions listed in the
/// selected pane. The deck pane lists the whole deck.
pub struct Panes {
    pub tab_index: usize,
    pub side: Side,
    pub choose_highlight: Option<usize>,
    pub selected_rows: Vec<usize>,
    pub selected_highlight: Option<usize>,
}

/// One frame of the interface.
pub enum Screen {
    /// The terminal is too small; only a notice is shown.
    TooSmall,
    Practice(Panes),
}

/// The frame to draw for `app` in a terminal of `width` columns and `height` rows.
pub fn ui(app: &App, width: u16, height: u16) -> (r: Screen)
    ensures
        match r {
            Screen::TooSmall => height < MIN_HEIGHT || width < MIN_WIDTH,
            Screen::Practice(p) => {
                &&& height >= MIN_HEIGHT && width >= MIN_WIDTH
                &&& p.tab_index == app.tab_index
                &&& p.side == app.item_state@.side
                &&& p.choose_highlight == app.item_state@.choose_cursor
                &&& p.selected_rows@ == app.item_state@.selection
                &&& p.selected_highlight == app.item_state@.selected_cursor
            },
        },
{
    if height < MIN_HEIGHT || width < MIN_WIDTH {
        return Screen::TooSmall;
    }
    let state = &app.item_state;
    let chosen = state.selected();
    let mut rows: Vec<usize> = Vec::new();
    let mut k: usize = 0;
    while k < chosen.len()
        invariant
            k <= chosen@.len(),
            rows@ == chosen@.take(k as int),
        decreases chosen@.len() - k,
    {
        rows.push(chosen[k]);
        k = k + 1;
        assert(rows@ =~= chosen@.take(k as int));
    }
    assert(rows@ =~= chosen@);
    Screen::Practice(
        Panes {
            tab_index: app.tab_index,
            side: state.side(),
            choose_highlight: state.choose_cursor(),
            selected_rows: rows,
            selected_highlight: state.selected_cursor(),
        },
    )
}

} // verus!
