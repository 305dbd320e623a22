//! Query parameters of the scalar service endpoints (absent parameters
//! read as 0).

use vstd::prelude::*;

verus! {

/// Tab position asked for by `mux_tab_id_at`.
#[derive(Clone, Copy, Debug, Default, PartialEq, Eq, Structural)]
pub struct MuxTabIdAtQuery {
    pub i: i64,
}

/// Tab position asked for by `mux_tab_is_active_at`.
#[derive(Clone, Copy, Debug, Default, PartialEq, Eq, Structural)]
pub struct MuxTabIsActiveAtQuery {
    pub i: i64,
}

/// Tab position asked for by `mux_tab_title_at`.
#[derive(Clone, Copy, Debug, Default, PartialEq, Eq, Structural)]
pub struct MuxTabTitleAtQuery {
    pub i: i64,
}

/// Pane asked for by `mux_pane_cols`.
#[derive(Clone, Copy, Debug, Default, PartialEq, Eq, Structural)]
pub struct MuxPaneColsQuery {
    pub pane_id: i64,
}

/// Pane asked for by `mux_pane_rows`.
#[derive(Clone, Copy, Debug, Default, PartialEq, Eq, Structural)]
pub struct MuxPaneRowsQuery {
    pub pane_id: i64,
}

/// Pane asked for by `mux_pane_cursor_row`.
#[derive(Clone, Copy, Debug, Default, PartialEq, Eq, Structural)]
pub struct MuxPaneCursorRowQuery {
    pub pane_id: i64,
}

/// Pane asked for by `mux_pane_cursor_col`.
#[derive(Clone, Copy, Debug, Default, PartialEq, Eq, Structural)]
pub struct MuxPaneCursorColQuery {
    pub pane_id: i64,
}

/// Slot asked for by `mux_slot_pane_id`.
#[derive(Clone, Copy, Debug, Default, PartialEq, Eq, Structural)]
pub struct MuxSlotPaneIdQuery {
    pub slot: i64,
}

/// Slot asked for by `mux_slot_pane_key`.
#[derive(Clone, Copy, Debug, Default, PartialEq, Eq, Structural)]
pub struct MuxSlotPaneKeyQuery {
    pub slot: i64,
}

} // verus!
