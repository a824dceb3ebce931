//! Editor toggles the host keeps alongside the diagram.

use vstd::prelude::*;

verus! {

/// What the editing layer shows and snaps; the kernel itself reads none of
/// these.
#[derive(Clone, Copy, PartialEq, Eq, Structural, Debug)]
pub struct Settings {
    pub show_grid: bool,
    pub show_conflicts: bool,
    pub show_labels: bool,
    pub snap_to_grid: bool,
    pub integrate_on_move: bool,
    pub auto_open_context_menu: bool,
}

impl Default for Settings {
    /// The stock configuration: everything visible, no snapping, integrate
    /// transformations while moving, menus only on demand.
    fn default() -> (r: Settings)
        ensures
            r.show_grid,
            r.show_conflicts,
            r.show_labels,
            !r.snap_to_grid,
            r.integrate_on_move,
            !r.auto_open_context_menu,
    {
        Settings {
            show_grid: true,
            show_conflicts: true,
            show_labels: true,
            snap_to_grid: false,
            integrate_on_move: true,
            auto_open_context_menu: false,
        }
    }
}

} // verus!
