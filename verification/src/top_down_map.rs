//! The finished product of one generation run: the grid together with the
//! number of rooms actually placed and the chosen entry and exit points.

use vstd::prelude::*;

use crate::coordinate::Coordinate;
use crate::grid::Grid;

verus! {

/// A generated map. Immutable once constructed; the entry and exit were
/// spawnable at the moment they were selected, though the tagging applied
/// afterwards can change what their cells report.
#[derive(Debug)]
pub struct TopDownMap {
    grid: Grid,
    room_count: usize,
    entry_coordinate: Coordinate,
    exit_coordinate: Coordinate,
}

impl TopDownMap {
    /// Assemble a map from its parts.
    pub fn new(
        grid: Grid,
        room_count: usize,
        entry_coordinate: Coordinate,
        exit_coordinate: Coordinate,
    ) -> (r: Self)
        ensures
            r.grid_view() == grid@,
            r.grid_wf() == grid.wf(),
            r.room_count_spec() == room_count as int,
            r.spec_entry() == entry_coordinate,
            r.spec_exit() == exit_coordinate,
    {
        Self { grid, room_count, entry_coordinate, exit_coordinate }
    }

    /// The number of rooms accepted during generation.
    pub closed spec fn room_count_spec(&self) -> int {
        self.room_count as int
    }

    /// The grid's mathematical value.
    pub closed spec fn grid_view(&self) -> crate::grid::GridView {
        self.grid@
    }

    /// Whether the contained grid is well formed.
    pub closed spec fn grid_wf(&self) -> bool {
        self.grid.wf()
    }

    /// The entry point, as selected during generation.
    pub closed spec fn spec_entry(&self) -> Coordinate {
        self.entry_coordinate
    }

    /// The exit point, as selected during generation.
    pub closed spec fn spec_exit(&self) -> Coordinate {
        self.exit_coordinate
    }

    /// The number of rooms accepted during generation.
    pub fn room_count(&self) -> (r: usize)
        ensures
            r as int == self.room_count_spec(),
    {
        self.room_count
    }

    /// Read access to the grid.
    pub fn grid(&self) -> (r: &Grid)
        ensures
            r@ == self.grid_view(),
            r.wf() == self.grid_wf(),
    {
        &self.grid
    }

    /// Mutable access to the grid.
    pub fn grid_mut(&mut self) -> (r: &mut Grid)
        ensures
            old(self).grid_view() == (*r)@,
            old(self).grid_wf() == (*r).wf(),
            final(self).grid_view() == (*final(r))@,
            final(self).grid_wf() == (*final(r)).wf(),
            final(self).room_count_spec() == old(self).room_count_spec(),
            final(self).spec_entry() == old(self).spec_entry(),
            final(self).spec_exit() == old(self).spec_exit(),
    {
        &mut self.grid
    }

    /// The entry point.
    pub fn entry(&self) -> (r: &Coordinate)
        ensures
            *r == self.spec_entry(),
    {
        &self.entry_coordinate
    }

    /// The exit point.
    pub fn exit(&self) -> (r: &Coordinate)
        ensures
            *r == self.spec_exit(),
    {
        &self.exit_coordinate
    }
}

} // verus!
