//! Presentation options for a host that draws the grid: cell size in
//! pixels and the colors used for the grid lines and the two cell states.

use vstd::prelude::*;
use vstd::string::StringExecFns;

verus! {

/// Drawing configuration consumed by a host renderer.
#[derive(Debug, Clone)]
pub struct Options {
    cell_size_pixels: u32,
    grid_color: String,
    dead_color: String,
    alive_color: String,
}

impl Options {
    /// The configured cell edge length in pixels.
    pub closed spec fn spec_cell_size_pixels(self) -> u32 {
        self.cell_size_pixels
    }

    /// The configured grid-line color.
    pub closed spec fn spec_grid_color(self) -> Seq<char> {
        self.grid_color@
    }

    /// The configured color of a dead cell.
    pub closed spec fn spec_dead_color(self) -> Seq<char> {
        self.dead_color@
    }

    /// The configured color of an alive cell.
    pub closed spec fn spec_alive_color(self) -> Seq<char> {
        self.alive_color@
    }

    /// Creates a new `Options` instance with default values.
    pub fn new() -> (r: Options)
        ensures
            r.spec_cell_size_pixels() == 5,
            r.spec_grid_color() == "#CCCCCC"@,
            r.spec_dead_color() == "#FFFFFF"@,
            r.spec_alive_color() == "#000000"@,
    {
        Options {
            cell_size_pixels: 5,
            grid_color: String::from_str("#CCCCCC"),
            dead_color: String::from_str("#FFFFFF"),
            alive_color: String::from_str("#000000"),
        }
    }

    /// The cell edge length in pixels.
    pub fn cell_size_pixels(&self) -> (r: u32)
        ensures
            r == self.spec_cell_size_pixels(),
    {
        self.cell_size_pixels
    }

    /// The grid-line color.
    pub fn grid_color(&self) -> (r: &String)
        ensures
            r@ == self.spec_grid_color(),
    {
        &self.grid_color
    }

    /// The color of a dead cell.
    pub fn dead_color(&self) -> (r: &String)
        ensures
            r@ == self.spec_dead_color(),
    {
        &self.dead_color
    }

    /// The color of an alive cell.
    pub fn alive_color(&self) -> (r: &String)
        ensures
            r@ == self.spec_alive_color(),
    {
        &self.alive_color
    }
}

impl Default for Options {
    /// Same configuration as [`Options::new`].
    fn default() -> (r: Self)
        ensures
            r.spec_cell_size_pixels() == 5,
            r.spec_grid_color() == "#CCCCCC"@,
            r.spec_dead_color() == "#FFFFFF"@,
            r.spec_alive_color() == "#000000"@,
    {
        Options::new()
    }
}

} // verus!
