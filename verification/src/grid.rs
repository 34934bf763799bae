//! The uniform grid that neighbour search runs on.
//!
//! A cell is found by arithmetic alone: its coordinates are clamped into the grid and linearised, so
//! there are no collisions and no table.

use vstd::prelude::*;

verus! {

/// Grid resolution and geometry.
#[derive(Debug, Clone, Copy, PartialEq, Eq)]
pub struct GridDims {
    /// Cells per axis.
    pub dim: [u32; 3],
    /// World-space minimum corner, as bit patterns of singles.
    pub min: [u32; 3],
    /// Edge length of a cell, as the bit pattern of a single.
    pub cell_size: u32,
}

/// Cells along an axis: at least one, and at most `max_cells`.
pub open spec fn spec_axis_cells(cells: u32, max_cells: u32) -> u32 {
    let wanted = if cells < 1 {
        1
    } else {
        cells
    };
    if wanted < max_cells {
        wanted
    } else {
        max_cells
    }
}

fn axis_cells(cells: u32, max_cells: u32) -> (n: u32)
    ensures
        n == spec_axis_cells(cells, max_cells),
{
    let wanted: u32 = if cells < 1 {
        1
    } else {
        cells
    };
    if wanted < max_cells {
        wanted
    } else {
        max_cells
    }
}

/// A coordinate moved into `0..dim`.
pub open spec fn spec_clamp(i: i64, dim: u32) -> int {
    if i <= 0 {
        0
    } else if i >= dim {
        dim - 1
    } else {
        i as int
    }
}

fn clamp_cell(i: i64, dim: u32) -> (c: u32)
    requires
        dim > 0,
    ensures
        c == spec_clamp(i, dim),
        c < dim,
{
    if i <= 0 {
        0
    } else if i >= dim as i64 {
        dim - 1
    } else {
        i as u32
    }
}

impl GridDims {
    /// Cells along the first axis.
    pub open spec fn nx(self) -> int {
        self.dim@[0] as int
    }

    /// Cells along the second axis.
    pub open spec fn ny(self) -> int {
        self.dim@[1] as int
    }

    /// Cells along the third axis.
    pub open spec fn nz(self) -> int {
        self.dim@[2] as int
    }

    /// Total number of cells.
    pub open spec fn cells(self) -> int {
        self.nx() * self.ny() * self.nz()
    }

    /// Whether there is a cell, and few enough of them to number.
    pub open spec fn wf(self) -> bool {
        0 < self.nx() && 0 < self.ny() && 0 < self.nz() && self.cells() <= u32::MAX
    }

    /// Whether a coordinate lies in the grid.
    pub open spec fn contains(self, x: int, y: int, z: int) -> bool {
        0 <= x < self.nx() && 0 <= y < self.ny() && 0 <= z < self.nz()
    }

    /// The number of a cell: x varies fastest, z slowest.
    pub open spec fn index(self, x: int, y: int, z: int) -> int {
        (z * self.ny() + y) * self.nx() + x
    }

    /// The grid from a corner with cells of a size, with about `cells` of them per axis, but at least
    /// one and never more than `max_cells_per_axis`.
    pub fn for_domain(min: [u32; 3], cell_size: u32, cells: [u32; 3], max_cells_per_axis: u32) -> (grid:
        GridDims)
        ensures
            grid.min == min,
            grid.cell_size == cell_size,
            forall|i: int|
                0 <= i < 3 ==> #[trigger] grid.dim@[i] == spec_axis_cells(
                    cells@[i],
                    max_cells_per_axis,
                ),
            0 < max_cells_per_axis <= 1625 ==> grid.wf(),
    {
        let grid = GridDims {
            dim: [
                axis_cells(cells[0], max_cells_per_axis),
                axis_cells(cells[1], max_cells_per_axis),
                axis_cells(cells[2], max_cells_per_axis),
            ],
            min,
            cell_size,
        };
        proof {
            let (x, y, z) = (grid.nx(), grid.ny(), grid.nz());
            if 0 < max_cells_per_axis <= 1625 {
                assert(x * y <= 1625 * 1625) by (nonlinear_arith)
                    requires
                        0 < x <= 1625,
                        0 < y <= 1625,
                ;
                assert(x * y * z <= 1625 * 1625 * 1625) by (nonlinear_arith)
                    requires
                        0 <= x * y <= 1625 * 1625,
                        0 < z <= 1625,
                ;
            }
        }
        grid
    }

    /// Total number of cells.
    pub fn num_cells(&self) -> (n: u32)
        requires
            self.wf(),
        ensures
            n == self.cells(),
    {
        proof {
            let (x, y, z) = (self.nx(), self.ny(), self.nz());
            assert(x * y <= x * y * z) by (nonlinear_arith)
                requires
                    0 < x,
                    0 < y,
                    0 < z,
            ;
        }
        self.dim[0] * self.dim[1] * self.dim[2]
    }

    /// Linearises an integer cell coordinate, which has to lie in the grid.
    pub fn flatten(&self, c: [u32; 3]) -> (index: u32)
        requires
            self.wf(),
            self.contains(c@[0] as int, c@[1] as int, c@[2] as int),
        ensures
            index == self.index(c@[0] as int, c@[1] as int, c@[2] as int),
            index < self.cells(),
    {
        proof {
            law_cells_are_numbered_below_their_count(*self, c@[0] as int, c@[1] as int, c@[2] as int);
        }
        (c[2] * self.dim[1] + c[1]) * self.dim[0] + c[0]
    }

    /// The number of the cell at a coordinate, which may lie outside the grid: then it is moved onto
    /// the border.
    pub fn cell_of(&self, local: [i64; 3]) -> (index: u32)
        requires
            self.wf(),
        ensures
            index == self.index(
                spec_clamp(local@[0], self.dim@[0]),
                spec_clamp(local@[1], self.dim@[1]),
                spec_clamp(local@[2], self.dim@[2]),
            ),
            index < self.cells(),
    {
        let c: [u32; 3] = [
            clamp_cell(local[0], self.dim[0]),
            clamp_cell(local[1], self.dim[1]),
            clamp_cell(local[2], self.dim[2]),
        ];
        self.flatten(c)
    }
}

/// The number of a cell in the grid is below the number of cells, and so is every number that its
/// computation goes through.
pub proof fn law_cells_are_numbered_below_their_count(grid: GridDims, x: int, y: int, z: int)
    requires
        grid.wf(),
        grid.contains(x, y, z),
    ensures
        0 <= grid.index(x, y, z) < grid.cells(),
        0 <= z * grid.ny() <= z * grid.ny() + y <= grid.cells(),
        0 <= (z * grid.ny() + y) * grid.nx() <= grid.cells(),
{
    let (nx, ny, nz) = (grid.nx(), grid.ny(), grid.nz());
    let row = z * ny + y;
    assert(0 <= z * ny && row <= nz * ny - 1) by (nonlinear_arith)
        requires
            0 <= z <= nz - 1,
            0 <= y <= ny - 1,
            row == z * ny + y,
    ;
    assert(0 <= row * nx && row * nx + x < nz * ny * nx) by (nonlinear_arith)
        requires
            0 <= row <= nz * ny - 1,
            0 <= x < nx,
    ;
    assert(nz * ny * nx == nx * ny * nz) by (nonlinear_arith);
    assert(row <= row * nx) by (nonlinear_arith)
        requires
            0 <= row,
            1 <= nx,
    ;
}

/// No two cells share a number.
pub proof fn law_cells_have_numbers_of_their_own(
    grid: GridDims,
    x: int,
    y: int,
    z: int,
    u: int,
    v: int,
    w: int,
)
    requires
        grid.wf(),
        grid.contains(x, y, z),
        grid.contains(u, v, w),
        grid.index(x, y, z) == grid.index(u, v, w),
    ensures
        x == u && y == v && z == w,
{
    let (nx, ny) = (grid.nx(), grid.ny());
    lemma_digits(nx, z * ny + y, x, w * ny + v, u);
    lemma_digits(ny, z, y, w, v);
}

/// The marker of an empty cell is the number of no cell.
pub proof fn law_no_cell_bears_the_empty_marker(grid: GridDims, x: int, y: int, z: int)
    requires
        grid.wf(),
        grid.contains(x, y, z),
    ensures
        grid.index(x, y, z) != crate::layout::EMPTY_CELL,
{
    law_cells_are_numbered_below_their_count(grid, x, y, z);
}

/// Two numbers written with a high and a low digit to the base `n` are equal only digit by digit.
proof fn lemma_digits(n: int, a: int, r: int, b: int, s: int)
    requires
        0 <= r < n,
        0 <= s < n,
        a * n + r == b * n + s,
    ensures
        a == b && r == s,
{
    assert(a == b) by (nonlinear_arith)
        requires
            0 <= r < n,
            0 <= s < n,
            a * n + r == b * n + s,
    ;
}

/// Moving a coordinate onto the border changes nothing inside the grid.
pub proof fn law_clamping_keeps_what_is_inside(i: i64, dim: u32)
    requires
        dim > 0,
    ensures
        0 <= spec_clamp(i, dim) < dim,
        0 <= i < dim ==> spec_clamp(i, dim) == i,
        i < 0 ==> spec_clamp(i, dim) == 0,
        i >= dim ==> spec_clamp(i, dim) == dim - 1,
{
}

/// Cells are numbered from zero, one after the other along the first axis, a row apart along the second and
/// a layer apart along the third.
pub proof fn law_cells_are_numbered_along_the_axes(grid: GridDims, x: int, y: int, z: int)
    ensures
        grid.index(0, 0, 0) == 0,
        grid.index(x + 1, y, z) == grid.index(x, y, z) + 1,
        grid.index(x, y + 1, z) == grid.index(x, y, z) + grid.dim@[0],
        grid.index(x, y, z + 1) == grid.index(x, y, z) + grid.dim@[0] * grid.dim@[1],
        grid.cells() == grid.dim@[0] * grid.dim@[1] * grid.dim@[2],
{
    let (nx, ny) = (grid.dim@[0] as int, grid.dim@[1] as int);
    assert((0 * ny + 0) * nx + 0 == 0) by (nonlinear_arith);
    assert((z * ny + (y + 1)) * nx == (z * ny + y) * nx + nx) by (nonlinear_arith);
    assert(((z + 1) * ny + y) * nx == (z * ny + y) * nx + nx * ny) by (nonlinear_arith);
}

/// An axis has as many cells as are wanted, as far as that is at least one and not too many.
pub proof fn law_axes_have_the_cells_they_need(cells: u32, max_cells: u32)
    ensures
        1 <= cells <= max_cells ==> spec_axis_cells(cells, max_cells) == cells,
        cells > max_cells ==> spec_axis_cells(cells, max_cells) == max_cells,
        cells == 0 && max_cells >= 1 ==> spec_axis_cells(cells, max_cells) == 1,
        spec_axis_cells(cells, max_cells) <= max_cells,
{
}

} // verus!
