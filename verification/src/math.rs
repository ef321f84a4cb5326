//! Integer grid coordinates, rectangular areas of a grid, and the row-major
//! numbering of grid cells.
use vstd::prelude::*;

verus! {

/// A grid coordinate or a grid size: `x` is the column, `y` the row.
#[derive(Clone, Copy, Debug, PartialEq, Eq, Structural)]
pub struct UVec2 {
    pub x: u32,
    pub y: u32,
}

/// A signed grid coordinate, which may point outside any map.
#[derive(Clone, Copy, Debug, PartialEq, Eq, Structural)]
pub struct IVec2 {
    pub x: i32,
    pub y: i32,
}

/// The rectangle of cells from `origin` to `dest`, both corners included.
#[derive(Clone, Copy, Debug, PartialEq, Eq, Structural)]
pub struct FillArea {
    pub origin: UVec2,
    pub dest: UVec2,
}

/// `p` is a cell of a grid of `size` columns and rows.
pub open spec fn in_grid(size: UVec2, p: UVec2) -> bool {
    p.x < size.x && p.y < size.y
}

/// The row-major number of cell `p` in a grid `width` cells wide.
pub open spec fn linear_index(width: u32, p: UVec2) -> int {
    p.y * width + p.x
}

/// The cell whose row-major number is `i` in a grid `width` cells wide.
pub open spec fn grid_point(width: u32, i: int) -> UVec2 {
    UVec2 { x: (i % (width as int)) as u32, y: (i / (width as int)) as u32 }
}

/// The number of cells of a grid.
pub open spec fn cell_count(size: UVec2) -> int {
    size.x * size.y
}

impl FillArea {
    /// `p` lies in the rectangle.
    pub open spec fn contains(self, p: UVec2) -> bool {
        &&& self.origin.x <= p.x <= self.dest.x
        &&& self.origin.y <= p.y <= self.dest.y
    }

    /// The rectangle is empty or lies inside a grid of `size`.
    pub open spec fn fits(self, size: UVec2) -> bool {
        (self.origin.x <= self.dest.x && self.origin.y <= self.dest.y) ==> in_grid(size, self.dest)
    }

    /// The rectangle holds at least one cell.
    pub open spec fn is_nonempty(self) -> bool {
        self.origin.x <= self.dest.x && self.origin.y <= self.dest.y
    }

    /// The number of columns of a non-empty rectangle.
    pub open spec fn columns(self) -> int {
        self.dest.x - self.origin.x + 1
    }

    /// The number of rows of a non-empty rectangle.
    pub open spec fn rows(self) -> int {
        self.dest.y - self.origin.y + 1
    }

    /// The number of cells of the rectangle.
    pub open spec fn cell_count(self) -> int {
        if self.is_nonempty() {
            self.columns() * self.rows()
        } else {
            0
        }
    }

    /// The `k`-th cell of the rectangle, counting row by row from `origin`.
    pub open spec fn cell(self, k: int) -> UVec2 {
        UVec2 {
            x: (self.origin.x + k % self.columns()) as u32,
            y: (self.origin.y + k / self.columns()) as u32,
        }
    }

    /// The coordinate by which cell `p` is named: relative to the origin
    /// where `relative` holds, else `p` itself.
    pub open spec fn index_for(self, p: UVec2, relative: bool) -> UVec2 {
        if relative {
            self.relative(p)
        } else {
            p
        }
    }

    /// The coordinate of `p` relative to the rectangle's origin.
    pub open spec fn relative(self, p: UVec2) -> UVec2 {
        UVec2 { x: (p.x - self.origin.x) as u32, y: (p.y - self.origin.y) as u32 }
    }
}

/// Naming a cell of an area relative to the area: adding the origin back to
/// the relative index gives the cell, so the origin is named `(0, 0)` and
/// cells further right or down get larger indices. Naming a cell absolutely
/// gives the cell itself.
pub proof fn law_relative_index_is_offset_from_origin(area: FillArea, p: UVec2)
    requires
        area.contains(p),
    ensures
        area.origin.x + area.index_for(p, true).x == p.x,
        area.origin.y + area.index_for(p, true).y == p.y,
        area.index_for(area.origin, true) == (UVec2 { x: 0, y: 0 }),
        area.index_for(p, false) == p,
{
}

/// Every cell of a grid has a row-major number below the number of cells.
pub proof fn lemma_linear_index_bounds(size: UVec2, p: UVec2)
    requires
        in_grid(size, p),
    ensures
        0 <= linear_index(size.x, p) < cell_count(size),
{
    let w = size.x as int;
    let h = size.y as int;
    let x = p.x as int;
    let y = p.y as int;
    assert(0 <= y * w + x < h * w) by (nonlinear_arith)
        requires
            0 <= x < w,
            0 <= y < h,
    ;
    assert(h * w == w * h) by (nonlinear_arith);
}

/// The row-major number of a cell determines the cell.
pub proof fn lemma_linear_index_injective(width: u32, p: UVec2, q: UVec2)
    requires
        p.x < width,
        q.x < width,
        linear_index(width, p) == linear_index(width, q),
    ensures
        p == q,
{
    lemma_grid_point_of_linear_index(width, p);
    lemma_grid_point_of_linear_index(width, q);
}

/// Numbering a cell and reading the number back gives the cell.
pub proof fn lemma_grid_point_of_linear_index(width: u32, p: UVec2)
    requires
        p.x < width,
    ensures
        grid_point(width, linear_index(width, p)) == p,
{
    vstd::arithmetic::div_mod::lemma_fundamental_div_mod_converse(
        linear_index(width, p),
        width as int,
        p.y as int,
        p.x as int,
    );
}

/// Every number below the number of cells names a cell, and numbering that
/// cell gives the number back.
pub proof fn lemma_linear_index_of_grid_point(size: UVec2, i: int)
    requires
        0 <= i < cell_count(size),
    ensures
        in_grid(size, grid_point(size.x, i)),
        linear_index(size.x, grid_point(size.x, i)) == i,
{
    let w = size.x as int;
    let h = size.y as int;
    assert(w > 0) by (nonlinear_arith)
        requires
            0 <= i < w * h,
            0 <= h,
    ;
    vstd::arithmetic::div_mod::lemma_fundamental_div_mod(i, w);
    let q = i / w;
    let r = i % w;
    assert(0 <= r < w);
    assert(0 <= q < h) by (nonlinear_arith)
        requires
            i == w * q + r,
            0 <= r < w,
            0 <= i < w * h,
    ;
    assert(q * w == w * q) by (nonlinear_arith);
}

/// Counting the cells of a non-empty rectangle row by row, the cell in
/// column `col` and row `row` (relative to the origin) comes at
/// `row * columns + col`, and that number is below the cell count.
pub proof fn lemma_area_cell(area: FillArea, row: int, col: int)
    requires
        area.is_nonempty(),
        0 <= row < area.rows(),
        0 <= col < area.columns(),
    ensures
        0 <= row * area.columns() + col < area.cell_count(),
        area.cell(row * area.columns() + col) == (UVec2 {
            x: (area.origin.x + col) as u32,
            y: (area.origin.y + row) as u32,
        }),
{
    let c = area.columns();
    let r = area.rows();
    vstd::arithmetic::div_mod::lemma_fundamental_div_mod_converse(row * c + col, c, row, col);
    assert(0 <= row * c + col < c * r) by (nonlinear_arith)
        requires
            0 <= row < r,
            0 <= col < c,
    ;
}

/// Counting row by row, the cells of the rows before row `y`, plus one
/// more row, are the cells of the rows before row `y + 1`.
pub proof fn lemma_next_row(area: FillArea, y: int)
    ensures
        (y - area.origin.y) * area.columns() + area.columns() == (y + 1 - area.origin.y) * area.columns(),
{
    assert((y - area.origin.y) * area.columns() + area.columns() == (y + 1 - area.origin.y) * area.columns())
        by (nonlinear_arith);
}

} // verus!
