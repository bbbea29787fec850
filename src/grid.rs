//! The uniform grid that partitions the arena into rectangular cells.
use vstd::prelude::*;
use crate::geometry::{Pos, MAX_COORD};

verus! {

/// A cell of the grid, by row and column.
#[derive(Clone, Copy, PartialEq, Eq, Structural, Debug, Hash)]
pub struct Cell {
    pub i: usize,
    pub j: usize,
}

/// A fixed partition of the arena `[0, width] x [0, height]` into `rows` by
/// `columns` cells of `cell_width` by `cell_height`.
#[derive(Clone, Copy, PartialEq, Eq, Structural, Debug)]
pub struct Grid {
    pub width: i64,
    pub height: i64,
    pub cell_width: i64,
    pub cell_height: i64,
    pub rows: usize,
    pub columns: usize,
}

impl Grid {
    /// The cells cover the arena, and no row or column lies wholly past it.
    pub open spec fn wf(&self) -> bool {
        &&& 1 <= self.width <= MAX_COORD
        &&& 1 <= self.height <= MAX_COORD
        &&& 1 <= self.cell_width <= self.width
        &&& 1 <= self.cell_height <= self.height
        &&& 1 <= self.rows
        &&& 1 <= self.columns
        &&& self.rows * self.cell_height >= self.height
        &&& self.columns * self.cell_width >= self.width
        &&& (self.rows - 1) * self.cell_height < self.height
        &&& (self.columns - 1) * self.cell_width < self.width
        &&& self.rows <= self.height
        &&& self.columns <= self.width
    }

    /// The point lies in the arena.
    pub open spec fn contains(&self, p: Pos) -> bool {
        0 <= p.x <= self.width && 0 <= p.y <= self.height
    }

    /// The row of an ordinate, clamped into `[0, rows - 1]`.
    pub open spec fn row_of(&self, y: int) -> int {
        if y < 0 {
            0
        } else if y / (self.cell_height as int) >= self.rows {
            self.rows - 1
        } else {
            y / (self.cell_height as int)
        }
    }

    /// The column of an abscissa, clamped into `[0, columns - 1]`.
    pub open spec fn col_of(&self, x: int) -> int {
        if x < 0 {
            0
        } else if x / (self.cell_width as int) >= self.columns {
            self.columns - 1
        } else {
            x / (self.cell_width as int)
        }
    }

    /// The cell that owns a point.
    pub open spec fn cell_of(&self, p: Pos) -> Cell {
        Cell { i: self.row_of(p.y as int) as usize, j: self.col_of(p.x as int) as usize }
    }

    /// The cell lies in the grid.
    pub open spec fn has_cell(&self, c: Cell) -> bool {
        c.i < self.rows && c.j < self.columns
    }

    /// The grid of `cell_width` by `cell_height` cells over a `width` by
    /// `height` arena, with just enough rows and columns to cover it; `None`
    /// when a size is out of range.
    pub fn new(width: i64, height: i64, cell_width: i64, cell_height: i64) -> (r: Option<Grid>)
        ensures
            r.is_some() <==> (1 <= width <= MAX_COORD && 1 <= height <= MAX_COORD && 1
                <= cell_width <= width && 1 <= cell_height <= height),
            r matches Some(g) ==> g.wf() && g.width == width && g.height == height
                && g.cell_width == cell_width && g.cell_height == cell_height,
    {
        if !(1 <= width && width <= MAX_COORD && 1 <= height && height <= MAX_COORD && 1
            <= cell_width && cell_width <= width && 1 <= cell_height && cell_height <= height) {
            return None;
        }
        let rows = (height + cell_height - 1) / cell_height;
        let columns = (width + cell_width - 1) / cell_width;
        proof {
            assert(rows * cell_height >= height && (rows - 1) * cell_height < height && 1 <= rows <= height)
                by (nonlinear_arith)
                requires
                    rows == (height + cell_height - 1) / (cell_height as int),
                    1 <= cell_height <= height,
            ;
            assert(columns * cell_width >= width && (columns - 1) * cell_width < width && 1 <= columns
                <= width) by (nonlinear_arith)
                requires
                    columns == (width + cell_width - 1) / (cell_width as int),
                    1 <= cell_width <= width,
            ;
        }
        Some(
            Grid {
                width,
                height,
                cell_width,
                cell_height,
                rows: rows as usize,
                columns: columns as usize,
            },
        )
    }

    /// The row of an ordinate, clamped into the grid.
    pub fn row_index(&self, y: i64) -> (r: usize)
        requires
            self.wf(),
        ensures
            r == self.row_of(y as int),
            r < self.rows,
    {
        if y < 0 {
            0
        } else {
            let q = y / self.cell_height;
            if q as u64 >= self.rows as u64 {
                self.rows - 1
            } else {
                q as usize
            }
        }
    }

    /// The column of an abscissa, clamped into the grid.
    pub fn column_index(&self, x: i64) -> (r: usize)
        requires
            self.wf(),
        ensures
            r == self.col_of(x as int),
            r < self.columns,
    {
        if x < 0 {
            0
        } else {
            let q = x / self.cell_width;
            if q as u64 >= self.columns as u64 {
                self.columns - 1
            } else {
                q as usize
            }
        }
    }

    /// The cell that owns a position; coordinates past an edge are clamped
    /// into the nearest row and column.
    pub fn get_cell_by_pos(&self, pos: &Pos) -> (c: Cell)
        requires
            self.wf(),
        ensures
            c == self.cell_of(*pos),
            self.has_cell(c),
    {
        Cell { i: self.row_index(pos.y), j: self.column_index(pos.x) }
    }
}

} // verus!
