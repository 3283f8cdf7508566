//! A table: a named grid of integers whose rows may differ in length.

use vstd::prelude::*;

verus! {

/// A two dimensional table of integers.
///
/// Coordinate `(x, y)` is column `x` of row `y`.
pub struct Table {
    pub name: String,
    pub data: Vec<Vec<i32>>,
}

/// What a [`Table`] stands for: its name and its rows as sequences.
pub struct TableModel {
    pub name: Seq<char>,
    pub rows: Seq<Seq<i32>>,
}

impl TableModel {
    /// Whether `(x, y)` addresses a cell of the table.
    pub open spec fn in_range(self, x: int, y: int) -> bool {
        0 <= y < self.rows.len() && 0 <= x < self.rows[y].len()
    }

    /// The cell at `(x, y)`, if there is one.
    pub open spec fn cell(self, x: int, y: int) -> Option<i32> {
        if self.in_range(x, y) {
            Some(self.rows[y][x])
        } else {
            None
        }
    }

    /// The table with the cell at `(x, y)` replaced by `value`; the table
    /// itself where `(x, y)` addresses no cell.
    pub open spec fn with_cell(self, x: int, y: int, value: i32) -> TableModel {
        if self.in_range(x, y) {
            TableModel { name: self.name, rows: self.rows.update(y, self.rows[y].update(x, value)) }
        } else {
            self
        }
    }
}

/// The rows of a grid as sequences.
pub open spec fn rows_of(data: Seq<Vec<i32>>) -> Seq<Seq<i32>> {
    Seq::new(data.len(), |y: int| data[y]@)
}

impl View for Table {
    type V = TableModel;

    open spec fn view(&self) -> TableModel {
        TableModel { name: self.name@, rows: rows_of(self.data@) }
    }
}

impl Table {
    pub fn new(name: String, data: Vec<Vec<i32>>) -> (table: Self)
        ensures
            table.name == name,
            table.data == data,
    {
        Self { name, data }
    }

    /// Reads the cell at column `x` of row `y`.
    pub fn get(&self, x: usize, y: usize) -> (cell: Option<&i32>)
        ensures
            match cell {
                Some(v) => self@.cell(x as int, y as int) == Some(*v),
                None => self@.cell(x as int, y as int) is None,
            },
    {
        if y < self.data.len() {
            let row = &self.data[y];
            if x < row.len() {
                Some(&row[x])
            } else {
                None
            }
        } else {
            None
        }
    }

    /// Writes `value` to the cell at column `x` of row `y`. Where there is no
    /// such cell the table stays as it is.
    pub fn set(&mut self, x: usize, y: usize, value: i32)
        ensures
            final(self)@ == old(self)@.with_cell(x as int, y as int, value),
    {
        if y < self.data.len() {
            if x < self.data[y].len() {
                self.data[y][x] = value;
                assert(self@.rows =~= old(self)@.with_cell(x as int, y as int, value).rows);
            }
        }
    }
}

} // verus!
