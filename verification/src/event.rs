//! Events: descriptions of single changes made to the tables.

use vstd::prelude::*;
use crate::table::TableModel;
use crate::table_set::lookup;

verus! {

/// One change to a set of tables.
///
/// An event only describes the change. Making it in the tables is left to
/// whoever raises the event.
pub enum TableEvent {
    /// The cell at column `x` of row `y` of `table` is set to `value`.
    SetValue { table: String, x: usize, y: usize, value: i32 },
}

/// What a [`TableEvent`] stands for.
pub enum TableEventModel {
    SetValue { table: Seq<char>, x: int, y: int, value: i32 },
}

impl View for TableEvent {
    type V = TableEventModel;

    open spec fn view(&self) -> TableEventModel {
        match self {
            TableEvent::SetValue { table, x, y, value } => TableEventModel::SetValue {
                table: table@,
                x: *x as int,
                y: *y as int,
                value: *value,
            },
        }
    }
}

impl TableEventModel {
    /// Whether the event is about the cell at `(x, y)` of `table`: the
    /// three must be the event's own, one for one.
    pub open spec fn touches(self, table: Seq<char>, x: int, y: int) -> bool {
        match self {
            TableEventModel::SetValue { table: t, x: ex, y: ey, .. } => t == table && ex == x && ey == y,
        }
    }

    /// The tables as they are once the change that the event describes has
    /// been made: what borrowing the table with `TableSet::get_mut` and
    /// writing the cell with `Table::set` leaves. An event about a table or
    /// a cell that does not exist changes nothing.
    pub open spec fn applied_to(self, tables: Map<Seq<char>, TableModel>) -> Map<
        Seq<char>,
        TableModel,
    > {
        match self {
            TableEventModel::SetValue { table, x, y, value } => if tables.contains_key(table) {
                tables.insert(table, tables[table].with_cell(x, y, value))
            } else {
                tables
            },
        }
    }
}

/// What a lookup finds once an event has been applied: the event's value in
/// the cell that the event is about, if there is such a cell, and what was
/// there before in every other place.
pub proof fn lemma_lookup_after_event(
    tables: Map<Seq<char>, TableModel>,
    event: TableEventModel,
    table: Seq<char>,
    x: int,
    y: int,
)
    ensures
        lookup(event.applied_to(tables), table, x, y) == (if event.touches(table, x, y) && lookup(
            tables,
            table,
            x,
            y,
        ) is Some {
            Some(event->value)
        } else {
            lookup(tables, table, x, y)
        }),
{
}

} // verus!
