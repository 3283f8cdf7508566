//! Named two-dimensional integer tables and formulas over their cells.
//!
//! A formula either is evaluated from scratch ([`Expression`]) or keeps a
//! cached value at every node and follows a stream of cell updates
//! ([`PersistentExpression`]).

pub mod event;
pub mod expression;
pub mod laws;
pub mod persistent;
pub mod sums;
pub mod table;
pub mod table_set;

pub use event::{TableEvent, TableEventModel};
pub use expression::{Expression, ExpressionModel};
pub use persistent::{PersistentExpression, PersistentModel};
pub use table::{Table, TableModel};
pub use table_set::TableSet;
