//! Formulas that keep the value of every node and follow events.

use vstd::prelude::*;
use crate::event::{TableEvent, TableEventModel};
use crate::expression::ExpressionModel;
use crate::laws::{lemma_init_agrees_with_eval, lemma_unconcerned_event_changes_nothing};
use crate::sums::{lemma_sum_all, lemma_sum_step, sum};
use crate::table::TableModel;
use crate::table_set::{lookup, TableSet};

verus! {

/// A formula whose every node caches the value of the formula below it.
///
/// [`init`](PersistentExpression::init) fills the caches from a set of
/// tables; [`apply`](PersistentExpression::apply) brings them up to date
/// after one change to the tables.
pub enum PersistentExpression {
    Number(i32),
    Reference {
        /// Value state
        state: i32,
        /// Identifier
        table: String,
        x: usize,
        y: usize,
    },
    Sum {
        /// Accumulation state
        state: i32,
        args: Vec<PersistentExpression>,
    },
}

/// What a [`PersistentExpression`] stands for. A state is a mathematical
/// integer, so that the model can also say what a state would have to be
/// where no `i32` can hold it.
pub enum PersistentModel {
    Number(i32),
    Reference { state: int, table: Seq<char>, x: int, y: int },
    Sum { state: int, args: Seq<PersistentModel> },
}

impl PersistentExpression {
    /// The formula as a mathematical tree.
    pub open spec fn model(&self) -> PersistentModel
        decreases self,
    {
        match self {
            PersistentExpression::Number(v) => PersistentModel::Number(*v),
            PersistentExpression::Reference { state, table, x, y } => PersistentModel::Reference {
                state: *state as int,
                table: table@,
                x: *x as int,
                y: *y as int,
            },
            PersistentExpression::Sum { state, args } => PersistentModel::Sum {
                state: *state as int,
                args: Seq::new(
                    args.len() as nat,
                    |i: int|
                        if 0 <= i < args.len() {
                            args[i].model()
                        } else {
                            PersistentModel::Number(0)
                        },
                ),
            },
        }
    }
}

impl View for PersistentExpression {
    type V = PersistentModel;

    open spec fn view(&self) -> PersistentModel {
        self.model()
    }
}

impl PersistentModel {
    /// The cached value of the node: of a number, the number itself.
    pub open spec fn state(self) -> int {
        match self {
            PersistentModel::Number(v) => v as int,
            PersistentModel::Reference { state, .. } => state,
            PersistentModel::Sum { state, .. } => state,
        }
    }

    /// The cached values of `args`, in order.
    pub open spec fn states(args: Seq<PersistentModel>) -> Seq<int> {
        Seq::new(args.len(), |i: int| args[i].state())
    }

    /// The formula with its caches left out.
    pub open spec fn expression(self) -> ExpressionModel
        decreases self,
    {
        match self {
            PersistentModel::Number(v) => ExpressionModel::Number(v),
            PersistentModel::Reference { table, x, y, .. } => ExpressionModel::Reference { table, x, y },
            PersistentModel::Sum { args, .. } => ExpressionModel::Sum(
                Seq::new(
                    args.len(),
                    |i: int|
                        if 0 <= i < args.len() {
                            args[i].expression()
                        } else {
                            ExpressionModel::Number(0)
                        },
                ),
            ),
        }
    }

    /// Whether every state in the tree is an `i32`.
    pub open spec fn representable(self) -> bool
        decreases self,
    {
        match self {
            PersistentModel::Number(_) => true,
            PersistentModel::Reference { state, .. } => i32::MIN <= state <= i32::MAX,
            PersistentModel::Sum { state, args } => {
                &&& i32::MIN <= state <= i32::MAX
                &&& forall|i: int| 0 <= i < args.len() ==> (#[trigger] args[i]).representable()
            },
        }
    }

    /// Whether some reference in the tree is to the cell at `(x, y)` of
    /// `table`.
    pub open spec fn mentions(self, table: Seq<char>, x: int, y: int) -> bool
        decreases self,
    {
        match self {
            PersistentModel::Number(_) => false,
            PersistentModel::Reference { table: t, x: rx, y: ry, .. } => t == table && rx == x && ry == y,
            PersistentModel::Sum { args, .. } => exists|i: int|
                0 <= i < args.len() && (#[trigger] args[i]).mentions(table, x, y),
        }
    }

    /// Whether the event is about a cell that the tree refers to.
    pub open spec fn concerned_by(self, event: TableEventModel) -> bool {
        match event {
            TableEventModel::SetValue { table, x, y, .. } => self.mentions(table, x, y),
        }
    }

    /// The tree with every state set from `tables`: a reference gets its
    /// cell, a sum the sum of the states below it.
    pub open spec fn initialized(self, tables: Map<Seq<char>, TableModel>) -> PersistentModel
        decreases self,
    {
        match self {
            PersistentModel::Number(v) => PersistentModel::Number(v),
            PersistentModel::Reference { table, x, y, .. } => PersistentModel::Reference {
                state: lookup(tables, table, x, y).unwrap() as int,
                table,
                x,
                y,
            },
            PersistentModel::Sum { args, .. } => {
                let args = Seq::new(
                    args.len(),
                    |i: int|
                        if 0 <= i < args.len() {
                            args[i].initialized(tables)
                        } else {
                            PersistentModel::Number(0)
                        },
                );
                PersistentModel::Sum { state: sum(Self::states(args)), args }
            },
        }
    }

    /// The tree once it has taken in `event`: a reference to the event's
    /// cell gets the event's value, and a sum moves by as much as the states
    /// directly below it have moved.
    pub open spec fn after(self, event: TableEventModel) -> PersistentModel
        decreases self,
    {
        match self {
            PersistentModel::Number(v) => PersistentModel::Number(v),
            PersistentModel::Reference { state, table, x, y } => match event {
                TableEventModel::SetValue { value, .. } => PersistentModel::Reference {
                    state: if event.touches(table, x, y) {
                        value as int
                    } else {
                        state
                    },
                    table,
                    x,
                    y,
                },
            },
            PersistentModel::Sum { state, args } => {
                let moved = Seq::new(
                    args.len(),
                    |i: int|
                        if 0 <= i < args.len() {
                            args[i].after(event)
                        } else {
                            PersistentModel::Number(0)
                        },
                );
                PersistentModel::Sum {
                    state: state + sum(Self::states(moved)) - sum(Self::states(args)),
                    args: moved,
                }
            },
        }
    }

    /// Whether every state in the tree is the value of the formula below
    /// it, evaluated over `tables`.
    pub open spec fn in_sync(self, tables: Map<Seq<char>, TableModel>) -> bool
        decreases self,
    {
        &&& self.state() == self.expression().value(tables)
        &&& match self {
            PersistentModel::Sum { args, .. } => forall|i: int|
                0 <= i < args.len() ==> (#[trigger] args[i]).in_sync(tables),
            _ => true,
        }
    }
}

impl PersistentExpression {
    /// The cached value of the node.
    pub fn state(&self) -> (state: i32)
        ensures
            state == self@.state(),
    {
        match self {
            PersistentExpression::Number(v) => *v,
            PersistentExpression::Reference { state, .. } => *state,
            PersistentExpression::Sum { state, .. } => *state,
        }
    }

    /// Apply event, return true if current state is modified.
    ///
    /// A sum collects what its parts have moved by in a wider type than
    /// theirs, so that only the states themselves have to be `i32`s.
    #[verifier::loop_isolation(false)]
    pub fn apply(&mut self, event: &TableEvent) -> (modified: bool)
        requires
            old(self)@.after(event@).representable(),
        ensures
            final(self)@ == old(self)@.after(event@),
            modified == old(self)@.concerned_by(event@),
        decreases *old(self),
    {
        match self {
            PersistentExpression::Number(_) => false,
            PersistentExpression::Reference { state, table, x, y } => {
                let TableEvent::SetValue { table: t, x: x1, y: y1, value } = event;
                if *t == *table && *x == *x1 && *y == *y1 {
                    *state = *value;
                    true
                } else {
                    false
                }
            },
            PersistentExpression::Sum { state, args } => {
                let ghost old_args = old(self)->args;
                let ghost before = old(self)@->args;
                let ghost moved = old(self)@.after(event@)->args;
                let mut modified = false;
                let mut acc: i128 = *state as i128;
                let mut i: usize = 0;
                while i < args.len()
                    invariant
                        0 <= i <= args.len(),
                        args.len() == old_args.len(),
                        forall|j: int| 0 <= j < i ==> (#[trigger] args[j])@ == moved[j],
                        forall|j: int| i <= j < args.len() ==> (#[trigger] args[j]) == old_args[j],
                        acc == old(self)@.state() + sum(PersistentModel::states(moved).take(i as int)) - sum(
                            PersistentModel::states(before).take(i as int),
                        ),
                        -0x8000_0000 - i * 0x1_0000_0000 <= acc <= 0x8000_0000 + i * 0x1_0000_0000,
                        modified == (exists|j: int| 0 <= j < i && (#[trigger] before[j]).concerned_by(event@)),
                    decreases args.len() - i,
                {
                    assert(moved[i as int].representable());
                    let state_before: i32 = args[i].state();
                    if args[i].apply(event) {
                        acc = acc + (args[i].state() as i128 - state_before as i128);
                        modified = true;
                    } else {
                        proof {
                            lemma_unconcerned_event_changes_nothing(before[i as int], event@);
                        }
                    }
                    proof {
                        lemma_sum_step(PersistentModel::states(moved), i as int);
                        lemma_sum_step(PersistentModel::states(before), i as int);
                    }
                    i = i + 1;
                }
                proof {
                    lemma_sum_all(PersistentModel::states(moved));
                    lemma_sum_all(PersistentModel::states(before));
                }
                *state = acc as i32;
                assert(self@->args =~= moved);
                modified
            },
        }
    }

    /// Initialize state of persistent expression
    ///
    /// Every reference takes the value of its cell in `table_set`, and every
    /// sum the sum of the states below it.
    #[verifier::loop_isolation(false)]
    pub fn init(&mut self, table_set: &TableSet)
        requires
            old(self)@.expression().resolves(table_set@),
            old(self)@.expression().representable(table_set@),
        ensures
            final(self)@ == old(self)@.initialized(table_set@),
        decreases *old(self),
    {
        match self {
            PersistentExpression::Number(_) => {},
            PersistentExpression::Reference { state, table, x, y } => {
                *state = *table_set.get(table.as_str()).unwrap().get(*x, *y).unwrap();
            },
            PersistentExpression::Sum { state, args } => {
                let ghost old_args = old(self)->args;
                let ghost formulas = old(self)@.expression()->Sum_0;
                let ghost filled = old(self)@.initialized(table_set@)->args;
                proof {
                    lemma_init_agrees_with_eval(old(self)@, table_set@);
                }
                let mut acc: i128 = 0;
                let mut i: usize = 0;
                while i < args.len()
                    invariant
                        0 <= i <= args.len(),
                        args.len() == old_args.len(),
                        forall|j: int| 0 <= j < i ==> (#[trigger] args[j])@ == filled[j],
                        forall|j: int| i <= j < args.len() ==> (#[trigger] args[j]) == old_args[j],
                        acc == sum(PersistentModel::states(filled).take(i as int)),
                        i * (i32::MIN as int) <= acc <= i * (i32::MAX as int),
                    decreases args.len() - i,
                {
                    assert(formulas[i as int] == args[i as int]@.expression());
                    args[i].init(table_set);
                    acc = acc + args[i].state() as i128;
                    proof {
                        lemma_sum_step(PersistentModel::states(filled), i as int);
                    }
                    i = i + 1;
                }
                proof {
                    lemma_sum_all(PersistentModel::states(filled));
                }
                *state = acc as i32;
                assert(self@->args =~= filled);
            },
        }
    }
}

} // verus!
