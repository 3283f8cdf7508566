//! Formulas that are evaluated from scratch.

use vstd::prelude::*;
use crate::sums::{lemma_sum_all, lemma_sum_step, sum};
use crate::table::TableModel;
use crate::table_set::{lookup, TableSet};

verus! {

/// A formula: a number, a reference to a cell, or a sum of formulas.
pub enum Expression {
    Number(i32),
    Reference { table: String, x: usize, y: usize },
    Sum(Vec<Expression>),
}

/// What an [`Expression`] stands for.
pub enum ExpressionModel {
    Number(i32),
    Reference { table: Seq<char>, x: int, y: int },
    Sum(Seq<ExpressionModel>),
}

impl Expression {
    /// The formula as a mathematical tree.
    pub open spec fn model(&self) -> ExpressionModel
        decreases self,
    {
        match self {
            Expression::Number(v) => ExpressionModel::Number(*v),
            Expression::Reference { table, x, y } => ExpressionModel::Reference {
                table: table@,
                x: *x as int,
                y: *y as int,
            },
            Expression::Sum(args) => ExpressionModel::Sum(
                Seq::new(
                    args.len() as nat,
                    |i: int|
                        if 0 <= i < args.len() {
                            args[i].model()
                        } else {
                            ExpressionModel::Number(0)
                        },
                ),
            ),
        }
    }
}

impl View for Expression {
    type V = ExpressionModel;

    open spec fn view(&self) -> ExpressionModel {
        self.model()
    }
}

impl ExpressionModel {
    /// Whether every reference in the formula leads to a cell of `tables`.
    pub open spec fn resolves(self, tables: Map<Seq<char>, TableModel>) -> bool
        decreases self,
    {
        match self {
            ExpressionModel::Number(_) => true,
            ExpressionModel::Reference { table, x, y } => lookup(tables, table, x, y) is Some,
            ExpressionModel::Sum(args) => forall|i: int|
                0 <= i < args.len() ==> (#[trigger] args[i]).resolves(tables),
        }
    }

    /// The value of the formula over `tables`, as a mathematical integer.
    /// It means something only where the formula resolves.
    pub open spec fn value(self, tables: Map<Seq<char>, TableModel>) -> int
        decreases self, 1int,
    {
        match self {
            ExpressionModel::Number(v) => v as int,
            ExpressionModel::Reference { table, x, y } => lookup(tables, table, x, y).unwrap() as int,
            ExpressionModel::Sum(args) => sum(Self::values(args, tables)),
        }
    }

    /// The values of `args` over `tables`, in order.
    pub open spec fn values(args: Seq<ExpressionModel>, tables: Map<Seq<char>, TableModel>) -> Seq<
        int,
    >
        decreases args, 0int,
    {
        Seq::new(
            args.len(),
            |i: int|
                if 0 <= i < args.len() {
                    args[i].value(tables)
                } else {
                    0
                },
        )
    }

    /// Whether the value of the formula, and of every formula inside it, is
    /// an `i32`.
    pub open spec fn representable(self, tables: Map<Seq<char>, TableModel>) -> bool
        decreases self,
    {
        &&& i32::MIN <= self.value(tables) <= i32::MAX
        &&& match self {
            ExpressionModel::Sum(args) => forall|i: int|
                0 <= i < args.len() ==> (#[trigger] args[i]).representable(tables),
            _ => true,
        }
    }
}

impl Expression {
    /// Evaluates the formula over `table_set`.
    ///
    /// A sum is taken in a wider type than its parts, so that only the
    /// values themselves have to be `i32`s, not what is added up on the way.
    #[verifier::loop_isolation(false)]
    pub fn eval(&self, table_set: &TableSet) -> (value: i32)
        requires
            self@.resolves(table_set@),
            self@.representable(table_set@),
        ensures
            value == self@.value(table_set@),
        decreases self,
    {
        match self {
            Expression::Number(v) => *v,
            Expression::Reference { table, x, y } => {
                *table_set.get(table.as_str()).unwrap().get(*x, *y).unwrap()
            },
            Expression::Sum(args) => {
                let ghost models = self@->Sum_0;
                let ghost values = ExpressionModel::values(models, table_set@);
                let mut acc: i128 = 0;
                let mut i: usize = 0;
                while i < args.len()
                    invariant
                        0 <= i <= args.len(),
                        acc == sum(values.take(i as int)),
                        i * (i32::MIN as int) <= acc <= i * (i32::MAX as int),
                    decreases args.len() - i,
                {
                    assert(models[i as int] == args[i as int]@);
                    let v: i32 = args[i].eval(table_set);
                    proof {
                        lemma_sum_step(values, i as int);
                    }
                    acc = acc + v as i128;
                    i = i + 1;
                }
                proof {
                    lemma_sum_all(values);
                }
                acc as i32
            },
        }
    }
}

} // verus!
