//! What holds between evaluation from scratch, initialisation and the
//! taking in of events.

use vstd::prelude::*;
use crate::event::{lemma_lookup_after_event, TableEventModel};
use crate::expression::ExpressionModel;
use crate::persistent::PersistentModel;
use crate::table::TableModel;

verus! {

/// A formula that resolves still resolves once an event has been applied to
/// the tables: an event takes no cell away.
pub proof fn lemma_event_keeps_resolution(
    formula: ExpressionModel,
    tables: Map<Seq<char>, TableModel>,
    event: TableEventModel,
)
    requires
        formula.resolves(tables),
    ensures
        formula.resolves(event.applied_to(tables)),
    decreases formula,
{
    match formula {
        ExpressionModel::Number(_) => {},
        ExpressionModel::Reference { table, x, y } => {
            lemma_lookup_after_event(tables, event, table, x, y);
        },
        ExpressionModel::Sum(args) => {
            assert forall|i: int| 0 <= i < args.len() implies (#[trigger] args[i]).resolves(
                event.applied_to(tables),
            ) by {
                lemma_event_keeps_resolution(args[i], tables, event);
            }
        },
    }
}

/// Initialisation agrees with evaluation from scratch: it leaves the formula
/// as it is, and at every node the value that the formula below that node
/// has over the tables.
pub proof fn lemma_init_agrees_with_eval(tree: PersistentModel, tables: Map<Seq<char>, TableModel>)
    ensures
        tree.initialized(tables).expression() == tree.expression(),
        tree.initialized(tables).state() == tree.expression().value(tables),
        tree.initialized(tables).in_sync(tables),
    decreases tree,
{
    match tree {
        PersistentModel::Sum { args, .. } => {
            let fresh = tree.initialized(tables);
            let filled = fresh->Sum_args;
            assert forall|i: int| 0 <= i < args.len() implies {
                &&& (#[trigger] filled[i]).expression() == args[i].expression()
                &&& filled[i].state() == args[i].expression().value(tables)
                &&& filled[i].in_sync(tables)
            } by {
                lemma_init_agrees_with_eval(args[i], tables);
            }
            assert(fresh.expression()->Sum_0 =~= tree.expression()->Sum_0);
            assert(PersistentModel::states(filled) =~= ExpressionModel::values(
                tree.expression()->Sum_0,
                tables,
            ));
        },
        _ => {},
    }
}

/// A tree that is in sync with the tables is what initialisation would make
/// of it.
pub proof fn lemma_sync_means_initialized(tree: PersistentModel, tables: Map<Seq<char>, TableModel>)
    requires
        tree.in_sync(tables),
    ensures
        tree.initialized(tables) == tree,
    decreases tree,
{
    match tree {
        PersistentModel::Sum { state, args } => {
            let filled = tree.initialized(tables)->Sum_args;
            assert forall|i: int| 0 <= i < args.len() implies #[trigger] filled[i] == args[i] by {
                lemma_sync_means_initialized(args[i], tables);
            }
            assert(filled =~= args);
            lemma_init_agrees_with_eval(tree, tables);
        },
        _ => {},
    }
}

/// An event about a cell that the tree does not refer to changes no state
/// in it.
pub proof fn lemma_unconcerned_event_changes_nothing(tree: PersistentModel, event: TableEventModel)
    requires
        !tree.concerned_by(event),
    ensures
        tree.after(event) == tree,
    decreases tree,
{
    match tree {
        PersistentModel::Sum { state, args } => {
            let moved = tree.after(event)->Sum_args;
            assert forall|i: int| 0 <= i < args.len() implies #[trigger] moved[i] == args[i] by {
                assert(!args[i].mentions(event->table, event->x, event->y));
                lemma_unconcerned_event_changes_nothing(args[i], event);
            }
            assert(moved =~= args);
        },
        _ => {},
    }
}

/// Taking in an event keeps a tree in sync: where the tree was in sync with
/// the tables before the change that the event describes, it is in sync with
/// the tables after it, so that initialising it anew over the changed tables
/// would give the same tree.
pub proof fn lemma_apply_agrees_with_init(
    tree: PersistentModel,
    tables: Map<Seq<char>, TableModel>,
    event: TableEventModel,
)
    requires
        tree.expression().resolves(tables),
        tree.in_sync(tables),
    ensures
        tree.after(event).expression() == tree.expression(),
        tree.after(event).in_sync(event.applied_to(tables)),
        tree.after(event).initialized(event.applied_to(tables)) == tree.after(event),
    decreases tree,
{
    let changed = event.applied_to(tables);
    let next = tree.after(event);
    match tree {
        PersistentModel::Number(_) => {},
        PersistentModel::Reference { state, table, x, y } => {
            lemma_lookup_after_event(tables, event, table, x, y);
        },
        PersistentModel::Sum { state, args } => {
            let moved = next->Sum_args;
            let formulas = tree.expression()->Sum_0;
            assert forall|i: int| 0 <= i < args.len() implies {
                &&& (#[trigger] moved[i]).expression() == args[i].expression()
                &&& moved[i].in_sync(changed)
            } by {
                assert(formulas[i] == args[i].expression());
                lemma_apply_agrees_with_init(args[i], tables, event);
            }
            assert(next.expression()->Sum_0 =~= formulas);
            let before = ExpressionModel::values(formulas, tables);
            let now = ExpressionModel::values(formulas, changed);
            assert(PersistentModel::states(args) =~= before) by {
                assert forall|i: int| 0 <= i < args.len() implies args[i].state() == before[i] by {
                    assert(args[i].in_sync(tables));
                    assert(formulas[i] == args[i].expression());
                }
            }
            assert(PersistentModel::states(moved) =~= now);
        },
    }
    lemma_sync_means_initialized(next, changed);
}

/// A tree that is in sync with the tables holds only states that an `i32`
/// can hold, where the values of its formulas over the tables are such.
pub proof fn lemma_sync_is_representable(tree: PersistentModel, tables: Map<Seq<char>, TableModel>)
    requires
        tree.in_sync(tables),
        tree.expression().representable(tables),
    ensures
        tree.representable(),
    decreases tree,
{
    match tree {
        PersistentModel::Sum { args, .. } => {
            let formulas = tree.expression()->Sum_0;
            assert forall|i: int| 0 <= i < args.len() implies (#[trigger] args[i]).representable() by {
                assert(formulas[i] == args[i].expression());
                lemma_sync_is_representable(args[i], tables);
            }
        },
        _ => {},
    }
}

/// What a caller of `apply` has to know beforehand: a tree in sync with the
/// tables can take in an event where, over the tables as the event leaves
/// them, the values of its formulas are such that an `i32` can hold them.
pub proof fn lemma_apply_is_representable(
    tree: PersistentModel,
    tables: Map<Seq<char>, TableModel>,
    event: TableEventModel,
)
    requires
        tree.expression().resolves(tables),
        tree.in_sync(tables),
        tree.expression().representable(event.applied_to(tables)),
    ensures
        tree.after(event).representable(),
{
    lemma_apply_agrees_with_init(tree, tables, event);
    lemma_sync_is_representable(tree.after(event), event.applied_to(tables));
}

/// The tables once the changes that `events` describe have been made, one
/// after the other.
pub open spec fn tables_after(tables: Map<Seq<char>, TableModel>, events: Seq<TableEventModel>) -> Map<
    Seq<char>,
    TableModel,
>
    decreases events.len(),
{
    if events.len() == 0 {
        tables
    } else {
        events.last().applied_to(tables_after(tables, events.drop_last()))
    }
}

/// The tree once it has taken in `events`, one after the other.
pub open spec fn replayed(tree: PersistentModel, events: Seq<TableEventModel>) -> PersistentModel
    decreases events.len(),
{
    if events.len() == 0 {
        tree
    } else {
        replayed(tree, events.drop_last()).after(events.last())
    }
}

/// However many events a tree takes in, each after the change that it
/// describes has been made in the tables, the tree stays in sync with the
/// tables: initialising it anew over the tables as they are then would give
/// the same tree.
pub proof fn lemma_replay_agrees_with_init(
    tree: PersistentModel,
    tables: Map<Seq<char>, TableModel>,
    events: Seq<TableEventModel>,
)
    requires
        tree.expression().resolves(tables),
        tree.in_sync(tables),
    ensures
        replayed(tree, events).expression() == tree.expression(),
        tree.expression().resolves(tables_after(tables, events)),
        replayed(tree, events).in_sync(tables_after(tables, events)),
        replayed(tree, events).initialized(tables_after(tables, events)) == replayed(tree, events),
    decreases events.len(),
{
    if events.len() == 0 {
        lemma_sync_means_initialized(tree, tables);
    } else {
        let earlier = events.drop_last();
        lemma_replay_agrees_with_init(tree, tables, earlier);
        lemma_apply_agrees_with_init(replayed(tree, earlier), tables_after(tables, earlier), events.last());
        lemma_event_keeps_resolution(tree.expression(), tables_after(tables, earlier), events.last());
    }
}

} // verus!
