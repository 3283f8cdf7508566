use table_expr::{Expression, Table, TableSet};

fn sample_tables() -> TableSet {
    let mut table_set = TableSet::new();
    let t1 = Table::new("t1".to_string(), vec![vec![1, 2, 3]]);
    let t2 = Table::new("t2".to_string(), vec![vec![1, 2, 3]]);

    table_set.insert("t1".to_string(), t1);
    table_set.insert("t2".to_string(), t2);
    table_set
}

fn reference(table: &str, x: usize, y: usize) -> Expression {
    Expression::Reference { table: table.to_string(), x, y }
}

#[test]
fn test() {
    let mut table_set = TableSet::new();
    let t1 = Table::new("t1".to_string(), vec![vec![1, 2, 3]]);
    let t2 = Table::new("t2".to_string(), vec![vec![1, 2, 3]]);

    table_set.insert("t1".to_string(), t1);
    table_set.insert("t2".to_string(), t2);

    let expr = Expression::Sum(vec![
        Expression::Number(1),
        Expression::Reference {
            table: "t1".to_string(),
            x: 1,
            y: 0,
        },
    ]);

    let result = expr.eval(&table_set);

    assert_eq!(result, 3);
}

#[test]
fn number_evaluates_to_itself() {
    let table_set = TableSet::new();
    assert_eq!(Expression::Number(-7).eval(&table_set), -7);
    assert_eq!(Expression::Number(i32::MAX).eval(&table_set), i32::MAX);
    assert_eq!(Expression::Number(i32::MIN).eval(&table_set), i32::MIN);
}

#[test]
fn reference_evaluates_to_its_cell() {
    let table_set = sample_tables();
    assert_eq!(reference("t1", 0, 0).eval(&table_set), 1);
    assert_eq!(reference("t1", 2, 0).eval(&table_set), 3);
    assert_eq!(reference("t2", 1, 0).eval(&table_set), 2);
}

#[test]
fn reference_reads_column_x_of_row_y() {
    let mut table_set = TableSet::new();
    table_set.insert(
        "grid".to_string(),
        Table::new("grid".to_string(), vec![vec![10, 11], vec![20, 21, 22], vec![30]]),
    );
    assert_eq!(reference("grid", 1, 0).eval(&table_set), 11);
    assert_eq!(reference("grid", 0, 1).eval(&table_set), 20);
    assert_eq!(reference("grid", 2, 1).eval(&table_set), 22);
    assert_eq!(reference("grid", 0, 2).eval(&table_set), 30);
}

#[test]
fn empty_sum_is_zero() {
    let table_set = TableSet::new();
    assert_eq!(Expression::Sum(vec![]).eval(&table_set), 0);
}

#[test]
fn nested_sums_add_up() {
    let table_set = sample_tables();
    let expr = Expression::Sum(vec![
        Expression::Sum(vec![reference("t1", 0, 0), reference("t1", 1, 0), reference("t1", 2, 0)]),
        Expression::Number(-10),
        Expression::Sum(vec![Expression::Sum(vec![reference("t2", 2, 0)]), Expression::Number(100)]),
    ]);
    assert_eq!(expr.eval(&table_set), 6 - 10 + 103);
}

#[test]
fn sum_may_pass_the_limits_on_its_way() {
    let table_set = TableSet::new();
    let expr = Expression::Sum(vec![
        Expression::Number(i32::MAX),
        Expression::Number(1),
        Expression::Number(-1),
    ]);
    assert_eq!(expr.eval(&table_set), i32::MAX);
    let expr = Expression::Sum(vec![
        Expression::Number(i32::MIN),
        Expression::Number(-5),
        Expression::Number(i32::MAX),
        Expression::Number(6),
    ]);
    assert_eq!(expr.eval(&table_set), 0);
}

#[test]
fn eval_follows_the_tables() {
    let mut table_set = sample_tables();
    let expr = Expression::Sum(vec![reference("t1", 1, 0), reference("t2", 1, 0)]);
    assert_eq!(expr.eval(&table_set), 4);
    table_set.get_mut("t2").unwrap().set(1, 0, 40);
    assert_eq!(expr.eval(&table_set), 42);
}
