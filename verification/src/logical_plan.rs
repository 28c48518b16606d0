//! Logical query plans: the operator tree the planner hands to the
//! optimizer's rewrite rules.

use vstd::prelude::*;

use crate::expression::Expr;
use crate::scalar::{Column, Schema};

verus! {

/// A column reference as the binder leaves it: an optional table name and
/// the column name.
#[derive(Clone, Debug)]
pub struct ColumnFullName {
    pub table: Option<String>,
    pub column: String,
}

impl ColumnFullName {
    pub fn new(table: Option<String>, column: String) -> (r: ColumnFullName)
        ensures
            r.column@ == column@,
    {
        ColumnFullName { table, column }
    }
}

/// A bound column reference.
#[derive(Clone, Debug)]
pub struct BoundColumnRef {
    pub col_name: ColumnFullName,
}

/// A bound expression as rewrite rules see it.
#[derive(Clone, Debug)]
pub enum BoundExpression {
    ColumnRef(BoundColumnRef),
    Constant(Expr),
}

/// Scan a table's columns.
#[derive(Clone, Debug)]
pub struct LogicalScanOperator {
    pub table_oid: u64,
    pub columns: Vec<Column>,
}

/// Project a list of expressions.
#[derive(Clone, Debug)]
pub struct LogicalProjectOperator {
    pub expressions: Vec<BoundExpression>,
}

/// Keep at most `limit` rows after skipping `offset`.
#[derive(Clone, Debug)]
pub struct LogicalLimitOperator {
    pub offset: Option<usize>,
    pub limit: Option<usize>,
}

/// The join kinds the rules distinguish.
#[derive(Clone, Copy, Debug, PartialEq, Eq, Structural)]
pub enum JoinType {
    Inner,
    LeftOuter,
    RightOuter,
    FullOuter,
    CrossJoin,
}

/// Join two inputs under an optional condition.
#[derive(Clone, Debug)]
pub struct LogicalJoinOperator {
    pub join_type: JoinType,
    pub condition: Option<BoundExpression>,
}

/// Create a table of the given schema.
#[derive(Clone, Debug)]
pub struct LogicalCreateTableOperator {
    pub table_name: String,
    pub schema: Schema,
}

impl LogicalCreateTableOperator {
    pub fn new(table_name: String, schema: Schema) -> (r: LogicalCreateTableOperator)
        ensures
            r.table_name@ == table_name@,
            r.schema.types() == schema.types(),
    {
        LogicalCreateTableOperator { table_name, schema }
    }
}

/// One node of a logical plan.
#[derive(Clone, Debug)]
pub enum LogicalOperator {
    Scan(LogicalScanOperator),
    Project(LogicalProjectOperator),
    Limit(LogicalLimitOperator),
    Join(LogicalJoinOperator),
    CreateTable(LogicalCreateTableOperator),
}

impl LogicalOperator {
    pub fn new_scan_operator(table_oid: u64, columns: Vec<Column>) -> (r: LogicalOperator)
        ensures
            r is Scan,
    {
        LogicalOperator::Scan(LogicalScanOperator { table_oid, columns })
    }

    pub fn new_project_operator(expressions: Vec<BoundExpression>) -> (r: LogicalOperator)
        ensures
            r is Project,
    {
        LogicalOperator::Project(LogicalProjectOperator { expressions })
    }

    pub fn new_limit_operator(limit: Option<usize>, offset: Option<usize>) -> (r: LogicalOperator)
        ensures
            r is Limit,
            r->Limit_0.limit == limit,
            r->Limit_0.offset == offset,
    {
        LogicalOperator::Limit(LogicalLimitOperator { offset, limit })
    }
}

/// A logical plan: an operator and its input plans.
pub struct LogicalPlan {
    pub operator: LogicalOperator,
    pub children: Vec<LogicalPlan>,
}

} // verus!
