//! Expressions evaluated against tuples, and the aggregate function
//! descriptor the planner builds for `COUNT`.

use vstd::prelude::*;

use crate::error::{BustubxError, BustubxResult};
use crate::scalar::{Column, DataType, ScalarValue, Schema};
use crate::tuple::Tuple;

verus! {

/// A bound expression: a constant or a column of the input tuple.
#[derive(Clone, Debug)]
pub enum Expr {
    Constant(ScalarValue),
    ColumnIndex(usize),
}

impl Expr {
    /// Evaluate against one tuple: a constant is itself; a column index
    /// reads that column.
    pub fn evaluate(&self, tuple: &Tuple) -> (r: BustubxResult<ScalarValue>)
        ensures
            r matches Ok(v) ==> match self {
                Expr::Constant(c) => v == c,
                Expr::ColumnIndex(i) => (i as int) < tuple.data@.len() && v == tuple.data@[
                    i as int
                ],
            },
            r is Err ==> (self is ColumnIndex && self->ColumnIndex_0 as int >= tuple.data@.len()),
    {
        match self {
            Expr::Constant(c) => Ok(*c),
            Expr::ColumnIndex(i) => {
                if *i < tuple.data.len() {
                    Ok(tuple.data[*i])
                } else {
                    Err(BustubxError::Internal)
                }
            },
        }
    }
}

/// The aggregate functions the planner knows.
#[derive(Clone, Copy, Debug, PartialEq, Eq, Structural)]
pub enum AggregateFunctionKind {
    Count,
}

impl AggregateFunctionKind {
    /// The function's name, as it appears in an output column.
    pub fn name(&self) -> (r: &'static str)
        ensures
            r@ == "Count"@,
    {
        "Count"
    }
}

/// An aggregate call in a plan: the function, its arguments, and whether
/// it is a DISTINCT aggregation.
#[derive(Clone, Debug)]
pub struct AggregateFunction {
    /// the function kind
    pub func_kind: AggregateFunctionKind,
    /// List of expressions to feed to the functions as arguments
    pub args: Vec<Expr>,
    /// Whether this is a DISTINCT aggregation or not
    pub distinct: bool,
}

impl AggregateFunction {
    /// The value type the aggregate produces.
    pub fn data_type(&self, _input_schema: &Schema) -> (r: BustubxResult<DataType>)
        ensures
            r == Ok::<DataType, BustubxError>(DataType::Int64),
    {
        match self.func_kind {
            AggregateFunctionKind::Count => Ok(DataType::Int64),
        }
    }

    /// Aggregates may produce null on empty input.
    pub fn nullable(&self, _input_schema: &Schema) -> (r: BustubxResult<bool>)
        ensures
            r == Ok::<bool, BustubxError>(true),
    {
        Ok(true)
    }

    /// Evaluate the aggregate's argument against one tuple; counting
    /// needs exactly the first argument's value.
    pub fn evaluate(&self, tuple: &Tuple) -> (r: BustubxResult<ScalarValue>)
        ensures
            self.args@.len() == 0 ==> r == Err::<ScalarValue, BustubxError>(BustubxError::Internal),
    {
        match self.func_kind {
            AggregateFunctionKind::Count => {
                if self.args.len() == 0 {
                    return Err(BustubxError::Internal);
                }
                self.args[0].evaluate(tuple)
            },
        }
    }

    /// The output column describing the aggregate's result.
    pub fn to_column(&self, input_schema: &Schema) -> (r: BustubxResult<Column>)
        ensures
            r matches Ok(c) ==> c.data_type == DataType::Int64 && c.nullable,
    {
        let data_type = match self.data_type(input_schema) {
            Ok(t) => t,
            Err(e) => {
                return Err(e);
            },
        };
        let nullable = match self.nullable(input_schema) {
            Ok(n) => n,
            Err(e) => {
                return Err(e);
            },
        };
        Ok(Column::new(self.func_kind.name().to_owned(), data_type, nullable))
    }
}

} // verus!
