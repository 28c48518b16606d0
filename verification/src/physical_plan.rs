//! Physical plans: the executable operator tree the optimizer produces
//! from an optimized logical plan.

use vstd::prelude::*;

use crate::logical_plan::{BoundExpression, LogicalOperator, LogicalPlan};
use crate::scalar::Schema;

verus! {

/// Create a table of the given schema.
#[derive(Debug)]
pub struct PhysicalCreateTable {
    pub table_name: String,
    pub schema: Schema,
}

impl PhysicalCreateTable {
    pub fn new(table_name: String, schema: Schema) -> (r: PhysicalCreateTable)
        ensures
            r.table_name@ == table_name@,
            r.schema.types() == schema.types(),
    {
        PhysicalCreateTable { table_name, schema }
    }

    /// The schema of the rows this operator emits.
    pub fn output_schema(&self) -> (r: Schema)
        ensures
            r.types() == self.schema.types(),
    {
        self.schema.duplicate()
    }
}

/// Keep only rows satisfying the predicate; the output schema is the
/// input's.
pub struct PhysicalFilter {
    pub predicate: BoundExpression,
    pub input: Box<PhysicalPlan>,
}

impl PhysicalFilter {
    /// The schema of the rows this operator emits: its input's schema.
    pub fn output_schema(&self) -> (r: Schema)
        decreases *self,
    {
        self.input.output_schema()
    }
}

/// Emit the projected expressions; the output schema follows the input's.
pub struct PhysicalProject {
    pub expressions: Vec<BoundExpression>,
    pub input: Box<PhysicalPlan>,
}

impl PhysicalProject {
    /// The schema of the rows this operator emits: its input's schema.
    pub fn output_schema(&self) -> (r: Schema)
        decreases *self,
    {
        self.input.output_schema()
    }
}

/// An executable plan node.
pub enum PhysicalPlan {
    /// A leaf that emits nothing: the mapping for operators whose
    /// execution lives outside the storage core.
    Dummy,
    CreateTable(PhysicalCreateTable),
    Filter(PhysicalFilter),
    Project(PhysicalProject),
}

impl PhysicalPlan {
    /// The schema of the rows this plan emits; a dummy emits none.
    pub fn output_schema(&self) -> (r: Schema)
        decreases *self,
    {
        match self {
            PhysicalPlan::Dummy => Schema::new(Vec::new()),
            PhysicalPlan::CreateTable(op) => op.output_schema(),
            PhysicalPlan::Filter(op) => op.output_schema(),
            PhysicalPlan::Project(op) => op.output_schema(),
        }
    }
}

/// Maps an optimized logical plan to a physical plan; operators executed
/// outside the storage core map to dummies.
#[derive(Debug)]
pub struct PhysicalOptimizer {}

impl PhysicalOptimizer {
    /// Build the physical plan for a logical plan.
    pub fn find_best(&self, plan: LogicalPlan) -> (r: PhysicalPlan)
        decreases plan,
    {
        let LogicalPlan { operator, children } = plan;
        match operator {
            LogicalOperator::CreateTable(op) => PhysicalPlan::CreateTable(
                PhysicalCreateTable { table_name: op.table_name, schema: op.schema },
            ),
            LogicalOperator::Project(op) => {
                let mut children = children;
                if children.len() == 1 {
                    let child = children.remove(0);
                    let input = self.find_best(child);
                    PhysicalPlan::Project(
                        PhysicalProject { expressions: op.expressions, input: Box::new(input) },
                    )
                } else {
                    PhysicalPlan::Dummy
                }
            },
            LogicalOperator::Scan(_) => PhysicalPlan::Dummy,
            LogicalOperator::Limit(_) => PhysicalPlan::Dummy,
            LogicalOperator::Join(_) => PhysicalPlan::Dummy,
        }
    }
}

} // verus!
