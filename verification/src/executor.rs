//! The pull-style execution interface: each operator hands back one tuple
//! per call until it reports itself exhausted.

use vstd::prelude::*;

use crate::physical_plan::PhysicalCreateTable;
use crate::tuple::Tuple;

verus! {

/// What an execution touches while it runs; the storage core is consumed
/// through the table heap and index handles the caller holds.
#[derive(Debug)]
pub struct ExecutionContext {
    /// Executors that produced output so far in this call tree.
    pub rows_emitted: u64,
}

/// One step of a pull-style executor: a tuple, if one was produced, and
/// whether the operator is done.
#[derive(Debug)]
pub struct NextResult {
    pub tuple: Option<Tuple>,
    pub exhausted: bool,
}

impl NextResult {
    pub fn new(tuple: Option<Tuple>, exhausted: bool) -> (r: NextResult)
        ensures
            r.tuple == tuple,
            r.exhausted == exhausted,
    {
        NextResult { tuple, exhausted }
    }
}

/// The pull interface every executable operator offers.
pub trait VolcanoExecutor {
    /// Prepare to produce tuples.
    fn init(&self, context: &mut ExecutionContext);

    /// Produce the next tuple, or report exhaustion.
    fn next(&self, context: &mut ExecutionContext) -> NextResult;
}

impl VolcanoExecutor for PhysicalCreateTable {
    fn init(&self, _context: &mut ExecutionContext) {
    }

    /// Creating a table emits no rows; the operator is done at once.
    fn next(&self, _context: &mut ExecutionContext) -> NextResult {
        NextResult::new(None, true)
    }
}

} // verus!
