//! Rewrite rules that move `Limit` operators toward the scans below them:
//! transposing them past projections and merging adjacent limits. Pushing
//! a limit through a join or into a scan needs executor support that the
//! storage core does not offer, so those two rules only name their
//! patterns.

use vstd::prelude::*;

use crate::logical_plan::{LogicalLimitOperator, LogicalOperator};
use crate::optimizer::{
    HepGraph, HepNodeId, OperatorKind, Pattern, PatternChildrenPredicate, Rule,
};

verus! {

/// Push down `Limit` past a `Project`.
#[derive(Clone, Debug)]
pub struct LimitProjectTranspose;

impl Rule for LimitProjectTranspose {
    /// Fires on a `Limit` whose only input is a `Project`.
    fn pattern(&self) -> Pattern {
        Pattern {
            predicate: OperatorKind::Limit,
            children: PatternChildrenPredicate::Predicate(
                vec![
                    Pattern {
                        predicate: OperatorKind::Project,
                        children: PatternChildrenPredicate::NoPredicate,
                    },
                ],
            ),
        }
    }

    /// Swap the limit with the projection below it.
    fn apply(&self, node_id: HepNodeId, graph: &mut HepGraph) -> bool {
        if node_id >= graph.nodes.len() {
            return false;
        }
        let children = graph.children_at(node_id);
        if children.len() == 0 {
            return false;
        }
        graph.swap_node(node_id, children[0]);
        true
    }
}

/// Combines two adjacent `Limit` operators into one, merging their offsets
/// and keeping the smaller limit.
#[derive(Clone, Debug)]
pub struct EliminateLimits;

/// The smaller of two optional limits; an absent limit is no bound.
fn min_limit(a: Option<usize>, b: Option<usize>) -> (r: Option<usize>)
    ensures
        a is None && b is None ==> r is None,
        a is Some && b is None ==> r == a,
        a is None && b is Some ==> r == b,
        a is Some && b is Some ==> r == Some(
            if a->0 <= b->0 {
                a->0
            } else {
                b->0
            },
        ),
{
    match (a, b) {
        (Some(x), Some(y)) => Some(
            if x <= y {
                x
            } else {
                y
            },
        ),
        (Some(x), None) => Some(x),
        (None, Some(y)) => Some(y),
        (None, None) => None,
    }
}

impl Rule for EliminateLimits {
    /// Fires on a `Limit` whose only input is another `Limit`.
    fn pattern(&self) -> Pattern {
        Pattern {
            predicate: OperatorKind::Limit,
            children: PatternChildrenPredicate::Predicate(
                vec![
                    Pattern {
                        predicate: OperatorKind::Limit,
                        children: PatternChildrenPredicate::NoPredicate,
                    },
                ],
            ),
        }
    }

    /// Replace the pair by one limit with the offsets added and the
    /// smaller limit kept, splicing the inner node out.
    fn apply(&self, node_id: HepNodeId, graph: &mut HepGraph) -> bool {
        if node_id >= graph.nodes.len() {
            return false;
        }
        let children = graph.children_at(node_id);
        if children.len() == 0 {
            return false;
        }
        let child_id = children[0];
        let (op_offset, op_limit) = match &graph.nodes[node_id].operator {
            LogicalOperator::Limit(op) => (op.offset, op.limit),
            _ => {
                return false;
            },
        };
        let (child_offset, child_limit) = match &graph.nodes[child_id].operator {
            LogicalOperator::Limit(op) => (op.offset, op.limit),
            _ => {
                return false;
            },
        };
        let a: usize = match op_offset {
            Some(o) => o,
            None => 0,
        };
        let b: usize = match child_offset {
            Some(o) => o,
            None => 0,
        };
        if a > usize::MAX - b {
            return false;
        }
        let new_limit_op = LogicalLimitOperator {
            offset: Some(a + b),
            limit: min_limit(op_limit, child_limit),
        };
        let _removed = graph.remove_node(child_id, false);
        graph.replace_node(node_id, LogicalOperator::Limit(new_limit_op));
        true
    }
}

/// Pushes limits below a join onto its outer sides. The executor support
/// this rewrite needs lies outside the storage core, so the rule only
/// names its pattern.
#[derive(Clone, Debug)]
pub struct PushLimitThroughJoin;

impl PushLimitThroughJoin {
    /// Fires on a `Limit` whose only input is a `Join`.
    pub fn pattern(&self) -> (r: Pattern)
        ensures
            r.predicate == OperatorKind::Limit,
    {
        Pattern {
            predicate: OperatorKind::Limit,
            children: PatternChildrenPredicate::Predicate(
                vec![
                    Pattern {
                        predicate: OperatorKind::Join,
                        children: PatternChildrenPredicate::NoPredicate,
                    },
                ],
            ),
        }
    }
}

/// Pushes a limit into the scan below it. The scan operator does not yet
/// carry a limit, so the rule only names its pattern.
#[derive(Clone, Debug)]
pub struct PushLimitIntoScan;

impl PushLimitIntoScan {
    /// Fires on a `Limit` whose only input is a `Scan`.
    pub fn pattern(&self) -> (r: Pattern)
        ensures
            r.predicate == OperatorKind::Limit,
    {
        Pattern {
            predicate: OperatorKind::Limit,
            children: PatternChildrenPredicate::Predicate(
                vec![
                    Pattern {
                        predicate: OperatorKind::Scan,
                        children: PatternChildrenPredicate::NoPredicate,
                    },
                ],
            ),
        }
    }
}

} // verus!
