//! Rewrite rule that pushes a `Limit` past a `Project`, so the limit cuts
//! rows before they are projected.

use vstd::prelude::*;

use crate::optimizer::{
    HepGraph, HepNodeId, OperatorKind, Pattern, PatternChildrenPredicate, Rule,
};

verus! {

/// Push down `Limit` past a `Project`.
#[derive(Clone, Debug)]
pub struct LimitProjectTranspose;

impl Rule for LimitProjectTranspose {
    /// Fires on a `Limit` whose only input is a `Project`.
    fn pattern(&self) -> Pattern {
        Pattern {
            predicate: OperatorKind::Limit,
            children: PatternChildrenPredicate::Predicate(
                vec![
                    Pattern {
                        predicate: OperatorKind::Project,
                        children: PatternChildrenPredicate::NoPredicate,
                    },
                ],
            ),
        }
    }

    /// Swap the limit with the projection below it.
    fn apply(&self, node_id: HepNodeId, graph: &mut HepGraph) -> bool {
        if node_id >= graph.nodes.len() {
            return false;
        }
        let children = graph.children_at(node_id);
        if children.len() == 0 {
            return false;
        }
        graph.swap_node(node_id, children[0]);
        true
    }
}

} // verus!
