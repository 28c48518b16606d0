//! The optimizer's rewrite rules on a small plan: a limit above a
//! projection above a scan moves below the projection.

use bustubx::limit_project_transpose::LimitProjectTranspose;
use bustubx::logical_plan::{
    BoundColumnRef, BoundExpression, ColumnFullName, LogicalOperator, LogicalPlan,
};
use bustubx::optimizer::{HepBatchStrategy, HepOptimizer};
use bustubx::scalar::{Column, DataType};

fn limit_project_scan_plan() -> LogicalPlan {
    let logical_plan = LogicalPlan {
        operator: LogicalOperator::new_scan_operator(
            1,
            vec![Column::new("a".to_string(), DataType::Int32, false)],
        ),
        children: vec![],
    };
    let logical_plan = LogicalPlan {
        operator: LogicalOperator::new_project_operator(vec![BoundExpression::ColumnRef(
            BoundColumnRef {
                col_name: ColumnFullName::new(None, "a".to_string()),
            },
        )]),
        children: vec![logical_plan],
    };
    LogicalPlan {
        operator: LogicalOperator::new_limit_operator(Some(10), None),
        children: vec![logical_plan],
    }
}

#[test]
pub fn test_limit_project_transpose() {
    let logical_plan = limit_project_scan_plan();
    let mut optimizer = HepOptimizer::new(logical_plan).batch(
        "limit_project_transpose",
        HepBatchStrategy::once_topdown(),
        vec![LimitProjectTranspose],
    );
    let optimized_plan = optimizer.find_best();

    assert!(matches!(
        optimized_plan.operator,
        LogicalOperator::Project(_)
    ));
    assert!(matches!(
        optimized_plan.children[0].operator,
        LogicalOperator::Limit(_)
    ));
    assert!(matches!(
        optimized_plan.children[0].children[0].operator,
        LogicalOperator::Scan(_)
    ));
}

#[test]
pub fn push_down_limit_test_limit_project_transpose() {
    let logical_plan = limit_project_scan_plan();
    let mut optimizer = HepOptimizer::new(logical_plan).batch(
        "limit_project_transpose",
        HepBatchStrategy::once_topdown(),
        vec![bustubx::push_down_limit::LimitProjectTranspose],
    );
    let optimized_plan = optimizer.find_best();

    assert!(matches!(
        optimized_plan.operator,
        LogicalOperator::Project(_)
    ));
    assert!(matches!(
        optimized_plan.children[0].operator,
        LogicalOperator::Limit(_)
    ));
    assert!(matches!(
        optimized_plan.children[0].children[0].operator,
        LogicalOperator::Scan(_)
    ));
}

#[test]
pub fn test_eliminate_limits_merges_adjacent_limits() {
    let scan = LogicalPlan {
        operator: LogicalOperator::new_scan_operator(
            1,
            vec![Column::new("a".to_string(), DataType::Int32, false)],
        ),
        children: vec![],
    };
    let inner_limit = LogicalPlan {
        operator: LogicalOperator::new_limit_operator(Some(5), Some(2)),
        children: vec![scan],
    };
    let outer_limit = LogicalPlan {
        operator: LogicalOperator::new_limit_operator(Some(10), Some(3)),
        children: vec![inner_limit],
    };
    let mut optimizer = HepOptimizer::new(outer_limit).batch(
        "eliminate_limits",
        HepBatchStrategy::once_topdown(),
        vec![bustubx::push_down_limit::EliminateLimits],
    );
    let optimized_plan = optimizer.find_best();
    match &optimized_plan.operator {
        LogicalOperator::Limit(op) => {
            assert_eq!(op.offset, Some(5));
            assert_eq!(op.limit, Some(5));
        }
        _ => panic!("expected a limit at the root"),
    }
    assert!(matches!(
        optimized_plan.children[0].operator,
        LogicalOperator::Scan(_)
    ));
}
