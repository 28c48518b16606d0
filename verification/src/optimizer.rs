//! The heuristic plan optimizer: a logical plan is loaded into a node
//! graph, rewrite rules are matched against patterns of operator kinds and
//! applied batch by batch, and the surviving plan is handed to the
//! physical optimizer.

use vstd::prelude::*;
use vstd::pervasive::VecAdditionalExecFns;

use crate::logical_plan::{LogicalOperator, LogicalPlan};
use crate::physical_plan::{PhysicalOptimizer, PhysicalPlan};

verus! {

/// Identifier of a node in the optimizer's plan graph.
pub type HepNodeId = usize;

/// The operator kinds a pattern can ask for.
#[derive(Clone, Copy, Debug, PartialEq, Eq, Structural)]
pub enum OperatorKind {
    Scan,
    Project,
    Limit,
    Join,
    CreateTable,
}

/// The kind of an operator, for pattern matching.
pub fn kind_of(op: &LogicalOperator) -> (r: OperatorKind)
    ensures
        r == spec_kind_of(*op),
{
    match op {
        LogicalOperator::Scan(_) => OperatorKind::Scan,
        LogicalOperator::Project(_) => OperatorKind::Project,
        LogicalOperator::Limit(_) => OperatorKind::Limit,
        LogicalOperator::Join(_) => OperatorKind::Join,
        LogicalOperator::CreateTable(_) => OperatorKind::CreateTable,
    }
}

/// The kind of an operator.
pub open spec fn spec_kind_of(op: LogicalOperator) -> OperatorKind {
    match op {
        LogicalOperator::Scan(_) => OperatorKind::Scan,
        LogicalOperator::Project(_) => OperatorKind::Project,
        LogicalOperator::Limit(_) => OperatorKind::Limit,
        LogicalOperator::Join(_) => OperatorKind::Join,
        LogicalOperator::CreateTable(_) => OperatorKind::CreateTable,
    }
}

/// What a pattern demands of a node's children.
pub enum PatternChildrenPredicate {
    /// Each listed pattern must match the corresponding child.
    Predicate(Vec<Pattern>),
    /// No demand on the children.
    NoPredicate,
}

/// A shape of the plan a rule fires on: the node's operator kind and
/// demands on its children.
pub struct Pattern {
    pub predicate: OperatorKind,
    pub children: PatternChildrenPredicate,
}

/// A rewrite rule: where it fires and what it does to the graph.
pub trait Rule {
    /// The shape of the plan this rule fires on.
    fn pattern(&self) -> Pattern;

    /// Rewrite the graph at a matched node; `true` when something changed.
    fn apply(&self, node_id: HepNodeId, graph: &mut HepGraph) -> (changed: bool)
        requires
            old(graph).wf(),
        ensures
            final(graph).wf(),
    ;
}

/// One node of the optimizer's plan graph.
#[derive(Clone, Debug)]
pub struct HepNode {
    pub operator: LogicalOperator,
    pub children: Vec<HepNodeId>,
}

/// A logical plan flattened into indexable nodes so that rules can splice
/// and swap without rebuilding the tree.
#[derive(Clone, Debug)]
pub struct HepGraph {
    pub nodes: Vec<HepNode>,
    pub root: HepNodeId,
}

impl HepGraph {
    /// Every child index points at a node.
    pub open spec fn wf(&self) -> bool {
        &&& (self.root as int) < self.nodes@.len()
        &&& (forall|i: int, c: int|
            0 <= i < self.nodes@.len() && 0 <= c < self.nodes@[i].children@.len() ==> ((
            #[trigger] self.nodes@[i].children@[c]) as int) < self.nodes@.len())
    }

    /// Flatten a plan into the graph, depth first; the plan's root is the
    /// graph's root.
    pub fn from_plan(plan: &LogicalPlan) -> (r: HepGraph)
        ensures
            r.wf(),
        decreases *plan,
    {
        let mut graph = HepGraph { nodes: Vec::new(), root: 0 };
        let root = graph.add_subtree(plan);
        graph.root = root;
        graph
    }

    /// Append a plan subtree, returning its node id.
    fn add_subtree(&mut self, plan: &LogicalPlan) -> (r: HepNodeId)
        requires
            forall|i: int, c: int|
                0 <= i < old(self).nodes@.len() && 0 <= c < old(self).nodes@[i].children@.len()
                    ==> ((#[trigger] old(self).nodes@[i].children@[c]) as int) < old(self).nodes@.len(),
        ensures
            final(self).nodes@.len() > old(self).nodes@.len(),
            (r as int) < final(self).nodes@.len(),
            final(self).root == old(self).root,
            forall|i: int, c: int|
                0 <= i < final(self).nodes@.len() && 0 <= c < final(self).nodes@[i].children@.len()
                    ==> ((#[trigger] final(self).nodes@[i].children@[c]) as int) < final(self).nodes@.len(),
        decreases *plan,
    {
        let mut children: Vec<HepNodeId> = Vec::new();
        let mut i: usize = 0;
        let n = plan.children.len();
        while i < n
            invariant
                i <= n,
                n == plan.children@.len(),
                self.root == old(self).root,
                self.nodes@.len() >= old(self).nodes@.len(),
                forall|a: int, c: int|
                    0 <= a < self.nodes@.len() && 0 <= c < self.nodes@[a].children@.len() ==> ((
                    #[trigger] self.nodes@[a].children@[c]) as int) < self.nodes@.len(),
                forall|j: int|
                    0 <= j < children@.len() ==> ((#[trigger] children@[j]) as int)
                        < self.nodes@.len(),
            decreases n - i,
        {
            let child = self.add_subtree(&plan.children[i]);
            children.push(child);
            i = i + 1;
        }
        let id = self.nodes.len();
        self.nodes.push(HepNode { operator: plan.operator.clone(), children });
        id
    }

    /// The ids of a node's input nodes.
    pub fn children_at(&self, id: HepNodeId) -> (r: Vec<HepNodeId>)
        requires
            self.wf(),
            (id as int) < self.nodes@.len(),
        ensures
            r@ == self.nodes@[id as int].children@,
    {
        let mut r: Vec<HepNodeId> = Vec::new();
        let node_children = &self.nodes[id].children;
        let mut i: usize = 0;
        while i < node_children.len()
            invariant
                i <= node_children@.len(),
                node_children@ == self.nodes@[id as int].children@,
                r@ == node_children@.take(i as int),
            decreases node_children@.len() - i,
        {
            r.push(node_children[i]);
            proof {
                assert(r@ =~= node_children@.take(i as int + 1));
            }
            i = i + 1;
        }
        proof {
            assert(node_children@.take(node_children@.len() as int) =~= node_children@);
        }
        r
    }

    /// The operator at a node, if the id is in range.
    pub fn operator(&self, id: HepNodeId) -> (r: Option<&LogicalOperator>)
        ensures
            (id as int) < self.nodes@.len() <==> r is Some,
            r matches Some(op) ==> *op == self.nodes@[id as int].operator,
    {
        if id < self.nodes.len() {
            Some(&self.nodes[id].operator)
        } else {
            None
        }
    }

    /// Swap the operators of two nodes, leaving both nodes' children in
    /// place: the classic transpose step.
    pub fn swap_node(&mut self, a: HepNodeId, b: HepNodeId)
        requires
            old(self).wf(),
            (a as int) < old(self).nodes@.len(),
            (b as int) < old(self).nodes@.len(),
        ensures
            final(self).wf(),
            final(self).nodes@.len() == old(self).nodes@.len(),
            final(self).nodes@[a as int].operator == old(self).nodes@[b as int].operator,
            final(self).nodes@[b as int].operator == old(self).nodes@[a as int].operator,
            final(self).nodes@[a as int].children@ == old(self).nodes@[a as int].children@,
            final(self).nodes@[b as int].children@ == old(self).nodes@[b as int].children@,
            forall|i: int|
                0 <= i < old(self).nodes@.len() && i != a && i != b ==> (#[trigger] final(self).nodes@[i]) == old(self).nodes@[i],
    {
        if a == b {
            return ;
        }
        let mut node_a = HepNode {
            operator: LogicalOperator::new_limit_operator(None, None),
            children: Vec::new(),
        };
        self.nodes.set_and_swap(a, &mut node_a);
        let mut node_b = HepNode {
            operator: LogicalOperator::new_limit_operator(None, None),
            children: Vec::new(),
        };
        self.nodes.set_and_swap(b, &mut node_b);
        self.nodes.set(a, HepNode { operator: node_b.operator, children: node_a.children });
        self.nodes.set(b, HepNode { operator: node_a.operator, children: node_b.children });
    }

    /// Replace the operator at a node.
    pub fn replace_node(&mut self, id: HepNodeId, operator: LogicalOperator)
        requires
            old(self).wf(),
            (id as int) < old(self).nodes@.len(),
        ensures
            final(self).wf(),
            final(self).nodes@.len() == old(self).nodes@.len(),
            final(self).nodes@[id as int].operator == operator,
            final(self).nodes@[id as int].children@ == old(self).nodes@[id as int].children@,
            forall|i: int|
                0 <= i < old(self).nodes@.len() && i != id ==> (#[trigger] final(self).nodes@[i])
                    == old(self).nodes@[i],
    {
        let children = self.children_at(id);
        self.nodes.set(id, HepNode { operator, children });
    }

    /// Remove a single-input node from the chain: its parent adopts its
    /// child. The removed operator is returned.
    pub fn remove_node(&mut self, id: HepNodeId, _with_children: bool) -> (r: Option<
        LogicalOperator,
    >)
        requires
            old(self).wf(),
        ensures
            final(self).wf(),
            final(self).nodes@.len() == old(self).nodes@.len(),
    {
        if id >= self.nodes.len() {
            return None;
        }
        if self.nodes[id].children.len() != 1 {
            return None;
        }
        let grandchild = self.nodes[id].children[0];
        let removed = self.nodes[id].operator.clone();
        // every parent pointing at `id` now points at its only child
        let n = self.nodes.len();
        let mut i: usize = 0;
        while i < n
            invariant
                i <= n,
                n == self.nodes@.len(),
                n == old(self).nodes@.len(),
                self.wf(),
                (id as int) < self.nodes@.len(),
                (grandchild as int) < self.nodes@.len(),
            decreases n - i,
        {
            let mut new_children: Vec<HepNodeId> = Vec::new();
            let node_len = self.nodes[i].children.len();
            let mut c: usize = 0;
            while c < node_len
                invariant
                    c <= node_len,
                    i < self.nodes@.len(),
                    node_len == self.nodes@[i as int].children@.len(),
                    self.wf(),
                    (grandchild as int) < self.nodes@.len(),
                    new_children@.len() == c,
                    forall|j: int|
                        0 <= j < c ==> ((#[trigger] new_children@[j]) as int) < self.nodes@.len(),
                decreases node_len - c,
            {
                let cur = self.nodes[i].children[c];
                if cur == id {
                    new_children.push(grandchild);
                } else {
                    new_children.push(cur);
                }
                c = c + 1;
            }
            let op = self.nodes[i].operator.clone();
            let ghost pre = self.nodes@;
            self.nodes.set(i, HepNode { operator: op, children: new_children });
            proof {
                assert forall|x: int, y: int|
                    0 <= x < self.nodes@.len() && 0 <= y < self.nodes@[x].children@.len() implies ((
                #[trigger] self.nodes@[x].children@[y]) as int) < self.nodes@.len() by {
                    if x != i {
                        assert(self.nodes@[x] == pre[x]);
                    }
                }
            }
            i = i + 1;
        }
        if self.root == id {
            self.root = grandchild;
        }
        Some(removed)
    }

    /// Rebuild the plan tree below a node.
    pub fn to_plan_at(&self, id: HepNodeId, fuel: usize) -> (r: Option<LogicalPlan>)
        requires
            self.wf(),
        decreases fuel,
    {
        if fuel == 0 || id >= self.nodes.len() {
            return None;
        }
        let child_ids = self.children_at(id);
        let mut children: Vec<LogicalPlan> = Vec::new();
        let mut i: usize = 0;
        while i < child_ids.len()
            invariant
                i <= child_ids@.len(),
                fuel >= 1,
                self.wf(),
            decreases child_ids@.len() - i,
        {
            match self.to_plan_at(child_ids[i], fuel - 1) {
                Some(p) => children.push(p),
                None => {
                    return None;
                },
            }
            i = i + 1;
        }
        Some(LogicalPlan { operator: self.nodes[id].operator.clone(), children })
    }
}

/// How a batch walks the graph; one pass from the root downward is the
/// only strategy the rules here need.
#[derive(Clone, Copy, Debug)]
pub enum HepMatchOrder {
    TopDown,
    BottomUp,
}

/// How often and in which order a batch's rules are tried.
#[derive(Clone, Copy, Debug)]
pub struct HepBatchStrategy {
    pub max_iteration: usize,
    pub match_order: HepMatchOrder,
}

impl HepBatchStrategy {
    /// One top-down sweep.
    pub fn once_topdown() -> (r: HepBatchStrategy)
        ensures
            r.max_iteration == 1,
    {
        HepBatchStrategy { max_iteration: 1, match_order: HepMatchOrder::TopDown }
    }
}

/// The heuristic optimizer: it owns the plan graph and applies rule
/// batches to it.
#[derive(Clone, Debug)]
pub struct HepOptimizer {
    pub graph: HepGraph,
}

impl HepOptimizer {
    pub fn new(logical_plan: LogicalPlan) -> (r: HepOptimizer)
        ensures
            r.graph.wf(),
    {
        HepOptimizer { graph: HepGraph::from_plan(&logical_plan) }
    }

    /// The optimizer the planner uses by default: limits are pushed past
    /// projections and adjacent limits are merged.
    pub fn default_optimizer(logical_plan: LogicalPlan) -> (r: HepOptimizer)
        ensures
            r.graph.wf(),
    {
        let optimizer = HepOptimizer::new(logical_plan);
        let optimizer = optimizer.batch(
            "push down limit",
            HepBatchStrategy::once_topdown(),
            vec![crate::push_down_limit::LimitProjectTranspose],
        );
        let optimizer = optimizer.batch(
            "merge adjacent limits",
            HepBatchStrategy::once_topdown(),
            vec![crate::push_down_limit::EliminateLimits],
        );
        optimizer
    }

    /// Does the pattern match the graph at this node?
    fn matches_at(&self, id: HepNodeId, pattern: &Pattern) -> (r: bool)
        requires
            self.graph.wf(),
    {
        if id >= self.graph.nodes.len() {
            return false;
        }
        let kind = kind_of(&self.graph.nodes[id].operator);
        if kind != pattern.predicate {
            return false;
        }
        match &pattern.children {
            PatternChildrenPredicate::NoPredicate => true,
            PatternChildrenPredicate::Predicate(child_patterns) => {
                let children = self.graph.children_at(id);
                let mut i: usize = 0;
                while i < child_patterns.len()
                    invariant
                        self.graph.wf(),
                        children@ == self.graph.nodes@[id as int].children@,
                        (id as int) < self.graph.nodes@.len(),
                    decreases child_patterns@.len() - i,
                {
                    if i >= children.len() {
                        return false;
                    }
                    let child_id = children[i];
                    if child_id >= self.graph.nodes.len() {
                        return false;
                    }
                    let child_kind = kind_of(&self.graph.nodes[child_id].operator);
                    if child_kind != child_patterns[i].predicate {
                        return false;
                    }
                    i = i + 1;
                }
                true
            },
        }
    }

    /// Run a named batch of rules over the graph under the given strategy
    /// and keep the rewritten graph.
    pub fn batch<R: Rule>(self, _name: &str, strategy: HepBatchStrategy, rules: Vec<R>) -> (r:
        HepOptimizer)
        requires
            self.graph.wf(),
        ensures
            r.graph.wf(),
    {
        let mut optimizer = self;
        let mut pass: usize = 0;
        while pass < strategy.max_iteration
            invariant
                optimizer.graph.wf(),
            decreases strategy.max_iteration - pass,
        {
            let mut ri: usize = 0;
            while ri < rules.len()
                invariant
                    optimizer.graph.wf(),
                decreases rules@.len() - ri,
            {
                let rule = &rules[ri];
                let pattern = rule.pattern();
                let n = optimizer.graph.nodes.len();
                let mut id: usize = 0;
                while id < n
                    invariant
                        optimizer.graph.wf(),
                    decreases n - id,
                {
                    if optimizer.matches_at(id, &pattern) {
                        let _changed = rule.apply(id, &mut optimizer.graph);
                    }
                    id = id + 1;
                }
                ri = ri + 1;
            }
            pass = pass + 1;
        }
        optimizer
    }

    /// The best plan the rules left behind.
    pub fn find_best(&mut self) -> (r: LogicalPlan)
        requires
            old(self).graph.wf(),
    {
        let n = self.graph.nodes.len();
        let fuel = if n < usize::MAX {
            n + 1
        } else {
            n
        };
        match self.graph.to_plan_at(self.graph.root, fuel) {
            Some(p) => p,
            None => LogicalPlan {
                operator: crate::logical_plan::LogicalOperator::new_limit_operator(None, None),
                children: Vec::new(),
            },
        }
    }
}

/// The optimizer the planner drives: heuristic rewrites, then the mapping
/// to a physical plan.
#[derive(Debug)]
pub struct Optimizer {
    pub hep_optimizer: HepOptimizer,
    pub physical_optimizer: PhysicalOptimizer,
}

impl Optimizer {
    pub fn new(logical_plan: LogicalPlan) -> (r: Optimizer)
        ensures
            r.hep_optimizer.graph.wf(),
    {
        Optimizer {
            hep_optimizer: HepOptimizer::default_optimizer(logical_plan),
            physical_optimizer: PhysicalOptimizer {  },
        }
    }

    /// Optimize the logical plan, then map it to a physical plan.
    pub fn find_best(&mut self) -> (r: PhysicalPlan)
        requires
            old(self).hep_optimizer.graph.wf(),
    {
        let optimized_logical_plan = self.hep_optimizer.find_best();
        self.physical_optimizer.find_best(optimized_logical_plan)
    }
}

} // verus!
