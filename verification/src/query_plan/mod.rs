//! Query plans: what is fetched from which subgraph, and in what order.

pub mod args;
pub mod compression;
pub mod compute;
pub mod dependency_graph;
pub mod laws;
pub mod order_laws;
pub mod planner;
pub mod planner_laws;
pub mod planning;
pub mod single_subgraph;

use crate::ast::Name;
use crate::collections::NameSet;
use crate::operation::selection::SelectionSet;
use crate::operation::selection::SelectionSetView;
use crate::query_graph::condition_resolver::QueryPlanCost;
use crate::query_graph::SchemaRootDefinitionKind;
use crate::text::Text;
use vstd::prelude::*;

verus! {

// Configuration.

/// A number that is not zero.
#[derive(Clone, Copy, Debug, Hash, PartialEq, Eq, Structural)]
pub struct NonZeroU32 {
    value: u32,
}

impl NonZeroU32 {
    #[verifier::type_invariant]
    spec fn is_not_zero(self) -> bool {
        self.value != 0
    }

    /// The number.
    pub closed spec fn number(self) -> u32 {
        self.value
    }

    /// The number, unless it is zero.
    pub fn new(value: u32) -> (r: Option<Self>)
        ensures
            r is Some == (value != 0),
            r matches Some(n) ==> n.number() == value,
    {
        if value == 0 {
            None
        } else {
            Some(NonZeroU32 { value })
        }
    }

    /// The number.
    pub fn get(self) -> (r: u32)
        ensures
            r == self.number(),
            r != 0,
    {
        proof {
            use_type_invariant(&self);
        }
        self.value
    }

    /// The number of plans that are compared if nothing is said.
    pub closed spec fn default_limit() -> Self {
        NonZeroU32 { value: 10_000 }
    }

    /// The number of plans that are compared if nothing is said.
    fn ten_thousand() -> (r: Self)
        ensures
            r == Self::default_limit(),
            r.number() == 10_000,
    {
        NonZeroU32 { value: 10_000 }
    }
}

/// How queries are planned.
#[derive(Clone, Copy, Debug, Hash)]
pub struct QueryPlannerConfig {
    /// Whether common selections are put into named fragments, so that what is sent to subgraphs
    /// is smaller. Off by default.
    pub generate_query_fragments: bool,
    /// Whether the schemas of the subgraphs are validated. Off by default.
    pub subgraph_graphql_validation: bool,
    pub incremental_delivery: QueryPlanIncrementalDeliveryConfig,
    /// What is meant for debugging.
    pub debug: QueryPlannerDebugConfig,
    /// Whether what is fetched depends on the types of what was fetched before. Off by default.
    pub type_conditioned_fetching: bool,
}

impl Default for QueryPlannerConfig {
    fn default() -> (r: Self)
        ensures
            !r.generate_query_fragments,
            !r.subgraph_graphql_validation,
            !r.incremental_delivery.enable_defer,
            r.debug.max_evaluated_plans == NonZeroU32::default_limit(),
            r.debug.max_evaluated_plans.number() == 10_000,
            r.debug.paths_limit is None,
            !r.type_conditioned_fetching,
    {
        QueryPlannerConfig {
            generate_query_fragments: false,
            subgraph_graphql_validation: false,
            incremental_delivery: QueryPlanIncrementalDeliveryConfig::default(),
            debug: QueryPlannerDebugConfig::default(),
            type_conditioned_fetching: false,
        }
    }
}

/// What is delivered later than the rest.
#[derive(Clone, Copy, Debug, Hash)]
pub struct QueryPlanIncrementalDeliveryConfig {
    /// Whether `@defer` splits a plan. If not, operations with `@defer` are planned as if they had
    /// none. Off by default.
    pub enable_defer: bool,
}

impl Default for QueryPlanIncrementalDeliveryConfig {
    fn default() -> (r: Self)
        ensures
            !r.enable_defer,
    {
        QueryPlanIncrementalDeliveryConfig { enable_defer: false }
    }
}

/// What is meant for debugging.
#[derive(Clone, Copy, Debug, Hash)]
pub struct QueryPlannerDebugConfig {
    /// The largest number of plans that are compared. With fewer, a plan is found sooner and may
    /// not be the best one.
    pub max_evaluated_plans: NonZeroU32,
    /// The largest number of ways to take for one path of the query, if there is a limit.
    pub paths_limit: Option<u32>,
}

impl Default for QueryPlannerDebugConfig {
    fn default() -> (r: Self)
        ensures
            r.max_evaluated_plans == NonZeroU32::default_limit(),
            r.max_evaluated_plans.number() == 10_000,
            r.paths_limit is None,
    {
        QueryPlannerDebugConfig {
            max_evaluated_plans: NonZeroU32::ten_thousand(),
            paths_limit: None,
        }
    }
}

/// What is known of how a plan was found.
#[derive(Clone, Copy, Debug, PartialEq, Eq, Structural)]
pub struct QueryPlanningStatistics {
    pub evaluated_plan_count: usize,
    pub evaluated_plan_paths: usize,
    /// What the plan costs; not a number if that was not computed.
    pub best_plan_cost: QueryPlanCost,
}

impl Default for QueryPlanningStatistics {
    fn default() -> (r: Self)
        ensures
            r == no_statistics(),
    {
        QueryPlanningStatistics {
            evaluated_plan_count: 0,
            evaluated_plan_paths: 0,
            best_plan_cost: QueryPlanCost { bits: 0 },
        }
    }
}

/// What is known before anything was planned.
pub open spec fn no_statistics() -> QueryPlanningStatistics {
    QueryPlanningStatistics {
        evaluated_plan_count: 0,
        evaluated_plan_paths: 0,
        best_plan_cost: QueryPlanCost { bits: 0 },
    }
}

/// What can be chosen for one plan.
pub struct QueryPlanOptions<C> {
    /// The labels of overrides that are on: edges ask for the presence or the absence of a label.
    pub override_conditions: Vec<String>,
    /// Asked from time to time whether planning is to stop. None by default.
    pub check_for_cooperative_cancellation: Option<C>,
    /// Whether the number of selections that are not local is limited. On by default.
    pub non_local_selections_limit_enabled: bool,
    /// The subgraphs that are not to be used.
    pub disabled_subgraph_names: NameSet,
}

impl<C> Default for QueryPlanOptions<C> {
    fn default() -> (r: Self)
        ensures
            r.override_conditions@.len() == 0,
            r.check_for_cooperative_cancellation is None,
            r.non_local_selections_limit_enabled,
            r.disabled_subgraph_names.deep_view() == Seq::<Text>::empty(),
    {
        QueryPlanOptions {
            override_conditions: Vec::new(),
            check_for_cooperative_cancellation: None,
            non_local_selections_limit_enabled: true,
            disabled_subgraph_names: NameSet::new(),
        }
    }
}

// Costs.

/// The bits of a floating point number without its sign.
pub open spec fn magnitude(cost: QueryPlanCost) -> int {
    cost.bits as int % 0x8000_0000_0000_0000
}

/// Whether the bits of a floating point number stand for no number.
pub open spec fn is_nan(cost: QueryPlanCost) -> bool {
    magnitude(cost) > 0x7ff0_0000_0000_0000
}

/// An integer that is ordered as the number is: bits of a larger number are larger, without the
/// sign.
pub open spec fn cost_rank(cost: QueryPlanCost) -> int {
    if cost.bits >= 0x8000_0000_0000_0000 {
        -magnitude(cost)
    } else {
        magnitude(cost)
    }
}

/// The larger one of two costs; if one is not a number, the other one.
pub open spec fn larger_cost(a: QueryPlanCost, b: QueryPlanCost) -> QueryPlanCost {
    if is_nan(a) {
        b
    } else if is_nan(b) || cost_rank(a) >= cost_rank(b) {
        a
    } else {
        b
    }
}

/// The cost of a plan whose cost was not computed: not a number.
pub open spec fn unknown_cost() -> QueryPlanCost {
    QueryPlanCost { bits: 0x7ff8_0000_0000_0000 }
}

impl QueryPlanCost {
    fn rank(self) -> (r: (bool, i128))
        ensures
            r.0 == is_nan(self),
            r.1 == cost_rank(self),
    {
        let size: u64 = self.bits % 0x8000_0000_0000_0000;
        let signed: i128 = if self.bits >= 0x8000_0000_0000_0000 {
            -(size as i128)
        } else {
            size as i128
        };
        (size > 0x7ff0_0000_0000_0000, signed)
    }

    /// The larger one of two costs; if one is not a number, the other one.
    pub fn max(self, other: QueryPlanCost) -> (r: QueryPlanCost)
        ensures
            r == larger_cost(self, other),
    {
        let (nan, rank) = self.rank();
        let (other_nan, other_rank) = other.rank();
        if nan {
            other
        } else if other_nan || rank >= other_rank {
            self
        } else {
            other
        }
    }
}

/// The larger cost does not depend on the order of the two, save for the sign of a zero and for
/// two that are not numbers.
pub proof fn law_larger_cost_is_symmetric(a: QueryPlanCost, b: QueryPlanCost)
    ensures
        is_nan(larger_cost(a, b)) == is_nan(larger_cost(b, a)),
        !is_nan(larger_cost(a, b)) ==> cost_rank(larger_cost(a, b)) == cost_rank(
            larger_cost(b, a),
        ),
{
}

/// The larger cost is at least both, if they are numbers.
pub proof fn law_larger_cost_is_an_upper_bound(a: QueryPlanCost, b: QueryPlanCost)
    requires
        !is_nan(a),
        !is_nan(b),
    ensures
        cost_rank(a) <= cost_rank(larger_cost(a, b)),
        cost_rank(b) <= cost_rank(larger_cost(a, b)),
{
}

// Plans.

/// Something that is fetched from a subgraph.
pub struct FetchNode {
    pub subgraph_name: Name,
    pub operation_name: Option<Name>,
    pub operation_kind: SchemaRootDefinitionKind,
    /// What is selected, in order.
    pub selection_sets: Vec<SelectionSet>,
}

/// The mathematical content of a [`FetchNode`].
#[verifier::ext_equal]
pub struct FetchView {
    pub subgraph_name: Text,
    pub operation_name: Option<Text>,
    pub operation_kind: SchemaRootDefinitionKind,
    pub selection_sets: Seq<SelectionSetView>,
}

impl DeepView for FetchNode {
    type V = FetchView;

    open spec fn deep_view(&self) -> FetchView {
        FetchView {
            subgraph_name: self.subgraph_name@,
            operation_name: self.operation_name.deep_view(),
            operation_kind: self.operation_kind,
            selection_sets: self.selection_sets.deep_view(),
        }
    }
}

/// A part of a plan.
pub enum PlanNode {
    Fetch(Box<FetchNode>),
    Sequence(SequenceNode),
    Parallel(ParallelNode),
    Flatten(FlattenNode),
    Defer(DeferNode),
    Condition(Box<ConditionNode>),
}

/// Parts that are done one after the other.
pub struct SequenceNode {
    pub nodes: Vec<PlanNode>,
}

/// Parts that can be done at the same time.
pub struct ParallelNode {
    pub nodes: Vec<PlanNode>,
}

/// A part whose result belongs at a path.
pub struct FlattenNode {
    pub path: Vec<Name>,
    pub node: Box<PlanNode>,
}

/// A part that is delivered first, and those that follow.
pub struct DeferNode {
    pub primary_selection: Option<SelectionSet>,
    pub primary: Option<Box<PlanNode>>,
    pub deferred: Vec<DeferredNode>,
}

/// A part that is delivered later.
pub struct DeferredNode {
    pub label: Option<Name>,
    pub query_path: Vec<Name>,
    pub node: Option<Box<PlanNode>>,
}

/// Parts one of which is done, depending on a variable.
pub struct ConditionNode {
    pub condition_variable: Name,
    pub if_clause: Option<Box<PlanNode>>,
    pub else_clause: Option<Box<PlanNode>>,
}

/// The mathematical content of a [`PlanNode`].
#[verifier::ext_equal]
pub enum PlanView {
    Fetch(FetchView),
    Sequence(Seq<PlanView>),
    Parallel(Seq<PlanView>),
    Flatten { path: Seq<Text>, node: Box<PlanView> },
    Defer {
        primary_selection: Option<SelectionSetView>,
        primary: Option<Box<PlanView>>,
        deferred: Seq<DeferredView>,
    },
    Condition {
        condition_variable: Text,
        if_clause: Option<Box<PlanView>>,
        else_clause: Option<Box<PlanView>>,
    },
}

/// The mathematical content of a [`DeferredNode`].
#[verifier::ext_equal]
pub struct DeferredView {
    pub label: Option<Text>,
    pub query_path: Seq<Text>,
    pub node: Option<Box<PlanView>>,
}

/// The content of a part of a plan.
pub open spec fn plan_view(node: PlanNode) -> PlanView
    decreases node,
{
    match node {
        PlanNode::Fetch(fetch) => PlanView::Fetch(fetch.deep_view()),
        PlanNode::Sequence(sequence) => PlanView::Sequence(
            Seq::new(
                sequence.nodes@.len(),
                |i: int|
                    if 0 <= i < sequence.nodes@.len() {
                        plan_view(sequence.nodes@[i])
                    } else {
                        arbitrary()
                    },
            ),
        ),
        PlanNode::Parallel(parallel) => PlanView::Parallel(
            Seq::new(
                parallel.nodes@.len(),
                |i: int|
                    if 0 <= i < parallel.nodes@.len() {
                        plan_view(parallel.nodes@[i])
                    } else {
                        arbitrary()
                    },
            ),
        ),
        PlanNode::Flatten(flatten) => PlanView::Flatten {
            path: flatten.path.deep_view(),
            node: Box::new(plan_view(*flatten.node)),
        },
        PlanNode::Defer(defer) => PlanView::Defer {
            primary_selection: defer.primary_selection.deep_view(),
            primary: match defer.primary {
                Some(primary) => Some(Box::new(plan_view(*primary))),
                None => None,
            },
            deferred: Seq::new(
                defer.deferred@.len(),
                |i: int|
                    if 0 <= i < defer.deferred@.len() {
                        deferred_view(defer.deferred@[i])
                    } else {
                        arbitrary()
                    },
            ),
        },
        PlanNode::Condition(condition) => PlanView::Condition {
            condition_variable: condition.condition_variable@,
            if_clause: match condition.if_clause {
                Some(clause) => Some(Box::new(plan_view(*clause))),
                None => None,
            },
            else_clause: match condition.else_clause {
                Some(clause) => Some(Box::new(plan_view(*clause))),
                None => None,
            },
        },
    }
}

/// The content of a part that is delivered later.
pub open spec fn deferred_view(node: DeferredNode) -> DeferredView
    decreases node,
{
    DeferredView {
        label: node.label.deep_view(),
        query_path: node.query_path.deep_view(),
        node: match node.node {
            Some(later) => Some(Box::new(plan_view(*later))),
            None => None,
        },
    }
}

impl DeepView for PlanNode {
    type V = PlanView;

    open spec fn deep_view(&self) -> PlanView {
        plan_view(*self)
    }
}

impl DeepView for DeferredNode {
    type V = DeferredView;

    open spec fn deep_view(&self) -> DeferredView {
        deferred_view(*self)
    }
}

/// The kind of a part of a plan.
pub open spec fn node_kind(node: PlanView) -> Text {
    match node {
        PlanView::Fetch(_) => "Fetch"@,
        PlanView::Sequence(_) => "Sequence"@,
        PlanView::Parallel(_) => "Parallel"@,
        PlanView::Flatten { path, node } => "Flatten"@,
        PlanView::Defer { primary_selection, primary, deferred } => "Defer"@,
        PlanView::Condition { condition_variable, if_clause, else_clause } => "Condition"@,
    }
}

impl PlanNode {
    /// The kind of the part.
    pub fn node_kind(&self) -> (r: &'static str)
        ensures
            r@ == node_kind(self.deep_view()),
    {
        match self {
            PlanNode::Fetch(_) => "Fetch",
            PlanNode::Sequence(_) => "Sequence",
            PlanNode::Parallel(_) => "Parallel",
            PlanNode::Flatten(_) => "Flatten",
            PlanNode::Defer(_) => "Defer",
            PlanNode::Condition(_) => "Condition",
        }
    }
}

/// A subscription: what is subscribed to, and what is done for every event.
pub struct SubscriptionNode {
    pub primary: Box<FetchNode>,
    pub rest: Option<Box<PlanNode>>,
}

/// What a plan starts with.
pub enum TopLevelPlanNode {
    Subscription(SubscriptionNode),
    Fetch(Box<FetchNode>),
    Sequence(SequenceNode),
    Parallel(ParallelNode),
    Flatten(FlattenNode),
    Defer(DeferNode),
    Condition(Box<ConditionNode>),
}

/// The mathematical content of a [`TopLevelPlanNode`].
#[verifier::ext_equal]
pub enum TopLevelView {
    Subscription { primary: FetchView, rest: Option<PlanView> },
    Node(PlanView),
}

impl DeepView for TopLevelPlanNode {
    type V = TopLevelView;

    open spec fn deep_view(&self) -> TopLevelView {
        match self {
            TopLevelPlanNode::Subscription(subscription) => TopLevelView::Subscription {
                primary: subscription.primary.deep_view(),
                rest: match subscription.rest {
                    Some(rest) => Some(plan_view(*rest)),
                    None => None,
                },
            },
            TopLevelPlanNode::Fetch(fetch) => TopLevelView::Node(plan_view(PlanNode::Fetch(*fetch))),
            TopLevelPlanNode::Sequence(sequence) => TopLevelView::Node(
                plan_view(PlanNode::Sequence(*sequence)),
            ),
            TopLevelPlanNode::Parallel(parallel) => TopLevelView::Node(
                plan_view(PlanNode::Parallel(*parallel)),
            ),
            TopLevelPlanNode::Flatten(flatten) => TopLevelView::Node(
                plan_view(PlanNode::Flatten(*flatten)),
            ),
            TopLevelPlanNode::Defer(defer) => TopLevelView::Node(plan_view(PlanNode::Defer(*defer))),
            TopLevelPlanNode::Condition(condition) => TopLevelView::Node(
                plan_view(PlanNode::Condition(*condition)),
            ),
        }
    }
}

/// A plan.
pub struct QueryPlan {
    pub node: Option<TopLevelPlanNode>,
    pub statistics: QueryPlanningStatistics,
}

/// The mathematical content of a [`QueryPlan`].
#[verifier::ext_equal]
pub struct QueryPlanView {
    pub node: Option<TopLevelView>,
    pub statistics: QueryPlanningStatistics,
}

impl DeepView for QueryPlan {
    type V = QueryPlanView;

    open spec fn deep_view(&self) -> QueryPlanView {
        QueryPlanView { node: self.node.deep_view(), statistics: self.statistics }
    }
}

/// The plan that does nothing.
pub open spec fn empty_plan() -> QueryPlanView {
    QueryPlanView { node: None, statistics: no_statistics() }
}

impl Default for QueryPlan {
    fn default() -> (r: Self)
        ensures
            r.deep_view() == empty_plan(),
    {
        QueryPlan { node: None, statistics: QueryPlanningStatistics::default() }
    }
}

} // verus!
