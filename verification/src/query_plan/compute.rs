//! Plans for operations, from the best plans for their selections.

use crate::ast::Name;
use crate::collections::Entries;
use crate::collections::NameMap;
use crate::collections::NameSet;
use crate::error::internal_error;
use crate::error::result_view;
use crate::error::ErrorView;
use crate::error::FederationError;
use crate::operation::merging::merged_sets;
use crate::operation::operations::reduced_operation;
use crate::operation::operations::OperationView;
use crate::operation::selection::SelectionSet;
use crate::operation::selection::SelectionSetView;
use crate::operation::trees::split_fields;
use crate::query_graph::condition_resolver::QueryPlanCost;
use crate::query_graph::edge_weight;
use crate::query_graph::node_weight;
use crate::query_graph::source_of;
use crate::query_graph::GraphView;
use crate::query_graph::NodeTypeView;
use crate::query_graph::QueryGraph;
use crate::query_graph::QueryGraphNodeType;
use crate::query_graph::SchemaRootDefinitionKind;
use crate::query_plan::dependency_graph::child_view;
use crate::query_plan::dependency_graph::extended_tree;
use crate::query_plan::dependency_graph::new_graph;
use crate::query_plan::dependency_graph::nothing_to_fetch;
use crate::query_plan::dependency_graph::with_root_node;
use crate::query_plan::dependency_graph::BestPlanView;
use crate::query_plan::dependency_graph::BestQueryPlanInfo;
use crate::query_plan::dependency_graph::DependencyGraphView;
use crate::query_plan::dependency_graph::FetchDependencyGraph;
use crate::query_plan::dependency_graph::OpPathTree;
use crate::query_plan::dependency_graph::ParametersView;
use crate::query_plan::dependency_graph::PlanningProgress;
use crate::query_plan::dependency_graph::PlanProcessor;
use crate::query_plan::dependency_graph::ProcessorView;
use crate::query_plan::dependency_graph::QueryPlanningParameters;
use crate::query_plan::dependency_graph::TreeChildView;
use crate::query_plan::dependency_graph::TreeView;
use crate::query_plan::larger_cost;
use crate::query_plan::planning::as_planned;
use crate::query_plan::planning::can_check;
use crate::query_plan::planning::graph_result;
use crate::query_plan::planning::PlanningModel;
use crate::query_plan::planning::PlanningSteps;
use crate::query_plan::unknown_cost;
use crate::query_plan::ConditionNode;
use crate::query_plan::DeferredNode;
use crate::query_plan::DeferredView;
use crate::query_plan::PlanNode;
use crate::query_plan::PlanView;
use crate::schema::position::as_composite;
use crate::schema::position::get_type;
use crate::schema::position::position_name;
use crate::schema::position::CompositeTypeDefinitionPosition;
use crate::schema::position::CompositeView;
use crate::schema::position::PositionView;
use crate::schema::position::TypeDefinitionPosition;
use crate::schema::Schema;
use crate::schema::SchemaView;
use crate::text::joined3;
use crate::text::joined;
use crate::text::same;
use crate::text::Text;
use std::ops::ControlFlow;
use std::sync::Arc;
use vstd::prelude::*;

verus! {

// Root types.

/// The word for a kind of root operations.
pub open spec fn kind_text(kind: SchemaRootDefinitionKind) -> Text {
    match kind {
        SchemaRootDefinitionKind::Query => "query"@,
        SchemaRootDefinitionKind::Mutation => "mutation"@,
        SchemaRootDefinitionKind::Subscription => "subscription"@,
    }
}

/// The type of a node of the query graph as text.
pub open spec fn node_type_text(type_: NodeTypeView) -> Text {
    match type_ {
        NodeTypeView::SchemaType(position) => position_name(position),
        NodeTypeView::FederatedRootType(kind) => "["@ + kind_text(kind) + "]"@,
    }
}

/// The name of the type of root operations of a kind.
pub open spec fn root_operation(schema: SchemaView, kind: SchemaRootDefinitionKind) -> Option<Text> {
    match kind {
        SchemaRootDefinitionKind::Query => schema.schema_definition.query,
        SchemaRootDefinitionKind::Mutation => schema.schema_definition.mutation,
        SchemaRootDefinitionKind::Subscription => schema.schema_definition.subscription,
    }
}

/// The type that what is delivered first is selected on, if something may be deferred.
pub open spec fn root_type_for_defer(
    schema: SchemaView,
    kind: SchemaRootDefinitionKind,
    has_defers: bool,
) -> Option<CompositeView> {
    if !has_defers {
        None
    } else {
        match root_operation(schema, kind) {
            None => None,
            Some(name) => match get_type(schema, name) {
                Err(_) => None,
                Ok(position) => as_composite(position),
            },
        }
    }
}

/// The subgraph that an edge from the root enters, and the type that it enters at.
pub open spec fn entered(graph: GraphView, edge: Option<usize>) -> Result<
    (Text, CompositeView),
    ErrorView,
> {
    match edge {
        None => Err(internal_error("The root edge should not be None"@)),
        Some(index) => match edge_weight(graph, index) {
            Err(error) => Err(error),
            Ok(weight) => match node_weight(graph, weight.tail) {
                Err(error) => Err(error),
                Ok(node) => match node.type_ {
                    NodeTypeView::SchemaType(PositionView::Object(name)) => Ok(
                        (node.source, CompositeView::Object(name)),
                    ),
                    _ => Err(
                        internal_error(
                            "expected an object type for the root of a subgraph, found "@
                                + node_type_text(node.type_),
                        ),
                    ),
                },
            },
        },
    }
}

impl SchemaRootDefinitionKind {
    /// The word for the kind.
    pub fn text(self) -> (r: &'static str)
        ensures
            r@ == kind_text(self),
    {
        match self {
            SchemaRootDefinitionKind::Query => "query",
            SchemaRootDefinitionKind::Mutation => "mutation",
            SchemaRootDefinitionKind::Subscription => "subscription",
        }
    }
}

impl QueryGraphNodeType {
    /// The type as text.
    pub fn text(&self) -> (r: String)
        ensures
            r@ == node_type_text(self.deep_view()),
    {
        match self {
            QueryGraphNodeType::SchemaType(position) => position.name().clone(),
            QueryGraphNodeType::FederatedRootType(kind) => joined3("[", kind.text(), "]"),
        }
    }
}

impl Schema {
    /// The name of the type of root operations of a kind.
    pub fn root_operation(&self, kind: SchemaRootDefinitionKind) -> (r: Option<&Name>)
        ensures
            r.deep_view() == root_operation(self.deep_view(), kind),
    {
        match kind {
            SchemaRootDefinitionKind::Query => self.schema_definition.query.as_ref(),
            SchemaRootDefinitionKind::Mutation => self.schema_definition.mutation.as_ref(),
            SchemaRootDefinitionKind::Subscription => self.schema_definition.subscription.as_ref(),
        }
    }
}

fn find_root_type_for_defer(
    schema: &Arc<Schema>,
    kind: SchemaRootDefinitionKind,
    has_defers: bool,
) -> (r: Option<CompositeTypeDefinitionPosition>)
    ensures
        r.deep_view() == root_type_for_defer(schema.deep_view(), kind, has_defers),
{
    if !has_defers {
        return None;
    }
    match schema.root_operation(kind) {
        None => None,
        Some(name) => match schema.get_type(name) {
            Err(_) => None,
            Ok(position) => position.to_composite(),
        },
    }
}

fn enter(graph: &QueryGraph, edge: Option<usize>) -> (r: Result<
    (Name, CompositeTypeDefinitionPosition),
    FederationError,
>)
    ensures
        match (r, entered(graph.deep_view(), edge)) {
            (Ok((subgraph, position)), Ok(found)) => (subgraph@, position.deep_view()) == found,
            (Err(error), Err(found)) => error.deep_view() == found,
            _ => false,
        },
{
    let index: usize = match edge {
        Some(index) => index,
        None => {
            return Err(FederationError::internal("The root edge should not be None"));
        },
    };
    let weight = match graph.edge_weight(index) {
        Ok(weight) => weight,
        Err(error) => {
            return Err(error);
        },
    };
    let node = match graph.node_weight(weight.tail) {
        Ok(node) => node,
        Err(error) => {
            return Err(error);
        },
    };
    match &node.type_ {
        QueryGraphNodeType::SchemaType(TypeDefinitionPosition::Object(name)) => Ok(
            (node.source.clone(), CompositeTypeDefinitionPosition::Object(name.clone())),
        ),
        other => Err(
            FederationError::internal(
                &joined(
                    "expected an object type for the root of a subgraph, found ",
                    &other.text(),
                ),
            ),
        ),
    }
}

// What is fetched first.

/// What a graph fetches with one more branch at the root.
pub open spec fn with_child(
    m: PlanningModel,
    graph: GraphView,
    supergraph: SchemaView,
    root_kind: SchemaRootDefinitionKind,
    type_conditioned: bool,
    before: DependencyGraphView,
    child: TreeChildView,
) -> Result<DependencyGraphView, ErrorView> {
    match entered(graph, child.edge) {
        Err(error) => Err(error),
        Ok((subgraph, position)) => match source_of(graph, subgraph) {
            Err(error) => Err(error),
            Ok(_) => match (m.convert_type)(position, graph, subgraph, supergraph) {
                Err(error) => Err(error),
                Ok(root_type) => (m.compute_nodes)(
                    with_root_node(before, subgraph, root_kind, position).0,
                    child.tree,
                    with_root_node(before, subgraph, root_kind, position).1,
                    type_conditioned,
                    root_type,
                ),
            },
        },
    }
}

/// What a graph fetches with the first `n` branches of a tree.
pub open spec fn with_childs(
    m: PlanningModel,
    graph: GraphView,
    supergraph: SchemaView,
    root_kind: SchemaRootDefinitionKind,
    type_conditioned: bool,
    before: DependencyGraphView,
    childs: Seq<TreeChildView>,
    n: nat,
) -> Result<DependencyGraphView, ErrorView>
    decreases n,
{
    if n == 0 {
        Ok(before)
    } else {
        match with_childs(
            m,
            graph,
            supergraph,
            root_kind,
            type_conditioned,
            before,
            childs,
            (n - 1) as nat,
        ) {
            Err(error) => Err(error),
            Ok(so_far) => with_child(
                m,
                graph,
                supergraph,
                root_kind,
                type_conditioned,
                so_far,
                childs[n - 1],
            ),
        }
    }
}

proof fn lemma_childs_error(
    m: PlanningModel,
    graph: GraphView,
    supergraph: SchemaView,
    root_kind: SchemaRootDefinitionKind,
    type_conditioned: bool,
    before: DependencyGraphView,
    childs: Seq<TreeChildView>,
    n: nat,
    all: nat,
)
    requires
        n <= all,
        with_childs(m, graph, supergraph, root_kind, type_conditioned, before, childs, n) is Err,
    ensures
        with_childs(m, graph, supergraph, root_kind, type_conditioned, before, childs, all)
            == with_childs(m, graph, supergraph, root_kind, type_conditioned, before, childs, n),
    decreases all,
{
    if n < all {
        lemma_childs_error(
            m,
            graph,
            supergraph,
            root_kind,
            type_conditioned,
            before,
            childs,
            n,
            (all - 1) as nat,
        );
    }
}

/// Adds what the branches of a tree fetch. Each enters a subgraph from the root of the query graph.
pub fn compute_root_fetch_groups<P: PlanningSteps, C: Fn() -> ControlFlow<()>>(
    steps: &P,
    root_kind: SchemaRootDefinitionKind,
    federated_query_graph: &QueryGraph,
    supergraph_schema: &Arc<Schema>,
    dependency_graph: &mut FetchDependencyGraph,
    path: &OpPathTree,
    type_conditioned_fetching_enabled: bool,
    check: &Option<C>,
) -> (r: Result<(), FederationError>)
    requires
        can_check(*check),
    ensures
        as_planned(
            *check,
            graph_result(r, *final(dependency_graph)),
            with_childs(
                steps.model(),
                federated_query_graph.deep_view(),
                supergraph_schema.deep_view(),
                root_kind,
                type_conditioned_fetching_enabled,
                old(dependency_graph).deep_view(),
                path.deep_view().childs,
                path.deep_view().childs.len(),
            ),
        ),
{
    let ghost m = steps.model();
    let ghost q = federated_query_graph.deep_view();
    let ghost schema = supergraph_schema.deep_view();
    let ghost start = dependency_graph.deep_view();
    let ghost childs = path.deep_view().childs;
    let ghost conditioned = type_conditioned_fetching_enabled;
    let mut i: usize = 0;
    while i < path.childs.len()
        invariant
            i <= path.childs@.len(),
            can_check(*check),
            m == steps.model(),
            q == federated_query_graph.deep_view(),
            schema == supergraph_schema.deep_view(),
            start == old(dependency_graph).deep_view(),
            childs == path.deep_view().childs,
            childs.len() == path.childs@.len(),
            conditioned == type_conditioned_fetching_enabled,
            with_childs(m, q, schema, root_kind, conditioned, start, childs, i as nat) == Ok::<
                DependencyGraphView,
                ErrorView,
            >(dependency_graph.deep_view()),
        decreases path.childs@.len() - i,
    {
        let child = &path.childs[i];
        let ghost before = dependency_graph.deep_view();
        assert(childs[i as int] == child_view(*child));
        assert(childs[i as int].edge == child.edge);
        assert(childs[i as int].tree == child.tree.deep_view());
        let ghost next = with_child(m, q, schema, root_kind, conditioned, before, childs[i as int]);
        proof {
            if next is Err {
                lemma_childs_error(
                    m,
                    q,
                    schema,
                    root_kind,
                    conditioned,
                    start,
                    childs,
                    i as nat + 1,
                    childs.len(),
                );
            }
        }
        let (subgraph, root_type) = match enter(federated_query_graph, child.edge) {
            Ok(entered) => entered,
            Err(error) => {
                return Err(error);
            },
        };
        let node: usize = dependency_graph.get_or_create_root_node(&subgraph, root_kind, &root_type);
        if let Err(error) = federated_query_graph.source(&subgraph) {
            return Err(error);
        }
        let supergraph_root_type = match steps.convert_type_from_subgraph(
            root_type,
            federated_query_graph,
            &subgraph,
            supergraph_schema,
        ) {
            Ok(position) => position,
            Err(error) => {
                return Err(error);
            },
        };
        if let Err(error) = steps.compute_nodes_for_tree(
            dependency_graph,
            &child.tree,
            node,
            type_conditioned_fetching_enabled,
            supergraph_root_type,
            check,
        ) {
            return Err(error);
        }
        i += 1;
    }
    Ok(())
}

/// The subgraph of the only node at the root of a graph.
pub open spec fn root_subgraph(m: PlanningModel, graph: DependencyGraphView) -> Result<Text, ErrorView> {
    if graph.root_nodes_by_subgraph.len() == 1 {
        Ok(graph.root_nodes_by_subgraph[0].0)
    } else {
        Err(internal_error((m.describe)(graph) + " should have only one root."@))
    }
}

/// The subgraph of the only node at the root of a graph.
pub fn only_root_subgraph<P: PlanningSteps>(steps: &P, graph: &FetchDependencyGraph) -> (r: Result<
    Name,
    FederationError,
>)
    ensures
        result_view(r) == root_subgraph(steps.model(), graph.deep_view()),
{
    if graph.root_nodes_by_subgraph.len() == 1 {
        Ok(graph.root_nodes_by_subgraph.key_at(0).clone())
    } else {
        let text = steps.describe(graph);
        Err(FederationError::internal(&joined(&text, " should have only one root.")))
    }
}

// The best plans.

/// The best plan for some selections. If there is none, nothing can be fetched, and the plan does
/// nothing.
pub open spec fn best_plan(
    m: PlanningModel,
    p: ParametersView,
    selection: SelectionSetView,
    has_defers: bool,
    progress: PlanningProgress,
) -> Result<(BestPlanView, PlanningProgress), ErrorView> {
    match (m.find_best_plan)(p, selection, has_defers, progress) {
        Err(error) => Err(error),
        Ok((Some(plan), after)) => Ok((plan, after)),
        Ok((None, after)) => Ok((nothing_to_fetch(p.supergraph_schema), after)),
    }
}

/// The content of a result together with what was counted.
pub open spec fn with_progress<T: DeepView>(
    r: Result<T, FederationError>,
    progress: PlanningProgress,
) -> Result<(T::V, PlanningProgress), ErrorView> {
    match r {
        Ok(value) => Ok((value.deep_view(), progress)),
        Err(error) => Err(error.deep_view()),
    }
}

fn compute_root_parallel_best_plan<P: PlanningSteps, C: Fn() -> ControlFlow<()>>(
    steps: &P,
    parameters: &QueryPlanningParameters<'_, C>,
    selection: SelectionSet,
    has_defers: bool,
    progress: &mut PlanningProgress,
) -> (r: Result<BestQueryPlanInfo, FederationError>)
    requires
        can_check(*parameters.check_for_cooperative_cancellation),
    ensures
        as_planned(
            *parameters.check_for_cooperative_cancellation,
            with_progress(r, *final(progress)),
            best_plan(
                steps.model(),
                parameters.content(),
                selection.deep_view(),
                has_defers,
                *old(progress),
            ),
        ),
{
    match steps.find_best_plan(parameters, selection, has_defers, progress) {
        Ok(Some(plan)) => Ok(plan),
        Ok(None) => Ok(BestQueryPlanInfo::empty(&parameters.supergraph_schema)),
        Err(error) => Err(error),
    }
}

/// What the best plan for an operation fetches, and what it costs.
pub open spec fn parallel_graph(
    m: PlanningModel,
    p: ParametersView,
    has_defers: bool,
    progress: PlanningProgress,
) -> Result<((DependencyGraphView, QueryPlanCost), PlanningProgress), ErrorView> {
    match best_plan(m, p, p.operation.selection_set, has_defers, progress) {
        Err(error) => Err(error),
        Ok((plan, after)) => Ok(((plan.fetch_dependency_graph, plan.cost), after)),
    }
}

/// The content of a graph with its cost and with what was counted.
pub open spec fn costed_view(
    r: Result<(FetchDependencyGraph, QueryPlanCost), FederationError>,
    progress: PlanningProgress,
) -> Result<((DependencyGraphView, QueryPlanCost), PlanningProgress), ErrorView> {
    match r {
        Ok((graph, cost)) => Ok(((graph.deep_view(), cost), progress)),
        Err(error) => Err(error.deep_view()),
    }
}

/// What the best plan for an operation fetches, and what it costs.
pub fn compute_root_parallel_dependency_graph<P: PlanningSteps, C: Fn() -> ControlFlow<()>>(
    steps: &P,
    parameters: &QueryPlanningParameters<'_, C>,
    has_defers: bool,
    progress: &mut PlanningProgress,
) -> (r: Result<(FetchDependencyGraph, QueryPlanCost), FederationError>)
    requires
        can_check(*parameters.check_for_cooperative_cancellation),
    ensures
        as_planned(
            *parameters.check_for_cooperative_cancellation,
            costed_view(r, *final(progress)),
            parallel_graph(steps.model(), parameters.content(), has_defers, *old(progress)),
        ),
{
    let selection_set = parameters.operation.selection_set.clone();
    match compute_root_parallel_best_plan(steps, parameters, selection_set, has_defers, progress) {
        Ok(plan) => Ok((plan.fetch_dependency_graph, plan.cost)),
        Err(error) => Err(error),
    }
}

/// What is fetched one after the other so far: the graphs that are done, and the last one with its
/// tree and its subgraph.
#[verifier::ext_equal]
pub struct Serial {
    pub done: Seq<DependencyGraphView>,
    pub graph: DependencyGraphView,
    pub path: TreeView,
    pub subgraph: Text,
    pub progress: PlanningProgress,
}

/// What is fetched with one more field at the top. A field of the same subgraph as the one before
/// is fetched together with it, one of another subgraph on its own.
pub open spec fn serial_step(
    m: PlanningModel,
    p: ParametersView,
    has_defers: bool,
    so_far: Serial,
    set: SelectionSetView,
) -> Result<Serial, ErrorView> {
    match best_plan(m, p, set, has_defers, so_far.progress) {
        Err(error) => Err(error),
        Ok((plan, progress)) => match root_subgraph(m, plan.fetch_dependency_graph) {
            Err(error) => Err(error),
            Ok(subgraph) => if subgraph == so_far.subgraph {
                let path = extended_tree(so_far.path, plan.path_tree);
                match with_childs(
                    m,
                    p.federated_query_graph,
                    p.supergraph_schema,
                    p.operation.root_kind,
                    p.config.type_conditioned_fetching,
                    new_graph(
                        p.supergraph_schema,
                        root_type_for_defer(p.supergraph_schema, p.operation.root_kind, has_defers),
                    ),
                    path.childs,
                    path.childs.len(),
                ) {
                    Err(error) => Err(error),
                    Ok(graph) => Ok(Serial { graph, path, progress, ..so_far }),
                }
            } else {
                Ok(
                    Serial {
                        done: so_far.done.push(so_far.graph),
                        graph: plan.fetch_dependency_graph,
                        path: plan.path_tree,
                        subgraph,
                        progress,
                    },
                )
            },
        },
    }
}

/// What is fetched for the first field at the top.
pub open spec fn serial_start(
    m: PlanningModel,
    p: ParametersView,
    has_defers: bool,
    set: SelectionSetView,
    progress: PlanningProgress,
) -> Result<Serial, ErrorView> {
    match best_plan(m, p, set, has_defers, progress) {
        Err(error) => Err(error),
        Ok((plan, after)) => match root_subgraph(m, plan.fetch_dependency_graph) {
            Err(error) => Err(error),
            Ok(subgraph) => Ok(
                Serial {
                    done: Seq::empty(),
                    graph: plan.fetch_dependency_graph,
                    path: plan.path_tree,
                    subgraph,
                    progress: after,
                },
            ),
        },
    }
}

/// What is fetched for the first `n` fields at the top.
pub open spec fn serial(
    m: PlanningModel,
    p: ParametersView,
    has_defers: bool,
    sets: Seq<SelectionSetView>,
    progress: PlanningProgress,
    n: nat,
) -> Result<Serial, ErrorView>
    decreases n,
{
    if n <= 1 {
        serial_start(m, p, has_defers, sets[0], progress)
    } else {
        match serial(m, p, has_defers, sets, progress, (n - 1) as nat) {
            Err(error) => Err(error),
            Ok(so_far) => serial_step(m, p, has_defers, so_far, sets[n - 1]),
        }
    }
}

/// What an operation whose fields are done one after the other fetches, in order.
pub open spec fn serial_graphs(
    m: PlanningModel,
    p: ParametersView,
    has_defers: bool,
    progress: PlanningProgress,
) -> Result<(Seq<DependencyGraphView>, PlanningProgress), ErrorView> {
    let set = p.operation.selection_set;
    let sets = split_fields(set, set.selections.len());
    if sets.len() == 0 {
        Err(internal_error("Empty top level fields"@))
    } else {
        match serial(m, p, has_defers, sets, progress, sets.len()) {
            Err(error) => Err(error),
            Ok(all) => Ok((all.done.push(all.graph), all.progress)),
        }
    }
}

proof fn lemma_serial_error(
    m: PlanningModel,
    p: ParametersView,
    has_defers: bool,
    sets: Seq<SelectionSetView>,
    progress: PlanningProgress,
    n: nat,
    all: nat,
)
    requires
        1 <= n <= all,
        serial(m, p, has_defers, sets, progress, n) is Err,
    ensures
        serial(m, p, has_defers, sets, progress, all) == serial(
            m,
            p,
            has_defers,
            sets,
            progress,
            n,
        ),
    decreases all,
{
    if n < all {
        lemma_serial_error(m, p, has_defers, sets, progress, n, (all - 1) as nat);
    }
}


/// What an operation whose fields are done one after the other fetches, in order. Fields in a row
/// of one subgraph are fetched together, which does them in their order; they are put one after
/// the other and not merged, so that a field that is there twice is done twice.
pub fn compute_root_serial_dependency_graph<P: PlanningSteps, C: Fn() -> ControlFlow<()>>(
    steps: &P,
    parameters: &QueryPlanningParameters<'_, C>,
    has_defers: bool,
    progress: &mut PlanningProgress,
) -> (r: Result<Vec<FetchDependencyGraph>, FederationError>)
    requires
        can_check(*parameters.check_for_cooperative_cancellation),
    ensures
        as_planned(
            *parameters.check_for_cooperative_cancellation,
            with_progress(r, *final(progress)),
            serial_graphs(steps.model(), parameters.content(), has_defers, *old(progress)),
        ),
{
    let ghost m = steps.model();
    let ghost p = parameters.content();
    let ghost start = *progress;
    let root_type = find_root_type_for_defer(
        &parameters.supergraph_schema,
        parameters.operation.root_kind,
        has_defers,
    );
    let split_roots = parameters.operation.selection_set.split_top_level_fields();
    let ghost sets = split_roots.deep_view();
    if split_roots.len() == 0 {
        return Err(FederationError::internal("Empty top level fields"));
    }
    assert(sets[0] == split_roots@[0].deep_view());
    proof {
        if serial(m, p, has_defers, sets, start, 1) is Err {
            lemma_serial_error(m, p, has_defers, sets, start, 1, sets.len());
        }
    }
    let plan = match compute_root_parallel_best_plan(
        steps,
        parameters,
        split_roots[0].clone(),
        has_defers,
        progress,
    ) {
        Ok(plan) => plan,
        Err(error) => {
            return Err(error);
        },
    };
    let mut graph = plan.fetch_dependency_graph;
    let mut path = plan.path_tree;
    let mut subgraph = match only_root_subgraph(steps, &graph) {
        Ok(subgraph) => subgraph,
        Err(error) => {
            return Err(error);
        },
    };
    let mut digest: Vec<FetchDependencyGraph> = Vec::new();
    assert(digest.deep_view() =~= Seq::empty());
    let mut i: usize = 1;
    while i < split_roots.len()
        invariant
            1 <= i <= split_roots@.len(),
            can_check(*parameters.check_for_cooperative_cancellation),
            m == steps.model(),
            p == parameters.content(),
            start == *old(progress),
            sets == split_roots.deep_view(),
            sets == split_fields(p.operation.selection_set, p.operation.selection_set.selections.len()),
            root_type.deep_view() == root_type_for_defer(
                p.supergraph_schema,
                p.operation.root_kind,
                has_defers,
            ),
            serial(m, p, has_defers, sets, start, i as nat) == Ok::<Serial, ErrorView>(
                Serial {
                    done: digest.deep_view(),
                    graph: graph.deep_view(),
                    path: path.deep_view(),
                    subgraph: subgraph@,
                    progress: *progress,
                },
            ),
        decreases split_roots@.len() - i,
    {
        let ghost so_far = Serial {
            done: digest.deep_view(),
            graph: graph.deep_view(),
            path: path.deep_view(),
            subgraph: subgraph@,
            progress: *progress,
        };
        assert(sets[i as int] == split_roots@[i as int].deep_view());
        proof {
            if serial_step(m, p, has_defers, so_far, sets[i as int]) is Err {
                lemma_serial_error(m, p, has_defers, sets, start, i as nat + 1, sets.len());
            }
        }
        let new = match compute_root_parallel_best_plan(
            steps,
            parameters,
            split_roots[i].clone(),
            has_defers,
            progress,
        ) {
            Ok(new) => new,
            Err(error) => {
                return Err(error);
            },
        };
        let new_subgraph = match only_root_subgraph(steps, &new.fetch_dependency_graph) {
            Ok(new_subgraph) => new_subgraph,
            Err(error) => {
                return Err(error);
            },
        };
        if same(&new_subgraph, &subgraph) {
            path.extend(new.path_tree);
            graph = FetchDependencyGraph::new(&parameters.supergraph_schema, &root_type);
            if let Err(error) = compute_root_fetch_groups(
                steps,
                parameters.operation.root_kind,
                parameters.federated_query_graph,
                &parameters.supergraph_schema,
                &mut graph,
                &path,
                parameters.config.type_conditioned_fetching,
                parameters.check_for_cooperative_cancellation,
            ) {
                return Err(error);
            }
        } else {
            let ghost before = digest.deep_view();
            let ghost last = graph.deep_view();
            digest.push(graph);
            assert(digest.deep_view() =~= before.push(last));
            graph = new.fetch_dependency_graph;
            path = new.path_tree;
            subgraph = new_subgraph;
        }
        i += 1;
    }
    let ghost before = digest.deep_view();
    let ghost last = graph.deep_view();
    digest.push(graph);
    assert(digest.deep_view() =~= before.push(last));
    Ok(digest)
}

// Plans.

/// What is planned of some graphs: what is done first, what is deferred, and what is delivered
/// first.
#[verifier::ext_equal]
pub struct Processed {
    pub main: Option<PlanView>,
    pub deferred: Seq<DeferredView>,
    pub primary_selection: Option<SelectionSetView>,
    pub processor: ProcessorView,
}

/// What is delivered first with what one more graph delivers first.
pub open spec fn with_primary(
    before: Option<SelectionSetView>,
    new: Option<SelectionSetView>,
) -> Result<Option<SelectionSetView>, ErrorView> {
    match (before, new) {
        (Some(a), Some(b)) => match merged_sets(a, b) {
            Ok(merged) => Ok(Some(merged)),
            Err(error) => Err(error),
        },
        (Some(a), None) => Ok(Some(a)),
        (None, _) => Ok(new),
    }
}

/// What is planned with one more graph, which is done after the others.
pub open spec fn processed_step(
    m: PlanningModel,
    so_far: Processed,
    graph: DependencyGraphView,
    kind: SchemaRootDefinitionKind,
) -> Result<Processed, ErrorView> {
    match (m.process)(graph, so_far.processor, kind) {
        Err(error) => Err(error),
        Ok((local_main, local_deferred, after, processor)) => match with_primary(
            so_far.primary_selection,
            after.primary_selection,
        ) {
            Err(error) => Err(error),
            Ok(primary_selection) => Ok(
                Processed {
                    main: match so_far.main {
                        Some(_) => (m.reduce_sequence)(processor, so_far.main, local_main),
                        None => local_main,
                    },
                    deferred: so_far.deferred + local_deferred,
                    primary_selection,
                    processor,
                },
            ),
        },
    }
}

/// What is planned of the first `n` graphs, one after the other.
pub open spec fn processed(
    m: PlanningModel,
    graphs: Seq<DependencyGraphView>,
    kind: SchemaRootDefinitionKind,
    processor: ProcessorView,
    n: nat,
) -> Result<Processed, ErrorView>
    decreases n,
{
    if n == 0 {
        Ok(
            Processed {
                main: None,
                deferred: Seq::empty(),
                primary_selection: None,
                processor,
            },
        )
    } else {
        match processed(m, graphs, kind, processor, (n - 1) as nat) {
            Err(error) => Err(error),
            Ok(so_far) => processed_step(m, so_far, graphs[n - 1], kind),
        }
    }
}

proof fn lemma_processed_error(
    m: PlanningModel,
    graphs: Seq<DependencyGraphView>,
    kind: SchemaRootDefinitionKind,
    processor: ProcessorView,
    n: nat,
    all: nat,
)
    requires
        n <= all,
        processed(m, graphs, kind, processor, n) is Err,
    ensures
        processed(m, graphs, kind, processor, all) == processed(m, graphs, kind, processor, n),
    decreases all,
{
    if n < all {
        lemma_processed_error(m, graphs, kind, processor, n, (all - 1) as nat);
    }
}

/// A plan with its cost, and what is known then.
#[verifier::ext_equal]
pub struct Planned {
    pub node: Option<PlanView>,
    pub cost: QueryPlanCost,
    pub processor: ProcessorView,
    pub progress: PlanningProgress,
}

/// The plan of what was made of some graphs: if something is deferred, what is done first comes
/// before it.
pub open spec fn deferring(
    m: PlanningModel,
    made: Processed,
    cost: QueryPlanCost,
    progress: PlanningProgress,
) -> Result<Planned, ErrorView> {
    if made.deferred.len() == 0 {
        Ok(Planned { node: made.main, cost, processor: made.processor, progress })
    } else {
        match made.primary_selection {
            None => Err(internal_error("Should have had a primary selection created"@)),
            Some(primary) => match (m.reduce_defer)(
                made.processor,
                made.main,
                primary,
                made.deferred,
            ) {
                Err(error) => Err(error),
                Ok(node) => Ok(Planned { node, cost, processor: made.processor, progress }),
            },
        }
    }
}

/// The plan of an operation. The fields of a mutation are done one after the other, and its cost
/// is not computed.
pub open spec fn plan_of_operation(
    m: PlanningModel,
    p: ParametersView,
    processor: ProcessorView,
    has_defers: bool,
    progress: PlanningProgress,
) -> Result<Planned, ErrorView> {
    let kind = p.operation.root_kind;
    if kind == SchemaRootDefinitionKind::Mutation {
        match serial_graphs(m, p, has_defers, progress) {
            Err(error) => Err(error),
            Ok((graphs, after)) => match processed(m, graphs, kind, processor, graphs.len()) {
                Err(error) => Err(error),
                Ok(made) => deferring(m, made, unknown_cost(), after),
            },
        }
    } else {
        match parallel_graph(m, p, has_defers, progress) {
            Err(error) => Err(error),
            Ok(((graph, cost), after)) => match processed(m, seq![graph], kind, processor, 1) {
                Err(error) => Err(error),
                Ok(made) => deferring(m, made, cost, after),
            },
        }
    }
}

/// The content of a plan with its cost, and what is known then.
pub open spec fn planned_view(
    r: Result<(Option<PlanNode>, QueryPlanCost), FederationError>,
    processor: PlanProcessor,
    progress: PlanningProgress,
) -> Result<Planned, ErrorView> {
    match r {
        Ok((node, cost)) => Ok(
            Planned { node: node.deep_view(), cost, processor: processor.deep_view(), progress },
        ),
        Err(error) => Err(error.deep_view()),
    }
}

/// The content of what was made of some graphs.
pub open spec fn made_view(
    r: Result<(Option<PlanNode>, Vec<DeferredNode>, Option<SelectionSet>), FederationError>,
    processor: PlanProcessor,
) -> Result<Processed, ErrorView> {
    match r {
        Ok((main, deferred, primary_selection)) => Ok(
            Processed {
                main: main.deep_view(),
                deferred: deferred.deep_view(),
                primary_selection: primary_selection.deep_view(),
                processor: processor.deep_view(),
            },
        ),
        Err(error) => Err(error.deep_view()),
    }
}

fn process_graphs<P: PlanningSteps>(
    steps: &P,
    dependency_graphs: Vec<FetchDependencyGraph>,
    processor: &mut PlanProcessor,
    root_kind: SchemaRootDefinitionKind,
) -> (r: Result<(Option<PlanNode>, Vec<DeferredNode>, Option<SelectionSet>), FederationError>)
    ensures
        made_view(r, *final(processor)) == processed(
            steps.model(),
            dependency_graphs.deep_view(),
            root_kind,
            old(processor).deep_view(),
            dependency_graphs.deep_view().len(),
        ),
{
    let ghost m = steps.model();
    let ghost graphs = dependency_graphs.deep_view();
    let ghost start = processor.deep_view();
    let mut left = dependency_graphs;
    let count: usize = left.len();
    let mut main: Option<PlanNode> = None;
    let mut deferred: Vec<DeferredNode> = Vec::new();
    let mut primary_selection: Option<SelectionSet> = None;
    assert(deferred.deep_view() =~= Seq::empty());
    let mut i: usize = 0;
    while i < count
        invariant
            i <= count,
            count == graphs.len(),
            left@.len() == count - i,
            left.deep_view() == graphs.subrange(i as int, count as int),
            m == steps.model(),
            graphs == dependency_graphs.deep_view(),
            start == old(processor).deep_view(),
            processed(m, graphs, root_kind, start, i as nat) == Ok::<Processed, ErrorView>(
                Processed {
                    main: main.deep_view(),
                    deferred: deferred.deep_view(),
                    primary_selection: primary_selection.deep_view(),
                    processor: processor.deep_view(),
                },
            ),
        decreases count - i,
    {
        let ghost so_far = Processed {
            main: main.deep_view(),
            deferred: deferred.deep_view(),
            primary_selection: primary_selection.deep_view(),
            processor: processor.deep_view(),
        };
        proof {
            assert(left.deep_view()[0] == graphs[i as int]);
            if processed_step(m, so_far, graphs[i as int], root_kind) is Err {
                lemma_processed_error(m, graphs, root_kind, start, i as nat + 1, graphs.len());
            }
        }
        let ghost before = left.deep_view();
        let mut graph = left.remove(0);
        assert(left.deep_view() =~= before.subrange(1, before.len() as int));
        assert(left.deep_view() =~= graphs.subrange(i as int + 1, count as int));
        assert(graph.deep_view() == graphs[i as int]);
        let (local_main, local_deferred) = match steps.process(&mut graph, processor, root_kind) {
            Ok(made) => made,
            Err(error) => {
                return Err(error);
            },
        };
        main =
        match main {
            Some(first) => steps.reduce_sequence(processor, Some(first), local_main),
            None => local_main,
        };
        let ghost local = local_deferred.deep_view();
        let mut more = local_deferred;
        deferred.append(&mut more);
        assert(deferred.deep_view() =~= so_far.deferred + local);
        let new_selection = graph.primary_selection;
        match primary_selection {
            Some(selection) => {
                let mut merged = selection;
                if let Some(new) = new_selection {
                    if let Err(error) = merged.add_local_selection_set(&new) {
                        return Err(error);
                    }
                }
                primary_selection = Some(merged);
            },
            None => {
                primary_selection = new_selection;
            },
        }
        i += 1;
    }
    Ok((main, deferred, primary_selection))
}

/// The plan of an operation. The fields of a mutation are done one after the other, and its cost
/// is not computed.
pub fn compute_plan_internal<P: PlanningSteps, C: Fn() -> ControlFlow<()>>(
    steps: &P,
    parameters: &QueryPlanningParameters<'_, C>,
    processor: &mut PlanProcessor,
    has_defers: bool,
    progress: &mut PlanningProgress,
) -> (r: Result<(Option<PlanNode>, QueryPlanCost), FederationError>)
    requires
        can_check(*parameters.check_for_cooperative_cancellation),
    ensures
        as_planned(
            *parameters.check_for_cooperative_cancellation,
            planned_view(r, *final(processor), *final(progress)),
            plan_of_operation(
                steps.model(),
                parameters.content(),
                old(processor).deep_view(),
                has_defers,
                *old(progress),
            ),
        ),
{
    let root_kind = parameters.operation.root_kind;
    let graphs: Vec<FetchDependencyGraph>;
    let cost: QueryPlanCost;
    if root_kind == SchemaRootDefinitionKind::Mutation {
        graphs =
        match compute_root_serial_dependency_graph(steps, parameters, has_defers, progress) {
            Ok(graphs) => graphs,
            Err(error) => {
                return Err(error);
            },
        };
        cost = QueryPlanCost { bits: 0x7ff8_0000_0000_0000 };
    } else {
        let (graph, best) = match compute_root_parallel_dependency_graph(
            steps,
            parameters,
            has_defers,
            progress,
        ) {
            Ok(found) => found,
            Err(error) => {
                return Err(error);
            },
        };
        let ghost view = graph.deep_view();
        graphs = vec![graph];
        assert(graphs.deep_view() =~= seq![view]);
        cost = best;
    }
    let (main, deferred, primary_selection) = match process_graphs(
        steps,
        graphs,
        processor,
        root_kind,
    ) {
        Ok(made) => made,
        Err(error) => {
            return Err(error);
        },
    };
    if deferred.len() == 0 {
        return Ok((main, cost));
    }
    match primary_selection {
        None => Err(FederationError::internal("Should have had a primary selection created")),
        Some(primary) => match steps.reduce_defer(processor, main, &primary, deferred) {
            Ok(node) => Ok((node, cost)),
            Err(error) => Err(error),
        },
    }
}

// Conditions.

/// A part of a plan in a box, if there is one.
pub open spec fn boxed(node: Option<PlanView>) -> Option<Box<PlanView>> {
    match node {
        Some(inner) => Some(Box::new(inner)),
        None => None,
    }
}

/// The plan of an operation some of whose `@defer` depend on variables, from the condition `k` on:
/// each variable doubles the plan.
pub open spec fn plan_of_conditions(
    m: PlanningModel,
    p: ParametersView,
    processor: ProcessorView,
    conditions: Entries<Seq<Text>>,
    progress: PlanningProgress,
    k: nat,
) -> Result<Planned, ErrorView>
    decreases conditions.len() - k,
{
    if k >= conditions.len() {
        plan_of_operation(m, p, processor, true, progress)
    } else {
        match reduced_operation(p.operation, conditions[k as int].1) {
            Err(error) => Err(error),
            Ok(operation) => match plan_of_conditions(
                m,
                p,
                processor,
                conditions,
                progress,
                k + 1,
            ) {
                Err(error) => Err(error),
                Ok(yes) => match plan_of_conditions(
                    m,
                    ParametersView { operation, ..p },
                    yes.processor,
                    conditions,
                    yes.progress,
                    k + 1,
                ) {
                    Err(error) => Err(error),
                    Ok(no) => Ok(
                        Planned {
                            node: Some(
                                PlanView::Condition {
                                    condition_variable: conditions[k as int].0,
                                    if_clause: boxed(yes.node),
                                    else_clause: boxed(no.node),
                                },
                            ),
                            cost: larger_cost(yes.cost, no.cost),
                            processor: no.processor,
                            progress: no.progress,
                        },
                    ),
                },
            },
        }
    }
}

/// An operation without the `@defer` of all the conditions from the `k`-th on: what is planned last.
pub open spec fn reduced_by_all(
    operation: OperationView,
    conditions: Entries<Seq<Text>>,
    k: nat,
) -> Result<OperationView, ErrorView>
    decreases conditions.len() - k,
{
    if k >= conditions.len() {
        Ok(operation)
    } else {
        match reduced_operation(operation, conditions[k as int].1) {
            Err(error) => Err(error),
            Ok(reduced) => reduced_by_all(reduced, conditions, k + 1),
        }
    }
}

fn in_box(node: Option<PlanNode>) -> (r: Option<Box<PlanNode>>)
    ensures
        (match r {
            Some(inner) => Some((*inner).deep_view()),
            None => None,
        }) == node.deep_view(),
{
    match node {
        Some(inner) => Some(Box::new(inner)),
        None => None,
    }
}

fn generate_condition_nodes<P: PlanningSteps, C: Fn() -> ControlFlow<()>>(
    steps: &P,
    parameters: &mut QueryPlanningParameters<'_, C>,
    processor: &mut PlanProcessor,
    conditions: &NameMap<NameSet>,
    progress: &mut PlanningProgress,
    k: usize,
) -> (r: Result<(Option<PlanNode>, QueryPlanCost), FederationError>)
    requires
        can_check(*old(parameters).check_for_cooperative_cancellation),
        k <= conditions.deep_view().len(),
    ensures
        final(parameters).check_for_cooperative_cancellation == old(
            parameters,
        ).check_for_cooperative_cancellation,
        final(parameters).content() == (ParametersView {
            operation: final(parameters).operation.deep_view(),
            ..old(parameters).content()
        }),
        r is Ok ==> reduced_by_all(
            old(parameters).operation.deep_view(),
            conditions.deep_view(),
            k as nat,
        ) == Ok::<OperationView, ErrorView>(final(parameters).operation.deep_view()),
        as_planned(
            *old(parameters).check_for_cooperative_cancellation,
            planned_view(r, *final(processor), *final(progress)),
            plan_of_conditions(
                steps.model(),
                old(parameters).content(),
                old(processor).deep_view(),
                conditions.deep_view(),
                *old(progress),
                k as nat,
            ),
        ),
    decreases conditions.deep_view().len() - k,
{
    let ghost all = conditions.deep_view();
    if k >= conditions.len() {
        return compute_plan_internal(steps, parameters, processor, true, progress);
    }
    let variable = conditions.key_at(k);
    let labels = conditions.value_at(k);
    assert(all[k as int] == (variable@, labels.deep_view()));
    let else_operation = match parameters.operation.reduce_defer(labels) {
        Ok(operation) => operation,
        Err(error) => {
            return Err(error);
        },
    };
    let ghost reduced = else_operation.deep_view();
    let (if_node, if_cost) = match generate_condition_nodes(
        steps,
        parameters,
        processor,
        conditions,
        progress,
        k + 1,
    ) {
        Ok(planned) => planned,
        Err(error) => {
            return Err(error);
        },
    };
    parameters.operation = else_operation;
    assert(parameters.content() == (ParametersView {
        operation: reduced,
        ..old(parameters).content()
    }));
    let (else_node, else_cost) = match generate_condition_nodes(
        steps,
        parameters,
        processor,
        conditions,
        progress,
        k + 1,
    ) {
        Ok(planned) => planned,
        Err(error) => {
            return Err(error);
        },
    };
    let node = ConditionNode {
        condition_variable: variable.clone(),
        if_clause: in_box(if_node),
        else_clause: in_box(else_node),
    };
    Ok((Some(PlanNode::Condition(Box::new(node))), if_cost.max(else_cost)))
}

/// The plan of an operation some of whose `@defer` depend on variables: for each variable, one plan
/// for the case that it is true, and one for the case that it is false. The operation that is planned
/// last is left in the parameters.
pub fn compute_plan_for_defer_conditionals<P: PlanningSteps, C: Fn() -> ControlFlow<()>>(
    steps: &P,
    parameters: &mut QueryPlanningParameters<'_, C>,
    processor: &mut PlanProcessor,
    defer_conditions: &NameMap<NameSet>,
    progress: &mut PlanningProgress,
) -> (r: Result<(Option<PlanNode>, QueryPlanCost), FederationError>)
    requires
        can_check(*old(parameters).check_for_cooperative_cancellation),
    ensures
        final(parameters).check_for_cooperative_cancellation == old(
            parameters,
        ).check_for_cooperative_cancellation,
        final(parameters).content() == (ParametersView {
            operation: final(parameters).operation.deep_view(),
            ..old(parameters).content()
        }),
        r is Ok ==> reduced_by_all(
            old(parameters).operation.deep_view(),
            defer_conditions.deep_view(),
            0,
        ) == Ok::<OperationView, ErrorView>(final(parameters).operation.deep_view()),
        as_planned(
            *old(parameters).check_for_cooperative_cancellation,
            planned_view(r, *final(processor), *final(progress)),
            plan_of_conditions(
                steps.model(),
                old(parameters).content(),
                old(processor).deep_view(),
                defer_conditions.deep_view(),
                *old(progress),
                0,
            ),
        ),
{
    generate_condition_nodes(steps, parameters, processor, defer_conditions, progress, 0)
}

} // verus!
