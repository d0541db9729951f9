//! The query planner.

use crate::ast::clone_directives;
use crate::ast::clone_text;
use crate::ast::Name;
use crate::collections::put;
use crate::collections::set_with;
use crate::collections::value_of;
use crate::collections::Entries;
use crate::collections::NameMap;
use crate::collections::NameSet;
use crate::compiler::parse_and_validate;
use crate::compiler::read_document;
use crate::compiler::schema_fits;
use crate::error::internal_error;
use crate::error::result_view;
use crate::error::ErrorKind;
use crate::error::ErrorView;
use crate::error::FederationError;
use crate::merge::directives::has_directive;
use crate::merge::directives::is_applied;
use crate::operation::executable::DocumentView;
use crate::operation::executable::ExecutableDocument;
use crate::operation::executable::ExecutableOperation;
use crate::operation::executable::ExecutableOperationView;
use crate::operation::executable::FragmentView;
use crate::operation::normalize::composite_type;
use crate::operation::operations::expanded_selections;
use crate::operation::operations::finished;
use crate::operation::operations::normalize_operation;
use crate::operation::operations::operation_with;
use crate::operation::operations::with_normalized_defer;
use crate::operation::operations::NormalizedDefer;
use crate::operation::operations::NormalizedDeferView;
use crate::operation::operations::Operation;
use crate::operation::operations::OperationView;
use crate::operation::selection::SelectionSet;
use crate::operation::SelectionIdCounter;
use crate::query_graph::EdgeView;
use crate::query_graph::GraphView;
use crate::query_graph::NodeTypeView;
use crate::query_graph::NodeView;
use crate::query_graph::OverrideConditions;
use crate::query_graph::OverrideConditionsView;
use crate::query_graph::QueryGraph;
use crate::query_graph::QueryGraphNodeType;
use crate::query_graph::SchemaRootDefinitionKind;
use crate::query_graph::SourceView;
use crate::query_graph::SubgraphSource;
use crate::query_plan::compute::compute_plan_for_defer_conditionals;
use crate::query_plan::compute::compute_plan_internal;
use crate::query_plan::compute::kind_text;
use crate::query_plan::compute::plan_of_conditions;
use crate::query_plan::compute::plan_of_operation;
use crate::query_plan::compute::Planned;
use crate::query_plan::dependency_graph::ParametersView;
use crate::query_plan::dependency_graph::PlanningProgress;
use crate::query_plan::dependency_graph::PlanProcessor;
use crate::query_plan::dependency_graph::ProcessorView;
use crate::query_plan::dependency_graph::QueryPlanningParameters;
use crate::query_plan::dependency_graph::SubgraphOperationCompression;
use crate::query_plan::empty_plan;
use crate::query_plan::node_kind;
use crate::query_plan::planning::as_planned;
use crate::query_plan::planning::can_check;
use crate::query_plan::planning::cancelled;
use crate::query_plan::planning::check_cancellation_with;
use crate::query_plan::planning::may_stop;
use crate::query_plan::planning::must_stop;
use crate::query_plan::planning::PlanningModel;
use crate::query_plan::planning::PlanningSteps;
use crate::query_plan::PlanNode;
use crate::query_plan::PlanView;
use crate::query_plan::QueryPlan;
use crate::query_plan::QueryPlannerConfig;
use crate::query_plan::QueryPlanningStatistics;
use crate::query_plan::QueryPlanOptions;
use crate::query_plan::QueryPlanView;
use crate::query_plan::SequenceNode;
use crate::query_plan::SubscriptionNode;
use crate::query_plan::TopLevelPlanNode;
use crate::query_plan::TopLevelView;
use crate::schema::position::runtime_types;
use crate::schema::position::CompositeTypeDefinitionPosition;
use crate::schema::position::CompositeView;
use crate::schema::ExtendedType;
use crate::schema::ExtendedTypeView;
use crate::schema::Schema;
use crate::schema::SchemaView;
use crate::text::joined3;
use crate::text::same;
use crate::text::Text;
use std::ops::ControlFlow;
use std::sync::Arc;
use vstd::prelude::*;

verus! {

// What is known of a supergraph.

/// Whether a type of a subgraph is an object that stands for an interface.
pub open spec fn stands_for_interface(source: SourceView, name: Text) -> bool {
    match value_of(source.schema.types, name) {
        Some(ExtendedTypeView::Object(o)) => has_directive(o.directives, source.interface_object),
        _ => false,
    }
}

/// Whether an object of some subgraph stands for the interface of the given name.
pub open spec fn has_interface_object(sources: Entries<SourceView>, name: Text) -> bool {
    exists|i: int| 0 <= i < sources.len() && stands_for_interface((#[trigger] sources[i]).1, name)
}

/// The interfaces among the first `n` types for which an object of some subgraph stands.
pub open spec fn interfaces_with_objects(
    types: Entries<ExtendedTypeView>,
    sources: Entries<SourceView>,
    n: nat,
) -> Seq<Text>
    decreases n,
{
    if n == 0 {
        Seq::empty()
    } else {
        let before = interfaces_with_objects(types, sources, (n - 1) as nat);
        if types[n - 1].1 is Interface && has_interface_object(sources, types[n - 1].0) {
            set_with(before, types[n - 1].0)
        } else {
            before
        }
    }
}

/// The object types that an interface or a union is in a subgraph. An object there stands for an
/// interface, and for all of its objects.
pub open spec fn objects_in(source: SourceView, name: Text) -> Option<Seq<Text>> {
    match value_of(source.schema.types, name) {
        Some(ExtendedTypeView::Interface(_)) => Some(
            runtime_types(source.schema, CompositeView::Interface(name)),
        ),
        Some(ExtendedTypeView::Union(_)) => Some(
            runtime_types(source.schema, CompositeView::Union(name)),
        ),
        _ => None,
    }
}

/// Whether a type is the same objects in two subgraphs, or no abstract type in one of them.
pub open spec fn agree_on(a: SourceView, b: SourceView, name: Text) -> bool {
    match (objects_in(a, name), objects_in(b, name)) {
        (Some(x), Some(y)) => x.to_set() == y.to_set(),
        _ => true,
    }
}

/// Whether an abstract type is the same objects in all the subgraphs that have it.
pub open spec fn is_consistent(sources: Entries<SourceView>, name: Text) -> bool {
    forall|i: int, j: int|
        0 <= i < sources.len() && 0 <= j < sources.len() ==> agree_on(
            (#[trigger] sources[i]).1,
            (#[trigger] sources[j]).1,
            name,
        )
}

/// The abstract types among the first `n` types that are other objects in one subgraph than in
/// another.
pub open spec fn inconsistent_types(
    types: Entries<ExtendedTypeView>,
    sources: Entries<SourceView>,
    n: nat,
) -> Seq<Text>
    decreases n,
{
    if n == 0 {
        Seq::empty()
    } else {
        let before = inconsistent_types(types, sources, (n - 1) as nat);
        if (types[n - 1].1 is Interface || types[n - 1].1 is Union) && !is_consistent(
            sources,
            types[n - 1].0,
        ) {
            set_with(before, types[n - 1].0)
        } else {
            before
        }
    }
}

fn source_stands_for_interface(source: &SubgraphSource, name: &str) -> (r: bool)
    ensures
        r == stands_for_interface(source.deep_view(), name@),
{
    match source.schema.types.get(name) {
        Some(ExtendedType::Object(o)) => is_applied(&o.directives, &source.interface_object),
        _ => false,
    }
}

fn find_interface_object(sources: &NameMap<SubgraphSource>, name: &str) -> (r: bool)
    ensures
        r == has_interface_object(sources.deep_view(), name@),
{
    let ghost all = sources.deep_view();
    let mut i: usize = 0;
    while i < sources.len()
        invariant
            i <= all.len(),
            all == sources.deep_view(),
            forall|j: int| 0 <= j < i ==> !stands_for_interface((#[trigger] all[j]).1, name@),
        decreases all.len() - i,
    {
        let source = sources.value_at(i);
        assert(all[i as int].1 == source.deep_view());
        if source_stands_for_interface(source, name) {
            return true;
        }
        i += 1;
    }
    false
}

fn find_objects(source: &SubgraphSource, name: &Name) -> (r: Option<NameSet>)
    ensures
        r.deep_view() == objects_in(source.deep_view(), name@),
{
    match source.schema.types.get(name) {
        Some(ExtendedType::Interface(_)) => Some(
            source.schema.possible_runtime_types(
                &CompositeTypeDefinitionPosition::Interface(name.clone()),
            ),
        ),
        Some(ExtendedType::Union(_)) => Some(
            source.schema.possible_runtime_types(
                &CompositeTypeDefinitionPosition::Union(name.clone()),
            ),
        ),
        _ => None,
    }
}

fn contains_all(names: &NameSet, others: &NameSet) -> (r: bool)
    ensures
        r == (others.deep_view().to_set().subset_of(names.deep_view().to_set())),
{
    let ghost all = others.deep_view();
    let ghost set = names.deep_view();
    let mut i: usize = 0;
    while i < others.len()
        invariant
            i <= all.len(),
            all == others.deep_view(),
            set == names.deep_view(),
            forall|j: int| 0 <= j < i ==> set.contains(#[trigger] all[j]),
        decreases all.len() - i,
    {
        let name = others.at(i);
        if !names.contains(name) {
            assert(all.to_set().contains(all[i as int]));
            assert(!set.to_set().contains(all[i as int]));
            return false;
        }
        i += 1;
    }
    assert(all.to_set().subset_of(set.to_set())) by {
        assert forall|name: Text| all.to_set().contains(name) implies set.to_set().contains(
            name,
        ) by {
            let j = choose|j: int| 0 <= j < all.len() && all[j] == name;
            assert(set.contains(all[j]));
        }
    }
    true
}

fn same_names(a: &NameSet, b: &NameSet) -> (r: bool)
    ensures
        r == (a.deep_view().to_set() == b.deep_view().to_set()),
{
    let r = contains_all(a, b) && contains_all(b, a);
    assert(r ==> a.deep_view().to_set() =~= b.deep_view().to_set());
    r
}

fn check_consistent(sources: &NameMap<SubgraphSource>, name: &Name) -> (r: bool)
    ensures
        r == is_consistent(sources.deep_view(), name@),
{
    let ghost all = sources.deep_view();
    let mut expected: Option<NameSet> = None;
    let ghost mut first: int = 0;
    let mut i: usize = 0;
    while i < sources.len()
        invariant
            i <= all.len(),
            all == sources.deep_view(),
            expected is None ==> forall|j: int|
                0 <= j < i ==> objects_in((#[trigger] all[j]).1, name@) is None,
            expected matches Some(names) ==> 0 <= first < i && objects_in(all[first].1, name@)
                == Some(names.deep_view()),
            expected matches Some(names) ==> forall|j: int|
                0 <= j < i ==> match objects_in((#[trigger] all[j]).1, name@) {
                    Some(found) => found.to_set() == names.deep_view().to_set(),
                    None => true,
                },
        decreases all.len() - i,
    {
        let source = sources.value_at(i);
        assert(all[i as int].1 == source.deep_view());
        if let Some(found) = find_objects(source, name) {
            match &expected {
                Some(names) => {
                    if !same_names(&found, names) {
                        assert(!agree_on(all[i as int].1, all[first].1, name@));
                        return false;
                    }
                },
                None => {
                    expected = Some(found);
                    proof {
                        first = i as int;
                    }
                },
            }
        }
        i += 1;
    }
    true
}

fn find_interfaces_with_objects(types: &NameMap<ExtendedType>, sources: &NameMap<SubgraphSource>) -> (r:
    NameSet)
    ensures
        r.deep_view() == interfaces_with_objects(
            types.deep_view(),
            sources.deep_view(),
            types.deep_view().len(),
        ),
{
    let ghost all = types.deep_view();
    let mut r = NameSet::new();
    let mut i: usize = 0;
    while i < types.len()
        invariant
            i <= all.len(),
            all == types.deep_view(),
            r.deep_view() == interfaces_with_objects(all, sources.deep_view(), i as nat),
        decreases all.len() - i,
    {
        let name = types.key_at(i);
        let ty = types.value_at(i);
        assert(all[i as int] == (name@, ty.deep_view()));
        if let ExtendedType::Interface(_) = ty {
            if find_interface_object(sources, name) {
                r.insert(name.clone());
            }
        }
        i += 1;
    }
    r
}

fn find_inconsistent_types(types: &NameMap<ExtendedType>, sources: &NameMap<SubgraphSource>) -> (r:
    NameSet)
    ensures
        r.deep_view() == inconsistent_types(
            types.deep_view(),
            sources.deep_view(),
            types.deep_view().len(),
        ),
{
    let ghost all = types.deep_view();
    let mut r = NameSet::new();
    let mut i: usize = 0;
    while i < types.len()
        invariant
            i <= all.len(),
            all == types.deep_view(),
            r.deep_view() == inconsistent_types(all, sources.deep_view(), i as nat),
        decreases all.len() - i,
    {
        let name = types.key_at(i);
        let ty = types.value_at(i);
        assert(all[i as int] == (name@, ty.deep_view()));
        let is_abstract = match ty {
            ExtendedType::Interface(_) => true,
            ExtendedType::Union(_) => true,
            _ => false,
        };
        if is_abstract && !check_consistent(sources, name) {
            r.insert(name.clone());
        }
        i += 1;
    }
    r
}

/// Plans the operations of a supergraph.
pub struct QueryPlanner {
    pub config: QueryPlannerConfig,
    pub federated_query_graph: QueryGraph,
    pub supergraph_schema: Arc<Schema>,
    pub api_schema: Arc<Schema>,
    /// The interfaces for which an object of some subgraph stands.
    pub interface_types_with_interface_objects: NameSet,
    /// The abstract types that are other objects in one subgraph than in another.
    pub abstract_types_with_inconsistent_runtime_types: NameSet,
}

/// The mathematical content of a [`QueryPlanner`].
#[verifier::ext_equal]
pub struct PlannerView {
    pub config: QueryPlannerConfig,
    pub federated_query_graph: GraphView,
    pub supergraph_schema: SchemaView,
    pub api_schema: SchemaView,
    pub interface_types_with_interface_objects: Seq<Text>,
    pub abstract_types_with_inconsistent_runtime_types: Seq<Text>,
}

impl DeepView for QueryPlanner {
    type V = PlannerView;

    open spec fn deep_view(&self) -> PlannerView {
        PlannerView {
            config: self.config,
            federated_query_graph: self.federated_query_graph.deep_view(),
            supergraph_schema: self.supergraph_schema.deep_view(),
            api_schema: self.api_schema.deep_view(),
            interface_types_with_interface_objects:
                self.interface_types_with_interface_objects.deep_view(),
            abstract_types_with_inconsistent_runtime_types:
                self.abstract_types_with_inconsistent_runtime_types.deep_view(),
        }
    }
}

/// The planner of a supergraph.
pub open spec fn new_planner(
    supergraph: SchemaView,
    api_schema: SchemaView,
    graph: GraphView,
    config: QueryPlannerConfig,
) -> PlannerView {
    PlannerView {
        config,
        federated_query_graph: graph,
        supergraph_schema: supergraph,
        api_schema,
        interface_types_with_interface_objects: interfaces_with_objects(
            supergraph.types,
            graph.sources,
            supergraph.types.len(),
        ),
        abstract_types_with_inconsistent_runtime_types: inconsistent_types(
            supergraph.types,
            graph.sources,
            supergraph.types.len(),
        ),
    }
}

// Before planning.

/// The operation of a document that is asked for: the one of the given name, or the only one.
pub open spec fn selected_operation(operations: Seq<ExecutableOperationView>, name: Option<Text>) -> Result<
    ExecutableOperationView,
    ErrorView,
> {
    match name {
        Some(wanted) => match first_named(operations, wanted, 0) {
            Some(i) => Ok(operations[i as int]),
            None => Err(
                ErrorView {
                    kind: ErrorKind::UnknownOperation,
                    message: "Unknown operation name"@,
                },
            ),
        },
        None => if operations.len() == 1 {
            Ok(operations[0])
        } else {
            Err(
                ErrorView {
                    kind: ErrorKind::OperationNameNotProvided,
                    message: "Operation name not provided"@,
                },
            )
        },
    }
}

/// The index of the first operation of the given name, from `from` on.
pub open spec fn first_named(operations: Seq<ExecutableOperationView>, name: Text, from: nat) -> Option<nat>
    decreases operations.len() - from,
{
    if from >= operations.len() {
        None
    } else if operations[from as int].name == Some(name) {
        Some(from)
    } else {
        first_named(operations, name, from + 1)
    }
}

impl ExecutableDocument {
    /// The operation that is asked for: the one of the given name, or the only one.
    pub fn get_operation(&self, name: &Option<Name>) -> (r: Result<&ExecutableOperation, FederationError>)
        ensures
            result_view(r) == selected_operation(self.deep_view().operations, name.deep_view()),
    {
        let ghost all = self.operations.deep_view();
        match name {
            Some(wanted) => {
                let mut i: usize = 0;
                while i < self.operations.len()
                    invariant
                        i <= self.operations@.len(),
                        all == self.operations.deep_view(),
                        *name == Some(*wanted),
                        first_named(all, wanted@, 0) == first_named(all, wanted@, i as nat),
                    decreases self.operations@.len() - i,
                {
                    assert(all[i as int] == self.operations@[i as int].deep_view());
                    let found = match &self.operations[i].name {
                        Some(own) => same(own, wanted),
                        None => false,
                    };
                    if found {
                        return Ok(&self.operations[i]);
                    }
                    i += 1;
                }
                Err(
                    FederationError {
                        kind: ErrorKind::UnknownOperation,
                        message: "Unknown operation name".to_owned(),
                    },
                )
            },
            None => if self.operations.len() == 1 {
                assert(all[0] == self.operations@[0].deep_view());
                Ok(&self.operations[0])
            } else {
                Err(
                    FederationError {
                        kind: ErrorKind::OperationNameNotProvided,
                        message: "Operation name not provided".to_owned(),
                    },
                )
            },
        }
    }
}

/// An operation as it is planned, with every `@defer` normalized.
pub open spec fn operation_to_plan(
    m: PlanningModel,
    planner: PlannerView,
    operation: ExecutableOperationView,
    fragments: Seq<FragmentView>,
    id: usize,
) -> Result<NormalizedDeferView, ErrorView> {
    match expanded_selections(operation, fragments, planner.api_schema, id) {
        Err(error) => Err(error),
        Ok((expanded, _)) => match (m.flatten)(expanded) {
            Err(error) => Err(error),
            Ok(kept) => with_normalized_defer(
                operation_with(
                    operation,
                    planner.api_schema,
                    finished(kept, planner.interface_types_with_interface_objects),
                ),
            ),
        },
    }
}

/// The values of the override labels of the first `n` edges.
pub open spec fn override_values(edges: Seq<EdgeView>, enabled: Seq<Text>, n: nat) -> Entries<bool>
    decreases n,
{
    if n == 0 {
        Seq::empty()
    } else {
        let before = override_values(edges, enabled, (n - 1) as nat);
        match edges[n - 1].override_condition {
            Some(condition) => put(before, condition.label, enabled.contains(condition.label)),
            None => before,
        }
    }
}

fn has_label(labels: &Vec<String>, label: &str) -> (r: bool)
    ensures
        r == labels.deep_view().contains(label@),
{
    let ghost all = labels.deep_view();
    let mut i: usize = 0;
    while i < labels.len()
        invariant
            i <= labels@.len(),
            all == labels.deep_view(),
            forall|j: int| 0 <= j < i ==> (#[trigger] all[j]) != label@,
        decreases labels@.len() - i,
    {
        assert(all[i as int] == labels@[i as int]@);
        if same(&labels[i], label) {
            assert(all.contains(label@));
            return true;
        }
        i += 1;
    }
    false
}

impl OverrideConditions {
    /// The values of all the override labels of a graph: whether each is among the enabled ones.
    pub fn new(graph: &QueryGraph, enabled: &Vec<String>) -> (r: Self)
        ensures
            r.deep_view().values == override_values(
                graph.deep_view().edges,
                enabled.deep_view(),
                graph.deep_view().edges.len(),
            ),
    {
        let ghost all = graph.deep_view().edges;
        let mut values: NameMap<bool> = NameMap::new();
        let mut i: usize = 0;
        while i < graph.edges.len()
            invariant
                i <= graph.edges@.len(),
                all == graph.deep_view().edges,
                values.deep_view() == override_values(all, enabled.deep_view(), i as nat),
            decreases graph.edges@.len() - i,
        {
            assert(all[i as int] == graph.edges@[i as int].deep_view());
            if let Some(condition) = &graph.edges[i].override_condition {
                let value = has_label(enabled, &condition.label);
                values.insert(condition.label.clone(), value);
            }
            i += 1;
        }
        OverrideConditions { values }
    }
}

/// The subgraphs among the first `n` that are disabled.
pub open spec fn disabled_sources(sources: Entries<SourceView>, names: Seq<Text>, n: nat) -> Seq<Text>
    decreases n,
{
    if n == 0 {
        Seq::empty()
    } else {
        let before = disabled_sources(sources, names, (n - 1) as nat);
        if names.contains(sources[n - 1].0) {
            set_with(before, sources[n - 1].0)
        } else {
            before
        }
    }
}

fn find_disabled_sources(sources: &NameMap<SubgraphSource>, names: &NameSet) -> (r: NameSet)
    ensures
        r.deep_view() == disabled_sources(
            sources.deep_view(),
            names.deep_view(),
            sources.deep_view().len(),
        ),
{
    let ghost all = sources.deep_view();
    let mut r = NameSet::new();
    let mut i: usize = 0;
    while i < sources.len()
        invariant
            i <= all.len(),
            all == sources.deep_view(),
            r.deep_view() == disabled_sources(all, names.deep_view(), i as nat),
        decreases all.len() - i,
    {
        let name = sources.key_at(i);
        if names.contains(name) {
            r.insert(name.clone());
        }
        i += 1;
    }
    r
}

/// The node of the query graph from which all subgraphs can be entered, from the index `from` on.
pub open spec fn federated_root(nodes: Seq<NodeView>, kind: SchemaRootDefinitionKind, from: nat) -> Option<
    usize,
>
    decreases nodes.len() - from,
{
    if from >= nodes.len() {
        None
    } else if nodes[from as int].type_ == NodeTypeView::FederatedRootType(kind) {
        Some(from as usize)
    } else {
        federated_root(nodes, kind, from + 1)
    }
}

impl QueryGraph {
    /// The node from which all subgraphs can be entered for a kind of operations.
    pub fn root_node(&self, kind: SchemaRootDefinitionKind) -> (r: Option<usize>)
        ensures
            r == federated_root(self.deep_view().nodes, kind, 0),
    {
        let ghost all = self.nodes.deep_view();
        let mut i: usize = 0;
        while i < self.nodes.len()
            invariant
                i <= self.nodes@.len(),
                all == self.nodes.deep_view(),
                federated_root(all, kind, 0) == federated_root(all, kind, i as nat),
            decreases self.nodes@.len() - i,
        {
            assert(all[i as int] == self.nodes@[i as int].deep_view());
            if let QueryGraphNodeType::FederatedRootType(own) = &self.nodes[i].type_ {
                if *own == kind {
                    return Some(i);
                }
            }
            i += 1;
        }
        None
    }
}

// After planning.

/// What a plan starts with. A subscription subscribes with its first fetch, and does the rest for
/// every event.
pub open spec fn top_level(node: Option<PlanView>, is_subscription: bool) -> Result<
    Option<TopLevelView>,
    ErrorView,
> {
    match node {
        None => Ok(None),
        Some(node) => if !is_subscription {
            Ok(Some(TopLevelView::Node(node)))
        } else {
            match node {
                PlanView::Fetch(primary) => Ok(
                    Some(TopLevelView::Subscription { primary, rest: None }),
                ),
                PlanView::Sequence(nodes) => if nodes.len() == 0 {
                    Err(
                        internal_error("Invalid query plan: Sequence must have at least one node"@),
                    )
                } else {
                    match nodes[0] {
                        PlanView::Fetch(primary) => Ok(
                            Some(
                                TopLevelView::Subscription {
                                    primary,
                                    rest: Some(
                                        PlanView::Sequence(nodes.subrange(1, nodes.len() as int)),
                                    ),
                                },
                            ),
                        ),
                        _ => Err(
                            internal_error(
                                "Invalid query plan: Primary node of a subscription is not a Fetch"@,
                            ),
                        ),
                    }
                },
                _ => Err(
                    internal_error(
                        "Invalid query plan for subscription: unexpected "@ + node_kind(node)
                            + " at root"@,
                    ),
                ),
            }
        },
    }
}

fn subscribe(node: PlanNode) -> (r: Result<TopLevelPlanNode, FederationError>)
    ensures
        match (r, top_level(Some(node.deep_view()), true)) {
            (Ok(node), Ok(Some(found))) => node.deep_view() == found,
            (Err(error), Err(found)) => error.deep_view() == found,
            _ => false,
        },
{
    let ghost view = node.deep_view();
    match node {
        PlanNode::Fetch(primary) => Ok(
            TopLevelPlanNode::Subscription(SubscriptionNode { primary, rest: None }),
        ),
        PlanNode::Sequence(sequence) => {
            let ghost views = view->Sequence_0;
            let mut nodes = sequence.nodes;
            if nodes.len() == 0 {
                return Err(
                    FederationError::internal(
                        "Invalid query plan: Sequence must have at least one node",
                    ),
                );
            }
            let first = nodes.remove(0);
            assert(first.deep_view() == views[0]);
            match first {
                PlanNode::Fetch(primary) => {
                    let rest = PlanNode::Sequence(SequenceNode { nodes });
                    assert(rest.deep_view()->Sequence_0 =~= views.subrange(1, views.len() as int));
                    Ok(
                        TopLevelPlanNode::Subscription(
                            SubscriptionNode { primary, rest: Some(Box::new(rest)) },
                        ),
                    )
                },
                _ => Err(
                    FederationError::internal(
                        "Invalid query plan: Primary node of a subscription is not a Fetch",
                    ),
                ),
            }
        },
        other => Err(
            FederationError::internal(
                &joined3(
                    "Invalid query plan for subscription: unexpected ",
                    other.node_kind(),
                    " at root",
                ),
            ),
        ),
    }
}

/// What a plan starts with. A subscription subscribes with its first fetch, and does the rest for
/// every event.
pub fn top_level_node(node: Option<PlanNode>, is_subscription: bool) -> (r: Result<
    Option<TopLevelPlanNode>,
    FederationError,
>)
    ensures
        result_view(r) == top_level(node.deep_view(), is_subscription),
{
    let node = match node {
        Some(node) => node,
        None => {
            return Ok(None);
        },
    };
    if is_subscription {
        return match subscribe(node) {
            Ok(node) => Ok(Some(node)),
            Err(error) => Err(error),
        };
    }
    let top = match node {
        PlanNode::Fetch(inner) => TopLevelPlanNode::Fetch(inner),
        PlanNode::Sequence(inner) => TopLevelPlanNode::Sequence(inner),
        PlanNode::Parallel(inner) => TopLevelPlanNode::Parallel(inner),
        PlanNode::Flatten(inner) => TopLevelPlanNode::Flatten(inner),
        PlanNode::Defer(inner) => TopLevelPlanNode::Defer(inner),
        PlanNode::Condition(inner) => TopLevelPlanNode::Condition(inner),
    };
    Ok(Some(top))
}

// The plan.

/// What a plan is made with before anything is fetched.
pub open spec fn first_processor(
    planner: PlannerView,
    operation: ExecutableOperationView,
    normalized: NormalizedDeferView,
) -> ProcessorView {
    ProcessorView {
        variables: normalized.operation.variables,
        directives: normalized.operation.directives,
        compression: if planner.config.generate_query_fragments {
            SubgraphOperationCompression::GenerateFragments
        } else {
            SubgraphOperationCompression::Disabled
        },
        operation_name: operation.name,
        assigned_defer_labels: normalized.assigned_defer_labels,
        counter: 0,
    }
}

/// What is planned, and on what.
pub open spec fn parameters_of<C>(
    planner: PlannerView,
    operation: OperationView,
    head: usize,
    options: QueryPlanOptions<C>,
) -> ParametersView {
    let graph = planner.federated_query_graph;
    ParametersView {
        supergraph_schema: planner.supergraph_schema,
        federated_query_graph: graph,
        operation,
        head,
        config: planner.config,
        abstract_types_with_inconsistent_runtime_types:
            planner.abstract_types_with_inconsistent_runtime_types,
        override_conditions: OverrideConditionsView {
            values: override_values(
                graph.edges,
                options.override_conditions.deep_view(),
                graph.edges.len(),
            ),
        },
        disabled_subgraphs: disabled_sources(
            graph.sources,
            options.disabled_subgraph_names.deep_view(),
            graph.sources.len(),
        ),
    }
}

/// What is counted before planning.
pub open spec fn first_progress(limited: bool) -> PlanningProgress {
    PlanningProgress {
        evaluated_plan_count: 0,
        evaluated_plan_paths: 0,
        non_local_selections: if limited {
            Some(0u64)
        } else {
            None
        },
    }
}

/// The plan of what was planned for an operation.
pub open spec fn finished_plan(planned: Planned, is_subscription: bool) -> Result<
    QueryPlanView,
    ErrorView,
> {
    match top_level(planned.node, is_subscription) {
        Err(error) => Err(error),
        Ok(node) => Ok(
            QueryPlanView {
                node,
                statistics: QueryPlanningStatistics {
                    evaluated_plan_count: planned.progress.evaluated_plan_count,
                    evaluated_plan_paths: planned.progress.evaluated_plan_paths,
                    best_plan_cost: planned.cost,
                },
            },
        ),
    }
}

/// The error of a subscription that defers something.
pub open spec fn deferred_subscription() -> ErrorView {
    ErrorView {
        kind: ErrorKind::DeferredSubscriptionUnsupported,
        message: "@defer is not supported on subscriptions"@,
    }
}

/// The plan of an operation whose `@defer` are normalized.
pub open spec fn plan_of_normalized<C>(
    m: PlanningModel,
    planner: PlannerView,
    operation: ExecutableOperationView,
    normalized: NormalizedDeferView,
    options: QueryPlanOptions<C>,
) -> Result<QueryPlanView, ErrorView> {
    let is_subscription = operation.operation_type == SchemaRootDefinitionKind::Subscription;
    let kind = normalized.operation.root_kind;
    if normalized.has_defers && is_subscription {
        Err(deferred_subscription())
    } else if normalized.operation.selection_set.selections.len() == 0 {
        Ok(empty_plan())
    } else {
        match federated_root(planner.federated_query_graph.nodes, kind, 0) {
            None => Err(
                internal_error(
                    "Shouldn't have a "@ + kind_text(kind)
                        + " operation if the subgraphs don't have a "@ + kind_text(kind) + " root"@,
                ),
            ),
            Some(head) => {
                let p = parameters_of(planner, normalized.operation, head, options);
                let processor = first_processor(planner, operation, normalized);
                let progress = first_progress(options.non_local_selections_limit_enabled);
                match if normalized.defer_conditions.len() == 0 {
                    plan_of_operation(m, p, processor, normalized.has_defers, progress)
                } else {
                    plan_of_conditions(m, p, processor, normalized.defer_conditions, progress, 0)
                } {
                    Err(error) => Err(error),
                    Ok(planned) => finished_plan(planned, is_subscription),
                }
            },
        }
    }
}

/// The plan of an operation of a document.
pub open spec fn query_plan<C>(
    m: PlanningModel,
    planner: PlannerView,
    document: DocumentView,
    operation_name: Option<Text>,
    options: QueryPlanOptions<C>,
    id: usize,
) -> Result<QueryPlanView, ErrorView> {
    match selected_operation(document.operations, operation_name) {
        Err(error) => Err(error),
        Ok(operation) => if operation.selection_set.selections.len() == 0 {
            Err(internal_error("Invalid operation: empty selection set"@))
        } else {
            match operation_to_plan(m, planner, operation, document.fragments, id) {
                Err(error) => Err(error),
                Ok(normalized) => plan_of_normalized(m, planner, operation, normalized, options),
            }
        },
    }
}

/// Whether an operation is found that selects something on a type with fields.
pub open spec fn is_plannable(
    planner: PlannerView,
    document: DocumentView,
    operation_name: Option<Text>,
) -> bool {
    selected_operation(document.operations, operation_name) matches Ok(operation)
        && operation.selection_set.selections.len() != 0 && composite_type(
        planner.api_schema,
        operation.selection_set.ty,
    ) is Ok
}

/// Whether the count of the selections goes on from one number to another: not at all where no
/// operation is to be planned, and over what the operation comes to where it can be expanded.
pub open spec fn counted_ids(
    planner: PlannerView,
    document: DocumentView,
    operation_name: Option<Text>,
    id: usize,
    next: usize,
) -> bool {
    match selected_operation(document.operations, operation_name) {
        Err(_) => next == id,
        Ok(operation) => if operation.selection_set.selections.len() == 0 {
            next == id
        } else {
            match expanded_selections(operation, document.fragments, planner.api_schema, id) {
                Ok((_, after)) => next == after,
                Err(_) => true,
            }
        },
    }
}

impl QueryPlanner {
    /// The planner of a supergraph. The schema that its clients see comes from `to_api_schema`, which
    /// is told whether `@defer` belongs to it. The query graph comes from `build_graph`, which gets
    /// the supergraph with that schema, and is told to check the subgraphs and to build for planning.
    pub fn new<
        A: Fn(Arc<Schema>, bool) -> Result<Arc<Schema>, FederationError>,
        G: Fn(Arc<Schema>, Arc<Schema>, Option<bool>, Option<bool>) -> Result<
            QueryGraph,
            FederationError,
        >,
    >(
        supergraph_schema: Arc<Schema>,
        to_api_schema: A,
        build_graph: G,
        config: QueryPlannerConfig,
    ) -> (r: Result<Self, FederationError>)
        requires
            to_api_schema.requires((supergraph_schema, config.incremental_delivery.enable_defer)),
            forall|api_schema: Arc<Schema>|
                build_graph.requires((supergraph_schema, api_schema, Some(true), Some(true))),
        ensures
            exists|api: Result<Arc<Schema>, FederationError>|
                {
                    &&& #[trigger] to_api_schema.ensures(
                        (supergraph_schema, config.incremental_delivery.enable_defer),
                        api,
                    )
                    &&& match api {
                        Err(error) => r == Err::<QueryPlanner, FederationError>(error),
                        Ok(api_schema) => exists|graph: Result<QueryGraph, FederationError>|
                            {
                                &&& #[trigger] build_graph.ensures(
                                    (supergraph_schema, api_schema, Some(true), Some(true)),
                                    graph,
                                )
                                &&& match graph {
                                    Err(error) => r == Err::<QueryPlanner, FederationError>(error),
                                    Ok(graph) => r matches Ok(planner) && planner.deep_view()
                                        == new_planner(
                                        supergraph_schema.deep_view(),
                                        api_schema.deep_view(),
                                        graph.deep_view(),
                                        config,
                                    ),
                                }
                            },
                    }
                },
    {
        let api = to_api_schema(supergraph_schema.clone(), config.incremental_delivery.enable_defer);
        assert(to_api_schema.ensures(
            (supergraph_schema, config.incremental_delivery.enable_defer),
            api,
        ));
        let api_schema = match api {
            Ok(api_schema) => api_schema,
            Err(error) => {
                return Err(error);
            },
        };
        let built = build_graph(
            supergraph_schema.clone(),
            api_schema.clone(),
            Some(true),
            Some(true),
        );
        assert(build_graph.ensures((supergraph_schema, api_schema, Some(true), Some(true)), built));
        let graph = match built {
            Ok(graph) => graph,
            Err(error) => {
                return Err(error);
            },
        };
        let interfaces = find_interfaces_with_objects(&supergraph_schema.types, &graph.sources);
        let inconsistent = find_inconsistent_types(&supergraph_schema.types, &graph.sources);
        Ok(
            QueryPlanner {
                config,
                federated_query_graph: graph,
                supergraph_schema,
                api_schema,
                interface_types_with_interface_objects: interfaces,
                abstract_types_with_inconsistent_runtime_types: inconsistent,
            },
        )
    }

    /// The subgraphs with their schemas.
    pub fn subgraph_schemas(&self) -> (r: &NameMap<SubgraphSource>)
        ensures
            r.deep_view() == self.deep_view().federated_query_graph.sources,
    {
        &self.federated_query_graph.sources
    }

    /// The schema that the clients of the supergraph see.
    pub fn api_schema(&self) -> (r: &Arc<Schema>)
        ensures
            r.deep_view() == self.deep_view().api_schema,
    {
        &self.api_schema
    }

    /// The schema of the supergraph.
    pub fn supergraph_schema(&self) -> (r: &Arc<Schema>)
        ensures
            r.deep_view() == self.deep_view().supergraph_schema,
    {
        &self.supergraph_schema
    }

    fn plan_normalized<P: PlanningSteps, C: Fn() -> ControlFlow<()>>(
        &self,
        steps: &P,
        operation: &ExecutableOperation,
        normalized: NormalizedDefer,
        options: &QueryPlanOptions<C>,
    ) -> (r: Result<QueryPlan, FederationError>)
        requires
            can_check(options.check_for_cooperative_cancellation),
        ensures
            as_planned(
                options.check_for_cooperative_cancellation,
                result_view(r),
                plan_of_normalized(
                    steps.model(),
                    self.deep_view(),
                    operation.deep_view(),
                    normalized.deep_view(),
                    *options,
                ),
            ),
    {
        let ghost view = normalized.deep_view();
        let is_subscription = operation.operation_type == SchemaRootDefinitionKind::Subscription;
        let has_defers = normalized.has_defers;
        if has_defers && is_subscription {
            return Err(
                FederationError {
                    kind: ErrorKind::DeferredSubscriptionUnsupported,
                    message: "@defer is not supported on subscriptions".to_owned(),
                },
            );
        }
        if normalized.operation.selection_set.is_empty() {
            return Ok(QueryPlan::default());
        }
        let kind = normalized.operation.root_kind;
        let head: usize = match self.federated_query_graph.root_node(kind) {
            Some(head) => head,
            None => {
                let start = joined3(
                    "Shouldn't have a ",
                    kind.text(),
                    " operation if the subgraphs don't have a ",
                );
                return Err(FederationError::internal(&joined3(&start, kind.text(), " root")));
            },
        };
        let compression = if self.config.generate_query_fragments {
            SubgraphOperationCompression::GenerateFragments
        } else {
            SubgraphOperationCompression::Disabled
        };
        let variables = normalized.operation.variables.clone();
        assert(variables.deep_view() =~= normalized.operation.variables.deep_view());
        let mut processor = PlanProcessor {
            variables,
            directives: clone_directives(&normalized.operation.directives),
            compression,
            operation_name: clone_text(&operation.name),
            assigned_defer_labels: normalized.assigned_defer_labels,
            counter: 0,
        };
        let mut parameters = QueryPlanningParameters {
            supergraph_schema: self.supergraph_schema.clone(),
            federated_query_graph: &self.federated_query_graph,
            operation: normalized.operation,
            head,
            config: self.config,
            abstract_types_with_inconsistent_runtime_types:
                self.abstract_types_with_inconsistent_runtime_types.clone(),
            override_conditions: OverrideConditions::new(
                &self.federated_query_graph,
                &options.override_conditions,
            ),
            disabled_subgraphs: find_disabled_sources(
                &self.federated_query_graph.sources,
                &options.disabled_subgraph_names,
            ),
            check_for_cooperative_cancellation: &options.check_for_cooperative_cancellation,
        };
        assert(parameters.content() == parameters_of(
            self.deep_view(),
            view.operation,
            head,
            *options,
        ));
        let limit: Option<u64> = if options.non_local_selections_limit_enabled {
            Some(0)
        } else {
            None
        };
        let mut progress = PlanningProgress {
            evaluated_plan_count: 0,
            evaluated_plan_paths: 0,
            non_local_selections: limit,
        };
        let planned = if normalized.defer_conditions.len() != 0 {
            compute_plan_for_defer_conditionals(
                steps,
                &mut parameters,
                &mut processor,
                &normalized.defer_conditions,
                &mut progress,
            )
        } else {
            compute_plan_internal(steps, &parameters, &mut processor, has_defers, &mut progress)
        };
        let (root_node, cost) = match planned {
            Ok(planned) => planned,
            Err(error) => {
                return Err(error);
            },
        };
        let node = match top_level_node(root_node, is_subscription) {
            Ok(node) => node,
            Err(error) => {
                return Err(error);
            },
        };
        Ok(
            QueryPlan {
                node,
                statistics: QueryPlanningStatistics {
                    evaluated_plan_count: progress.evaluated_plan_count,
                    evaluated_plan_paths: progress.evaluated_plan_paths,
                    best_plan_cost: cost,
                },
            },
        )
    }

    /// The plan of an operation of a document: the operation of the given name, or the only one.
    /// If the check stops planning, the result is the error that says so.
    pub fn build_query_plan<P: PlanningSteps, C: Fn() -> ControlFlow<()>>(
        &self,
        steps: &P,
        document: &ExecutableDocument,
        operation_name: Option<Name>,
        options: QueryPlanOptions<C>,
        selection_ids: &mut SelectionIdCounter,
    ) -> (r: Result<QueryPlan, FederationError>)
        requires
            can_check(options.check_for_cooperative_cancellation),
        ensures
            as_planned(
                options.check_for_cooperative_cancellation,
                result_view(r),
                query_plan(
                    steps.model(),
                    self.deep_view(),
                    document.deep_view(),
                    operation_name.deep_view(),
                    options,
                    old(selection_ids).next,
                ),
            ),
            selected_operation(
                document.deep_view().operations,
                operation_name.deep_view(),
            ) matches Err(error) ==> (r matches Err(e) && e.deep_view() == error),
            selected_operation(
                document.deep_view().operations,
                operation_name.deep_view(),
            ) matches Ok(operation) && operation.selection_set.selections.len() == 0 ==> (
            r matches Err(e) && e.deep_view() == internal_error(
                "Invalid operation: empty selection set"@,
            )),
            must_stop(options.check_for_cooperative_cancellation) && is_plannable(
                self.deep_view(),
                document.deep_view(),
                operation_name.deep_view(),
            ) ==> result_view(r) == Err::<QueryPlanView, ErrorView>(cancelled()),
            counted_ids(
                self.deep_view(),
                document.deep_view(),
                operation_name.deep_view(),
                old(selection_ids).next,
                final(selection_ids).next,
            ) || (may_stop(options.check_for_cooperative_cancellation) && result_view(r) == Err::<
                QueryPlanView,
                ErrorView,
            >(cancelled())),
    {
        let operation = match document.get_operation(&operation_name) {
            Ok(operation) => operation,
            Err(error) => {
                return Err(error);
            },
        };
        if operation.selection_set.selections.len() == 0 {
            return Err(FederationError::internal("Invalid operation: empty selection set"));
        }
        let ghost stops = may_stop(options.check_for_cooperative_cancellation);
        let ghost always = must_stop(options.check_for_cooperative_cancellation);
        let asked = &options.check_for_cooperative_cancellation;
        let check = || -> (r: Result<(), FederationError>)
            ensures
                r matches Err(error) ==> stops && error.deep_view() == cancelled(),
                r is Ok ==> !always,
            { check_cancellation_with(asked) };
        let flatten = |set: SelectionSet| -> (r: Result<SelectionSet, FederationError>)
            ensures
                result_view(r) == (steps.model().flatten)(set.deep_view()),
            { steps.flatten(set) };
        let normalized_operation = match normalize_operation(
            operation,
            &document.fragments,
            &self.api_schema,
            &self.interface_types_with_interface_objects,
            &flatten,
            &check,
            selection_ids,
        ) {
            Ok(normalized_operation) => normalized_operation,
            Err(error) => {
                return Err(error);
            },
        };
        let normalized = match normalized_operation.with_normalized_defer() {
            Ok(normalized) => normalized,
            Err(error) => {
                return Err(error);
            },
        };
        self.plan_normalized(steps, operation, normalized, &options)
    }

    /// The plan of the only operation of a text, which is read against the schema that clients see.
    /// `name` says where the text is from.
    pub fn plan_text<P: PlanningSteps, C: Fn() -> ControlFlow<()>>(
        &self,
        steps: &P,
        text: &str,
        name: &str,
        options: QueryPlanOptions<C>,
        selection_ids: &mut SelectionIdCounter,
    ) -> (r: Result<QueryPlan, FederationError>)
        requires
            can_check(options.check_for_cooperative_cancellation),
            schema_fits(self.deep_view().api_schema),
            text@.len() < 0x4000_0000,
        ensures
            match read_document(self.deep_view().api_schema, text@, name@) {
                None => {
                    &&& r matches Err(error) && error.kind == ErrorKind::InvalidGraphql
                    &&& final(selection_ids).next == old(selection_ids).next
                },
                Some(document) => {
                    &&& as_planned(
                        options.check_for_cooperative_cancellation,
                        result_view(r),
                        query_plan(
                            steps.model(),
                            self.deep_view(),
                            document,
                            None,
                            options,
                            old(selection_ids).next,
                        ),
                    )
                    &&& must_stop(options.check_for_cooperative_cancellation) && is_plannable(
                        self.deep_view(),
                        document,
                        None,
                    ) ==> result_view(r) == Err::<QueryPlanView, ErrorView>(cancelled())
                    &&& counted_ids(
                        self.deep_view(),
                        document,
                        None,
                        old(selection_ids).next,
                        final(selection_ids).next,
                    ) || (may_stop(options.check_for_cooperative_cancellation) && result_view(r)
                        == Err::<QueryPlanView, ErrorView>(cancelled()))
                },
            },
    {
        match parse_and_validate(&self.api_schema, text, name) {
            Ok(document) => self.build_query_plan(steps, &document, None, options, selection_ids),
            Err(error) => Err(error),
        }
    }
}

} // verus!
