//! What has to be fetched before what, and what is known while a plan is looked for.

use crate::ast::Directive;
use crate::ast::DirectiveView;
use crate::ast::Name;
use crate::collections::put;
use crate::collections::value_of;
use crate::collections::Entries;
use crate::collections::NameMap;
use crate::collections::NameSet;
use crate::operation::executable::VariableDefinition;
use crate::operation::executable::VariableView;
use crate::operation::operations::Operation;
use crate::operation::operations::OperationView;
use crate::operation::selection::empty_set;
use crate::operation::selection::SelectionSet;
use crate::operation::selection::SelectionSetView;
use crate::query_graph::condition_resolver::QueryPlanCost;
use crate::query_graph::GraphView;
use crate::query_graph::OverrideConditions;
use crate::query_graph::OverrideConditionsView;
use crate::query_graph::QueryGraph;
use crate::query_graph::SchemaRootDefinitionKind;
use crate::query_plan::QueryPlannerConfig;
use crate::schema::position::CompositeTypeDefinitionPosition;
use crate::schema::position::CompositeView;
use crate::schema::Schema;
use crate::schema::SchemaView;
use crate::text::Text;
use std::sync::Arc;
use vstd::prelude::*;

verus! {

/// The paths of a plan, as a tree whose root is at the root of the query graph.
pub struct OpPathTree {
    /// What is selected at the root of the tree itself.
    pub local_selection_sets: Vec<SelectionSet>,
    pub childs: Vec<OpPathTreeChild>,
}

/// A branch of a tree, and the edge that it starts with.
pub struct OpPathTreeChild {
    pub edge: Option<usize>,
    pub tree: OpPathTree,
}

/// The mathematical content of an [`OpPathTree`].
#[verifier::ext_equal]
pub struct TreeView {
    pub local_selection_sets: Seq<SelectionSetView>,
    pub childs: Seq<TreeChildView>,
}

/// The mathematical content of an [`OpPathTreeChild`].
#[verifier::ext_equal]
pub struct TreeChildView {
    pub edge: Option<usize>,
    pub tree: TreeView,
}

/// The content of a tree.
pub open spec fn tree_view(tree: OpPathTree) -> TreeView
    decreases tree,
{
    TreeView {
        local_selection_sets: tree.local_selection_sets.deep_view(),
        childs: Seq::new(
            tree.childs@.len(),
            |i: int|
                if 0 <= i < tree.childs@.len() {
                    child_view(tree.childs@[i])
                } else {
                    arbitrary()
                },
        ),
    }
}

/// The content of a branch.
pub open spec fn child_view(child: OpPathTreeChild) -> TreeChildView
    decreases child,
{
    TreeChildView { edge: child.edge, tree: tree_view(child.tree) }
}

impl DeepView for OpPathTree {
    type V = TreeView;

    open spec fn deep_view(&self) -> TreeView {
        tree_view(*self)
    }
}

/// The tree without paths.
pub open spec fn empty_tree() -> TreeView {
    TreeView { local_selection_sets: Seq::empty(), childs: Seq::empty() }
}

/// A tree with the paths of another one after its own.
pub open spec fn extended_tree(tree: TreeView, other: TreeView) -> TreeView {
    TreeView {
        local_selection_sets: tree.local_selection_sets + other.local_selection_sets,
        childs: tree.childs + other.childs,
    }
}

impl OpPathTree {
    /// The tree without paths.
    pub fn empty() -> (r: Self)
        ensures
            r.deep_view() == empty_tree(),
    {
        let r = OpPathTree { local_selection_sets: Vec::new(), childs: Vec::new() };
        assert(r.deep_view().local_selection_sets =~= Seq::empty());
        assert(r.deep_view().childs =~= Seq::empty());
        r
    }

    /// Puts the paths of another tree after those of this one, and merges none.
    pub fn extend(&mut self, other: OpPathTree)
        ensures
            final(self).deep_view() == extended_tree(old(self).deep_view(), other.deep_view()),
    {
        let ghost before = *self;
        let mut sets = other.local_selection_sets;
        let mut childs = other.childs;
        self.local_selection_sets.append(&mut sets);
        self.childs.append(&mut childs);
        proof {
            let after = extended_tree(before.deep_view(), other.deep_view());
            assert(self.deep_view().local_selection_sets =~= after.local_selection_sets);
            assert(self.deep_view().childs =~= after.childs);
        }
    }
}

/// Something to fetch from a subgraph.
pub struct FetchDependencyGraphNode {
    pub subgraph_name: Name,
    pub root_kind: SchemaRootDefinitionKind,
    pub parent_type: CompositeTypeDefinitionPosition,
    /// What is selected, in order.
    pub selection_sets: Vec<SelectionSet>,
    /// The nodes that have to be fetched before.
    pub depends_on: Vec<usize>,
}

/// The mathematical content of a [`FetchDependencyGraphNode`].
#[verifier::ext_equal]
pub struct DependencyNodeView {
    pub subgraph_name: Text,
    pub root_kind: SchemaRootDefinitionKind,
    pub parent_type: CompositeView,
    pub selection_sets: Seq<SelectionSetView>,
    pub depends_on: Seq<usize>,
}

impl DeepView for FetchDependencyGraphNode {
    type V = DependencyNodeView;

    open spec fn deep_view(&self) -> DependencyNodeView {
        DependencyNodeView {
            subgraph_name: self.subgraph_name@,
            root_kind: self.root_kind,
            parent_type: self.parent_type.deep_view(),
            selection_sets: self.selection_sets.deep_view(),
            depends_on: self.depends_on@,
        }
    }
}

/// What has to be fetched before what.
pub struct FetchDependencyGraph {
    pub nodes: Vec<FetchDependencyGraphNode>,
    /// The nodes that are fetched first, one for a subgraph.
    pub root_nodes_by_subgraph: NameMap<usize>,
    /// What is delivered first, if something is deferred.
    pub primary_selection: Option<SelectionSet>,
}

/// The mathematical content of a [`FetchDependencyGraph`].
#[verifier::ext_equal]
pub struct DependencyGraphView {
    pub nodes: Seq<DependencyNodeView>,
    pub root_nodes_by_subgraph: Entries<usize>,
    pub primary_selection: Option<SelectionSetView>,
}

impl DeepView for FetchDependencyGraph {
    type V = DependencyGraphView;

    open spec fn deep_view(&self) -> DependencyGraphView {
        DependencyGraphView {
            nodes: self.nodes.deep_view(),
            root_nodes_by_subgraph: self.root_nodes_by_subgraph.deep_view(),
            primary_selection: self.primary_selection.deep_view(),
        }
    }
}

/// The graph without anything to fetch. If something may be deferred, what is delivered first is
/// on the given type.
pub open spec fn new_graph(supergraph: SchemaView, root_type: Option<CompositeView>) -> DependencyGraphView {
    DependencyGraphView {
        nodes: Seq::empty(),
        root_nodes_by_subgraph: Seq::empty(),
        primary_selection: match root_type {
            Some(position) => Some(empty_set(supergraph, position)),
            None => None,
        },
    }
}

/// The node at the root for a subgraph, and the graph with that node.
pub open spec fn with_root_node(
    graph: DependencyGraphView,
    subgraph: Text,
    root_kind: SchemaRootDefinitionKind,
    parent_type: CompositeView,
) -> (DependencyGraphView, usize) {
    match value_of(graph.root_nodes_by_subgraph, subgraph) {
        Some(node) => (graph, node),
        None => (
            DependencyGraphView {
                nodes: graph.nodes.push(
                    DependencyNodeView {
                        subgraph_name: subgraph,
                        root_kind,
                        parent_type,
                        selection_sets: Seq::empty(),
                        depends_on: Seq::empty(),
                    },
                ),
                root_nodes_by_subgraph: put(
                    graph.root_nodes_by_subgraph,
                    subgraph,
                    graph.nodes.len() as usize,
                ),
                ..graph
            },
            graph.nodes.len() as usize,
        ),
    }
}

impl FetchDependencyGraph {
    /// The graph without anything to fetch.
    pub fn new(
        supergraph_schema: &Arc<Schema>,
        root_type: &Option<CompositeTypeDefinitionPosition>,
    ) -> (r: Self)
        ensures
            r.deep_view() == new_graph(supergraph_schema.deep_view(), root_type.deep_view()),
    {
        let primary_selection = match root_type {
            Some(position) => Some(SelectionSet::empty(supergraph_schema.clone(), position.clone())),
            None => None,
        };
        let r = FetchDependencyGraph {
            nodes: Vec::new(),
            root_nodes_by_subgraph: NameMap::new(),
            primary_selection,
        };
        assert(r.deep_view() =~= new_graph(supergraph_schema.deep_view(), root_type.deep_view()));
        r
    }

    /// The node at the root for a subgraph; it is added if there is none.
    pub fn get_or_create_root_node(
        &mut self,
        subgraph_name: &Name,
        root_kind: SchemaRootDefinitionKind,
        parent_type: &CompositeTypeDefinitionPosition,
    ) -> (r: usize)
        ensures
            (final(self).deep_view(), r) == with_root_node(
                old(self).deep_view(),
                subgraph_name@,
                root_kind,
                parent_type.deep_view(),
            ),
    {
        let ghost before = self.deep_view();
        if let Some(node) = self.root_nodes_by_subgraph.get(subgraph_name) {
            return *node;
        }
        let node: usize = self.nodes.len();
        let new = FetchDependencyGraphNode {
            subgraph_name: subgraph_name.clone(),
            root_kind,
            parent_type: parent_type.clone(),
            selection_sets: Vec::new(),
            depends_on: Vec::new(),
        };
        let ghost view = new.deep_view();
        self.nodes.push(new);
        self.root_nodes_by_subgraph.insert(subgraph_name.clone(), node);
        proof {
            assert(view.selection_sets =~= Seq::empty());
            assert(view.depends_on =~= Seq::empty());
            assert(self.nodes.deep_view() =~= before.nodes.push(view));
        }
        node
    }
}

/// A plan as its tree and its graph, with its cost.
pub struct BestQueryPlanInfo {
    pub fetch_dependency_graph: FetchDependencyGraph,
    pub path_tree: OpPathTree,
    pub cost: QueryPlanCost,
}

/// The mathematical content of a [`BestQueryPlanInfo`].
#[verifier::ext_equal]
pub struct BestPlanView {
    pub fetch_dependency_graph: DependencyGraphView,
    pub path_tree: TreeView,
    pub cost: QueryPlanCost,
}

impl DeepView for BestQueryPlanInfo {
    type V = BestPlanView;

    open spec fn deep_view(&self) -> BestPlanView {
        BestPlanView {
            fetch_dependency_graph: self.fetch_dependency_graph.deep_view(),
            path_tree: self.path_tree.deep_view(),
            cost: self.cost,
        }
    }
}

/// The plan that fetches nothing.
pub open spec fn nothing_to_fetch(supergraph: SchemaView) -> BestPlanView {
    BestPlanView {
        fetch_dependency_graph: new_graph(supergraph, None),
        path_tree: empty_tree(),
        cost: QueryPlanCost { bits: 0 },
    }
}

impl BestQueryPlanInfo {
    /// The plan that fetches nothing.
    pub fn empty(supergraph_schema: &Arc<Schema>) -> (r: Self)
        ensures
            r.deep_view() == nothing_to_fetch(supergraph_schema.deep_view()),
    {
        BestQueryPlanInfo {
            fetch_dependency_graph: FetchDependencyGraph::new(supergraph_schema, &None),
            path_tree: OpPathTree::empty(),
            cost: QueryPlanCost { bits: 0 },
        }
    }
}

/// How what is sent to a subgraph is made smaller.
#[derive(Clone, Copy, Debug, PartialEq, Eq, Structural)]
pub enum SubgraphOperationCompression {
    GenerateFragments,
    Disabled,
}

/// What plans are made with from dependency graphs.
pub struct PlanProcessor {
    pub variables: Vec<VariableDefinition>,
    pub directives: Vec<Directive>,
    pub compression: SubgraphOperationCompression,
    pub operation_name: Option<Name>,
    pub assigned_defer_labels: NameSet,
    /// The number of fetches so far.
    pub counter: u64,
}

/// The mathematical content of a [`PlanProcessor`].
#[verifier::ext_equal]
pub struct ProcessorView {
    pub variables: Seq<VariableView>,
    pub directives: Seq<DirectiveView>,
    pub compression: SubgraphOperationCompression,
    pub operation_name: Option<Text>,
    pub assigned_defer_labels: Seq<Text>,
    pub counter: u64,
}

impl DeepView for PlanProcessor {
    type V = ProcessorView;

    open spec fn deep_view(&self) -> ProcessorView {
        ProcessorView {
            variables: self.variables.deep_view(),
            directives: self.directives.deep_view(),
            compression: self.compression,
            operation_name: self.operation_name.deep_view(),
            assigned_defer_labels: self.assigned_defer_labels.deep_view(),
            counter: self.counter,
        }
    }
}

/// What is counted while a plan is looked for.
#[derive(Clone, Copy, Debug, PartialEq, Eq, Structural)]
pub struct PlanningProgress {
    pub evaluated_plan_count: usize,
    pub evaluated_plan_paths: usize,
    /// The number of selections that are not local, if it is limited.
    pub non_local_selections: Option<u64>,
}

/// What is planned, and on what.
pub struct QueryPlanningParameters<'a, C> {
    pub supergraph_schema: Arc<Schema>,
    pub federated_query_graph: &'a QueryGraph,
    pub operation: Operation,
    /// The root of the query graph that the operation starts at.
    pub head: usize,
    pub config: QueryPlannerConfig,
    /// The types with other objects in one subgraph than in another.
    pub abstract_types_with_inconsistent_runtime_types: NameSet,
    pub override_conditions: OverrideConditions,
    pub disabled_subgraphs: NameSet,
    pub check_for_cooperative_cancellation: &'a Option<C>,
}

/// The mathematical content of [`QueryPlanningParameters`].
#[verifier::ext_equal]
pub struct ParametersView {
    pub supergraph_schema: SchemaView,
    pub federated_query_graph: GraphView,
    pub operation: OperationView,
    pub head: usize,
    pub config: QueryPlannerConfig,
    pub abstract_types_with_inconsistent_runtime_types: Seq<Text>,
    pub override_conditions: OverrideConditionsView,
    pub disabled_subgraphs: Seq<Text>,
}

impl<'a, C> QueryPlanningParameters<'a, C> {
    /// The mathematical content, without what may cancel planning.
    pub open spec fn content(&self) -> ParametersView {
        ParametersView {
            supergraph_schema: self.supergraph_schema.deep_view(),
            federated_query_graph: self.federated_query_graph.deep_view(),
            operation: self.operation.deep_view(),
            head: self.head,
            config: self.config,
            abstract_types_with_inconsistent_runtime_types:
                self.abstract_types_with_inconsistent_runtime_types.deep_view(),
            override_conditions: self.override_conditions.deep_view(),
            disabled_subgraphs: self.disabled_subgraphs.deep_view(),
        }
    }
}

} // verus!
