//! Planning where one subgraph answers everything.

use crate::ast::clone_text;
use crate::ast::Name;
use crate::collections::NameMap;
use crate::error::FederationError;
use crate::operation::selection::SelectionSet;
use crate::operation::selection::SelectionSetView;
use crate::query_graph::condition_resolver::QueryPlanCost;
use crate::query_graph::EdgeView;
use crate::query_graph::GraphView;
use crate::query_graph::QueryGraph;
use crate::query_graph::SchemaRootDefinitionKind;
use crate::query_plan::dependency_graph::child_view;
use crate::query_plan::dependency_graph::BestPlanView;
use crate::query_plan::dependency_graph::BestQueryPlanInfo;
use crate::query_plan::dependency_graph::DependencyGraphView;
use crate::query_plan::dependency_graph::DependencyNodeView;
use crate::query_plan::dependency_graph::FetchDependencyGraph;
use crate::query_plan::dependency_graph::FetchDependencyGraphNode;
use crate::query_plan::dependency_graph::OpPathTree;
use crate::query_plan::dependency_graph::OpPathTreeChild;
use crate::query_plan::dependency_graph::ParametersView;
use crate::query_plan::dependency_graph::PlanningProgress;
use crate::query_plan::dependency_graph::PlanProcessor;
use crate::query_plan::dependency_graph::ProcessorView;
use crate::query_plan::dependency_graph::QueryPlanningParameters;
use crate::query_plan::dependency_graph::TreeChildView;
use crate::query_plan::dependency_graph::TreeView;
use crate::query_plan::planning::PlanningModel;
use crate::query_plan::planning::PlanningSteps;
use crate::query_plan::DeferredNode;
use crate::query_plan::DeferredView;
use crate::query_plan::FetchNode;
use crate::query_plan::FetchView;
use crate::query_plan::PlanNode;
use crate::query_plan::PlanView;
use crate::query_plan::SequenceNode;
use crate::schema::position::CompositeTypeDefinitionPosition;
use crate::schema::position::CompositeView;
use crate::schema::Schema;
use crate::schema::SchemaView;
use crate::text::Text;
use std::ops::ControlFlow;
use std::sync::Arc;
use vstd::prelude::*;

verus! {

/// Planning where one subgraph answers everything: the subgraph that the first edge from the root
/// of the query graph enters. Nothing is deferred.
pub struct SingleSubgraphPlanning;

/// The first edge from a node, from the index `from` on.
pub open spec fn first_edge_from(edges: Seq<EdgeView>, head: usize, from: nat) -> Option<usize>
    decreases edges.len() - from,
{
    if from >= edges.len() {
        None
    } else if edges[from as int].head == head {
        Some(from as usize)
    } else {
        first_edge_from(edges, head, from + 1)
    }
}

/// The graph and the tree that fetch some selections along an edge into a subgraph.
pub open spec fn fetching(
    subgraph: Text,
    kind: SchemaRootDefinitionKind,
    edge: usize,
    selection: SelectionSetView,
) -> BestPlanView {
    BestPlanView {
        fetch_dependency_graph: DependencyGraphView {
            nodes: seq![
                DependencyNodeView {
                    subgraph_name: subgraph,
                    root_kind: kind,
                    parent_type: selection.type_position,
                    selection_sets: seq![selection],
                    depends_on: Seq::empty(),
                },
            ],
            root_nodes_by_subgraph: seq![(subgraph, 0usize)],
            primary_selection: None,
        },
        path_tree: TreeView {
            local_selection_sets: Seq::empty(),
            childs: seq![
                TreeChildView {
                    edge: Some(edge),
                    tree: TreeView {
                        local_selection_sets: seq![selection],
                        childs: Seq::empty(),
                    },
                },
            ],
        },
        cost: QueryPlanCost { bits: 0 },
    }
}

/// The plan that asks the subgraph behind the first edge from the root, if there is one.
pub open spec fn single_plan(
    graph: GraphView,
    head: usize,
    kind: SchemaRootDefinitionKind,
    selection: SelectionSetView,
) -> Option<BestPlanView> {
    match first_edge_from(graph.edges, head, 0) {
        None => None,
        Some(edge) => if graph.edges[edge as int].tail < graph.nodes.len() {
            Some(
                fetching(
                    graph.nodes[graph.edges[edge as int].tail as int].source,
                    kind,
                    edge,
                    selection,
                ),
            )
        } else {
            None
        },
    }
}

/// A graph one of whose nodes selects more.
pub open spec fn selecting(graph: DependencyGraphView, node: usize, sets: Seq<SelectionSetView>) -> DependencyGraphView {
    if node < graph.nodes.len() {
        DependencyGraphView {
            nodes: graph.nodes.update(
                node as int,
                DependencyNodeView {
                    selection_sets: graph.nodes[node as int].selection_sets + sets,
                    ..graph.nodes[node as int]
                },
            ),
            ..graph
        }
    } else {
        graph
    }
}

/// What fetches what the first node of a graph selects.
pub open spec fn first_fetch(
    graph: DependencyGraphView,
    processor: ProcessorView,
    kind: SchemaRootDefinitionKind,
) -> Option<PlanView> {
    if graph.nodes.len() == 0 {
        None
    } else {
        Some(
            PlanView::Fetch(
                FetchView {
                    subgraph_name: graph.nodes[0].subgraph_name,
                    operation_name: processor.operation_name,
                    operation_kind: kind,
                    selection_sets: graph.nodes[0].selection_sets,
                },
            ),
        )
    }
}

/// One after the other.
pub open spec fn in_sequence(first: Option<PlanView>, second: Option<PlanView>) -> Option<PlanView> {
    match (first, second) {
        (Some(a), Some(b)) => Some(PlanView::Sequence(seq![a, b])),
        (Some(a), None) => Some(a),
        (None, _) => second,
    }
}

/// What planning with one subgraph is.
pub open spec fn single_subgraph_planning() -> PlanningModel {
    PlanningModel {
        flatten: |set: SelectionSetView| Ok(set),
        find_best_plan: |
            p: ParametersView,
            selection: SelectionSetView,
            has_defers: bool,
            progress: PlanningProgress,
        |
            Ok(
                (
                    single_plan(p.federated_query_graph, p.head, p.operation.root_kind, selection),
                    progress,
                ),
            ),
        convert_type: |
            position: CompositeView,
            graph: GraphView,
            subgraph: Text,
            supergraph: SchemaView,
        |
            Ok(position),
        compute_nodes: |
            graph: DependencyGraphView,
            tree: TreeView,
            node: usize,
            type_conditioned: bool,
            root_type: CompositeView,
        |
            Ok(selecting(graph, node, tree.local_selection_sets)),
        process: |
            graph: DependencyGraphView,
            processor: ProcessorView,
            kind: SchemaRootDefinitionKind,
        |
            Ok((first_fetch(graph, processor, kind), Seq::empty(), graph, processor)),
        reduce_sequence: |
            processor: ProcessorView,
            first: Option<PlanView>,
            second: Option<PlanView>,
        |
            in_sequence(first, second),
        reduce_defer: |
            processor: ProcessorView,
            main: Option<PlanView>,
            primary_selection: SelectionSetView,
            deferred: Seq<DeferredView>,
        |
            Ok(main),
        describe: |graph: DependencyGraphView| "The dependency graph"@,
    }
}

fn clone_sets(sets: &Vec<SelectionSet>) -> (r: Vec<SelectionSet>)
    ensures
        r.deep_view() == sets.deep_view(),
{
    let r = sets.clone();
    assert(r.deep_view() =~= sets.deep_view());
    r
}

fn fetch_along(
    subgraph: &Name,
    kind: SchemaRootDefinitionKind,
    edge: usize,
    selection: SelectionSet,
) -> (r: BestQueryPlanInfo)
    ensures
        r.deep_view() == fetching(subgraph@, kind, edge, selection.deep_view()),
{
    let ghost view = selection.deep_view();
    let mut graph = FetchDependencyGraph {
        nodes: Vec::new(),
        root_nodes_by_subgraph: NameMap::new(),
        primary_selection: None,
    };
    let node: usize = graph.get_or_create_root_node(subgraph, kind, &selection.type_position);
    let tree = OpPathTree { local_selection_sets: vec![selection.clone()], childs: Vec::new() };
    let new = FetchDependencyGraphNode {
        subgraph_name: subgraph.clone(),
        root_kind: kind,
        parent_type: selection.type_position.clone(),
        selection_sets: vec![selection],
        depends_on: Vec::new(),
    };
    let ghost node_view = new.deep_view();
    let ghost tree_content = tree.deep_view();
    proof {
        assert(tree_content.local_selection_sets =~= seq![view]);
        assert(tree_content.childs =~= Seq::empty());
        assert(node_view.selection_sets =~= seq![view]);
        assert(node_view.depends_on =~= Seq::empty());
    }
    graph.nodes = vec![new];
    let child = OpPathTreeChild { edge: Some(edge), tree };
    let ghost child_content = child_view(child);
    let path_tree = OpPathTree { local_selection_sets: Vec::new(), childs: vec![child] };
    proof {
        let expected = fetching(subgraph@, kind, edge, view);
        assert(graph.deep_view().nodes =~= seq![node_view]);
        assert(graph.deep_view().root_nodes_by_subgraph =~= seq![(subgraph@, 0usize)]);
        assert(path_tree.deep_view().local_selection_sets =~= Seq::empty());
        assert(path_tree.deep_view().childs =~= seq![child_content]);
        assert(path_tree.deep_view() == expected.path_tree);
        assert(graph.deep_view() == expected.fetch_dependency_graph);
    }
    BestQueryPlanInfo {
        fetch_dependency_graph: graph,
        path_tree,
        cost: QueryPlanCost { bits: 0 },
    }
}

impl PlanningSteps for SingleSubgraphPlanning {
    open spec fn model(&self) -> PlanningModel {
        single_subgraph_planning()
    }

    fn flatten(&self, selection_set: SelectionSet) -> (r: Result<SelectionSet, FederationError>) {
        Ok(selection_set)
    }

    fn find_best_plan<C: Fn() -> ControlFlow<()>>(
        &self,
        parameters: &QueryPlanningParameters<'_, C>,
        selection: SelectionSet,
        has_defers: bool,
        progress: &mut PlanningProgress,
    ) -> (r: Result<Option<BestQueryPlanInfo>, FederationError>) {
        let graph = parameters.federated_query_graph;
        let ghost q = graph.deep_view();
        let head: usize = parameters.head;
        let mut i: usize = 0;
        while i < graph.edges.len() && graph.edges[i].head != head
            invariant
                i <= graph.edges@.len(),
                q == graph.deep_view(),
                first_edge_from(q.edges, head, 0) == first_edge_from(q.edges, head, i as nat),
            decreases graph.edges@.len() - i,
        {
            assert(q.edges[i as int] == graph.edges@[i as int].deep_view());
            i += 1;
        }
        if i >= graph.edges.len() {
            return Ok(None);
        }
        assert(q.edges[i as int] == graph.edges@[i as int].deep_view());
        let tail: usize = graph.edges[i].tail;
        if tail >= graph.nodes.len() {
            return Ok(None);
        }
        assert(q.nodes[tail as int] == graph.nodes@[tail as int].deep_view());
        let plan = fetch_along(
            &graph.nodes[tail].source,
            parameters.operation.root_kind,
            i,
            selection,
        );
        Ok(Some(plan))
    }

    fn convert_type_from_subgraph(
        &self,
        position: CompositeTypeDefinitionPosition,
        graph: &QueryGraph,
        subgraph: &Name,
        supergraph_schema: &Arc<Schema>,
    ) -> (r: Result<CompositeTypeDefinitionPosition, FederationError>) {
        Ok(position)
    }

    fn compute_nodes_for_tree<C: Fn() -> ControlFlow<()>>(
        &self,
        graph: &mut FetchDependencyGraph,
        tree: &OpPathTree,
        node: usize,
        type_conditioned_fetching: bool,
        root_type: CompositeTypeDefinitionPosition,
        check: &Option<C>,
    ) -> (r: Result<(), FederationError>) {
        let ghost before = graph.deep_view();
        if node < graph.nodes.len() {
            let old_node = &graph.nodes[node];
            assert(before.nodes[node as int] == old_node.deep_view());
            let mut selection_sets = clone_sets(&old_node.selection_sets);
            let mut more = clone_sets(&tree.local_selection_sets);
            selection_sets.append(&mut more);
            let depends_on = old_node.depends_on.clone();
            let new = FetchDependencyGraphNode {
                subgraph_name: old_node.subgraph_name.clone(),
                root_kind: old_node.root_kind,
                parent_type: old_node.parent_type.clone(),
                selection_sets,
                depends_on,
            };
            let ghost view = new.deep_view();
            proof {
                assert(view.depends_on =~= before.nodes[node as int].depends_on);
                assert(view.selection_sets =~= before.nodes[node as int].selection_sets
                    + tree.deep_view().local_selection_sets);
            }
            graph.nodes.set(node, new);
            assert(graph.nodes.deep_view() =~= before.nodes.update(node as int, view));
        }
        Ok(())
    }

    fn process(
        &self,
        graph: &mut FetchDependencyGraph,
        processor: &mut PlanProcessor,
        root_kind: SchemaRootDefinitionKind,
    ) -> (r: Result<(Option<PlanNode>, Vec<DeferredNode>), FederationError>) {
        let ghost before = graph.deep_view();
        let deferred: Vec<DeferredNode> = Vec::new();
        assert(deferred.deep_view() =~= Seq::empty());
        if graph.nodes.len() == 0 {
            return Ok((None, deferred));
        }
        let node = &graph.nodes[0];
        assert(before.nodes[0] == node.deep_view());
        let fetch = FetchNode {
            subgraph_name: node.subgraph_name.clone(),
            operation_name: clone_text(&processor.operation_name),
            operation_kind: root_kind,
            selection_sets: clone_sets(&node.selection_sets),
        };
        Ok((Some(PlanNode::Fetch(Box::new(fetch))), deferred))
    }

    fn reduce_sequence(
        &self,
        processor: &PlanProcessor,
        first: Option<PlanNode>,
        second: Option<PlanNode>,
    ) -> (r: Option<PlanNode>) {
        match first {
            None => second,
            Some(a) => match second {
                None => Some(a),
                Some(b) => {
                    let ghost views = seq![a.deep_view(), b.deep_view()];
                    let r = PlanNode::Sequence(SequenceNode { nodes: vec![a, b] });
                    assert(r.deep_view()->Sequence_0 =~= views);
                    Some(r)
                },
            },
        }
    }

    fn reduce_defer(
        &self,
        processor: &PlanProcessor,
        main: Option<PlanNode>,
        primary_selection: &SelectionSet,
        deferred: Vec<DeferredNode>,
    ) -> (r: Result<Option<PlanNode>, FederationError>) {
        Ok(main)
    }

    fn describe(&self, graph: &FetchDependencyGraph) -> (r: String) {
        "The dependency graph".to_owned()
    }
}

} // verus!
