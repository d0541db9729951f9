//! Paths through the query graph, and the comparison of the options that they are.

use crate::ast::Name;
use crate::collections::clone_keeps_view;
use crate::collections::Entries;
use crate::collections::NameMap;
use crate::collections::NameSet;
use crate::error::internal_error;
use crate::error::result_view;
use crate::error::ErrorView;
use crate::error::FederationError;
use crate::operation::DeferDirectiveArguments;
use crate::operation::DeferView;
use crate::query_graph::condition_resolver::PathTreeId;
use crate::query_graph::condition_resolver::QueryPlanCost;
use crate::query_graph::edge_weight;
use crate::query_graph::elements::OpGraphPathTrigger;
use crate::query_graph::elements::TriggerView;
use crate::query_graph::node_weight;
use crate::query_graph::source_of;
use crate::query_graph::GraphView;
use crate::query_graph::NodeTypeView;
use crate::query_graph::QueryGraph;
use crate::query_graph::QueryGraphNodeType;
use crate::schema::position::as_composite;
use crate::schema::position::runtime_types;
use crate::text::same;
use crate::text::Text;
use vstd::prelude::*;

verus! {

/// The result of a comparison.
#[derive(Clone, Copy, Debug, PartialEq, Eq, Structural)]
pub enum Comparison {
    Less,
    Equal,
    Greater,
}

/// Where a path entered the subgraph that it ends in, and what that took.
#[derive(Clone, Copy, Debug, PartialEq, Eq, Structural)]
pub struct SubgraphEnteringEdgeInfo {
    pub index: usize,
    pub conditions_cost: QueryPlanCost,
}

/// A path through the query graph that is guided by an operation.
/// 
/// The lists of edges, triggers, conditions and contexts go in parallel. A step without edge stays at
/// its node.
pub struct OpGraphPath {
    pub head: usize,
    pub tail: usize,
    pub edges: Vec<Option<usize>>,
    pub edge_triggers: Vec<OpGraphPathTrigger>,
    pub edge_conditions: Vec<Option<PathTreeId>>,
    pub last_subgraph_entering_edge_info: Option<SubgraphEnteringEdgeInfo>,
    pub own_path_ids: Vec<usize>,
    pub overriding_path_ids: Vec<usize>,
    pub runtime_types_of_tail: NameSet,
    pub runtime_types_before_tail_if_last_is_cast: Option<NameSet>,
    pub defer_on_tail: Option<DeferDirectiveArguments>,
    pub matching_context_ids: Vec<Option<NameSet>>,
    pub arguments_to_context_usages: Vec<Option<NameMap<Name>>>,
}

/// The mathematical content of an [`OpGraphPath`].
#[verifier::ext_equal]
pub struct PathView {
    pub head: usize,
    pub tail: usize,
    pub edges: Seq<Option<usize>>,
    pub edge_triggers: Seq<TriggerView>,
    pub edge_conditions: Seq<Option<PathTreeId>>,
    pub last_subgraph_entering_edge_info: Option<SubgraphEnteringEdgeInfo>,
    pub own_path_ids: Seq<usize>,
    pub overriding_path_ids: Seq<usize>,
    pub runtime_types_of_tail: Seq<Text>,
    pub runtime_types_before_tail_if_last_is_cast: Option<Seq<Text>>,
    pub defer_on_tail: Option<DeferView>,
    pub matching_context_ids: Seq<Option<Seq<Text>>>,
    pub arguments_to_context_usages: Seq<Option<Entries<Text>>>,
}

impl DeepView for OpGraphPath {
    type V = PathView;

    open spec fn deep_view(&self) -> PathView {
        PathView {
            head: self.head,
            tail: self.tail,
            edges: self.edges@,
            edge_triggers: self.edge_triggers.deep_view(),
            edge_conditions: self.edge_conditions@,
            last_subgraph_entering_edge_info: self.last_subgraph_entering_edge_info,
            own_path_ids: self.own_path_ids@,
            overriding_path_ids: self.overriding_path_ids@,
            runtime_types_of_tail: self.runtime_types_of_tail.deep_view(),
            runtime_types_before_tail_if_last_is_cast: self.runtime_types_before_tail_if_last_is_cast.deep_view(),
            defer_on_tail: self.defer_on_tail.deep_view(),
            matching_context_ids: self.matching_context_ids.deep_view(),
            arguments_to_context_usages: self.arguments_to_context_usages.deep_view(),
        }
    }
}

impl Clone for OpGraphPath {
    fn clone(&self) -> (r: Self)
        ensures
            r.deep_view() == self.deep_view(),
    {
        let edges = self.edges.clone();
        assert(edges@ =~= self.edges@);
        let edge_triggers = self.edge_triggers.clone();
        assert(edge_triggers.deep_view() =~= self.edge_triggers.deep_view());
        let edge_conditions = self.edge_conditions.clone();
        assert(edge_conditions@ =~= self.edge_conditions@);
        let own_path_ids = self.own_path_ids.clone();
        assert(own_path_ids@ =~= self.own_path_ids@);
        let overriding_path_ids = self.overriding_path_ids.clone();
        assert(overriding_path_ids@ =~= self.overriding_path_ids@);
        let runtime_types_before_tail_if_last_is_cast = match &self.runtime_types_before_tail_if_last_is_cast {
            Some(x) => Some(x.clone()),
            None => None,
        };
        let defer_on_tail = match &self.defer_on_tail {
            Some(x) => Some(x.clone()),
            None => None,
        };
        let matching_context_ids = self.matching_context_ids.clone();
        assert(matching_context_ids.deep_view() =~= self.matching_context_ids.deep_view());
        let arguments_to_context_usages = self.arguments_to_context_usages.clone();
        assert(clone_keeps_view::<Name>());
        assert(arguments_to_context_usages.deep_view() =~= self.arguments_to_context_usages.deep_view());
        OpGraphPath {
            head: self.head,
            tail: self.tail,
            edges,
            edge_triggers,
            edge_conditions,
            last_subgraph_entering_edge_info: self.last_subgraph_entering_edge_info,
            own_path_ids,
            overriding_path_ids,
            runtime_types_of_tail: self.runtime_types_of_tail.clone(),
            runtime_types_before_tail_if_last_is_cast,
            defer_on_tail,
            matching_context_ids,
            arguments_to_context_usages,
        }
    }
}

/// Paths that are taken at the same time as one option.
pub struct SimultaneousPaths {
    pub paths: Vec<OpGraphPath>,
}

/// The mathematical content of a [`SimultaneousPaths`].
#[verifier::ext_equal]
pub struct SimultaneousView {
    pub paths: Seq<PathView>,
}

impl DeepView for SimultaneousPaths {
    type V = SimultaneousView;

    open spec fn deep_view(&self) -> SimultaneousView {
        SimultaneousView {
            paths: self.paths.deep_view(),
        }
    }
}

impl Clone for SimultaneousPaths {
    fn clone(&self) -> (r: Self)
        ensures
            r.deep_view() == self.deep_view(),
    {
        let paths = self.paths.clone();
        assert(paths.deep_view() =~= self.paths.deep_view());
        SimultaneousPaths {
            paths,
        }
    }
}

/// The lists of a path go in parallel.
pub open spec fn well_formed(path: PathView) -> bool {
    &&& path.edge_triggers.len() == path.edges.len()
    &&& path.edge_conditions.len() == path.edges.len()
    &&& path.matching_context_ids.len() == path.edges.len()
    &&& path.arguments_to_context_usages.len() == path.edges.len()
}

/// The object types that a value at a node can have.
pub open spec fn node_runtime_types(graph: GraphView, node: usize) -> Result<Seq<Text>, ErrorView> {
    match node_weight(graph, node) {
        Err(error) => Err(error),
        Ok(weight) => match weight.type_ {
            NodeTypeView::FederatedRootType(_) => Ok(Seq::empty()),
            NodeTypeView::SchemaType(position) => match as_composite(position) {
                None => Err(internal_error("Unexpectedly found a type without fields"@)),
                Some(composite) => match source_of(graph, weight.source) {
                    Err(error) => Err(error),
                    Ok(subgraph) => Ok(runtime_types(subgraph.schema, composite)),
                },
            },
        },
    }
}

/// The path at a node without any step.
pub open spec fn path_at(head: usize, types: Seq<Text>) -> PathView {
    PathView {
        head,
        tail: head,
        edges: Seq::empty(),
        edge_triggers: Seq::empty(),
        edge_conditions: Seq::empty(),
        last_subgraph_entering_edge_info: None,
        own_path_ids: Seq::empty(),
        overriding_path_ids: Seq::empty(),
        runtime_types_of_tail: types,
        runtime_types_before_tail_if_last_is_cast: None,
        defer_on_tail: None,
        matching_context_ids: Seq::empty(),
        arguments_to_context_usages: Seq::empty(),
    }
}

/// The path at a node without any step, if the node is there.
pub open spec fn new_path(graph: GraphView, head: usize) -> Result<PathView, ErrorView> {
    match node_runtime_types(graph, head) {
        Ok(types) => Ok(path_at(head, types)),
        Err(error) => Err(error),
    }
}

/// Whether a step leads to another subgraph.
pub open spec fn changes_subgraph(graph: GraphView, edge: usize) -> Result<bool, ErrorView> {
    match edge_weight(graph, edge) {
        Err(error) => Err(error),
        Ok(weight) => match node_weight(graph, weight.head) {
            Err(error) => Err(error),
            Ok(start) => match node_weight(graph, weight.tail) {
                Err(error) => Err(error),
                Ok(end) => Ok(start.source != end.source),
            },
        },
    }
}

/// How many of the steps from `from` to `to` lead to another subgraph.
pub open spec fn jumps_between(graph: GraphView, edges: Seq<Option<usize>>, from: nat, to: nat) -> Result<
    nat,
    ErrorView,
>
    decreases to,
{
    if to <= from {
        Ok(0)
    } else {
        match jumps_between(graph, edges, from, (to - 1) as nat) {
            Err(error) => Err(error),
            Ok(before) => match edges[to - 1] {
                None => Ok(before),
                Some(edge) => match changes_subgraph(graph, edge) {
                    Err(error) => Err(error),
                    Ok(changes) => Ok(
                        if changes {
                            before + 1
                        } else {
                            before
                        },
                    ),
                },
            },
        }
    }
}

/// How many steps two paths share at their front.
pub open spec fn common_length(a: Seq<Option<usize>>, b: Seq<Option<usize>>) -> nat
    decreases a.len(),
{
    if a.len() == 0 || b.len() == 0 || a[0] != b[0] {
        0
    } else {
        1 + common_length(a.drop_first(), b.drop_first())
    }
}

/// Compares whether two paths change the subgraph behind their common front.
pub open spec fn jump_comparison(graph: GraphView, a: PathView, b: PathView) -> Result<
    Comparison,
    ErrorView,
> {
    if a.head != b.head {
        Err(internal_error("Paths unexpectedly did not start at the same node."@))
    } else {
        let n = common_length(a.edges, b.edges);
        match jumps_between(graph, a.edges, n, a.edges.len()) {
            Err(error) => Err(error),
            Ok(of_a) => match jumps_between(graph, b.edges, n, b.edges.len()) {
                Err(error) => Err(error),
                Ok(of_b) => Ok(
                    if of_a == 0 && of_b > 0 {
                        Comparison::Less
                    } else if of_a > 0 && of_b == 0 {
                        Comparison::Greater
                    } else {
                        Comparison::Equal
                    },
                ),
            },
        }
    }
}

/// Compares two paths to the same leaf: where they end in different subgraphs, the one without
/// jumps behind the common front is better.
pub open spec fn path_comparison(graph: GraphView, a: PathView, b: PathView) -> Result<
    Comparison,
    ErrorView,
> {
    match node_weight(graph, a.tail) {
        Err(error) => Err(error),
        Ok(tail_a) => match node_weight(graph, b.tail) {
            Err(error) => Err(error),
            Ok(tail_b) => if tail_a.source != tail_b.source {
                jump_comparison(graph, a, b)
            } else {
                Ok(Comparison::Equal)
            },
        },
    }
}

/// Compares a path with the first `n` of several: it is better where it is better than each.
pub open spec fn single_comparison(
    graph: GraphView,
    a: PathView,
    others: Seq<PathView>,
    n: nat,
) -> Result<Comparison, ErrorView>
    decreases n,
{
    if n == 0 {
        Ok(Comparison::Less)
    } else {
        match single_comparison(graph, a, others, (n - 1) as nat) {
            Err(error) => Err(error),
            Ok(before) => if before != Comparison::Less {
                Ok(before)
            } else {
                match path_comparison(graph, a, others[n - 1]) {
                    Err(error) => Err(error),
                    Ok(c) => Ok(
                        if c == Comparison::Less {
                            Comparison::Less
                        } else {
                            Comparison::Equal
                        },
                    ),
                }
            },
        }
    }
}

/// The comparison the other way round.
pub open spec fn reversed(c: Comparison) -> Comparison {
    match c {
        Comparison::Less => Comparison::Greater,
        Comparison::Equal => Comparison::Equal,
        Comparison::Greater => Comparison::Less,
    }
}

/// Compares two options to reach the same leaf, whatever the rest of the plan is.
pub open spec fn option_comparison(
    graph: GraphView,
    a: SimultaneousView,
    b: SimultaneousView,
) -> Result<Comparison, ErrorView> {
    if a.paths.len() == 1 && b.paths.len() == 1 {
        path_comparison(graph, a.paths[0], b.paths[0])
    } else if a.paths.len() == 1 {
        single_comparison(graph, a.paths[0], b.paths, b.paths.len())
    } else if b.paths.len() == 1 {
        match single_comparison(graph, b.paths[0], a.paths, a.paths.len()) {
            Ok(c) => Ok(reversed(c)),
            Err(error) => Err(error),
        }
    } else {
        Ok(Comparison::Equal)
    }
}

impl OpGraphPath {
    /// The path at a node without any step.
    pub fn new(graph: &QueryGraph, head: usize) -> (r: Result<Self, FederationError>)
        ensures
            result_view(r) == new_path(graph.deep_view(), head),
    {
        let types = match Self::node_possible_runtime_types(graph, head) {
            Ok(types) => types,
            Err(error) => {
                return Err(error);
            },
        };
        let r = OpGraphPath {
            head,
            tail: head,
            edges: Vec::new(),
            edge_triggers: Vec::new(),
            edge_conditions: Vec::new(),
            last_subgraph_entering_edge_info: None,
            own_path_ids: Vec::new(),
            overriding_path_ids: Vec::new(),
            runtime_types_of_tail: types,
            runtime_types_before_tail_if_last_is_cast: None,
            defer_on_tail: None,
            matching_context_ids: Vec::new(),
            arguments_to_context_usages: Vec::new(),
        };
        assert(r.deep_view() =~= path_at(head, types.deep_view()));
        Ok(r)
    }

    fn node_possible_runtime_types(graph: &QueryGraph, node: usize) -> (r: Result<
        NameSet,
        FederationError,
    >)
        ensures
            result_view(r) == node_runtime_types(graph.deep_view(), node),
    {
        let weight = match graph.node_weight(node) {
            Ok(weight) => weight,
            Err(error) => {
                return Err(error);
            },
        };
        match &weight.type_ {
            QueryGraphNodeType::FederatedRootType(_) => Ok(NameSet::new()),
            QueryGraphNodeType::SchemaType(position) => match position.to_composite() {
                None => Err(FederationError::internal("Unexpectedly found a type without fields")),
                Some(composite) => match graph.source(&weight.source) {
                    Ok(subgraph) => Ok(subgraph.schema.possible_runtime_types(&composite)),
                    Err(error) => Err(error),
                },
            },
        }
    }

    /// How many steps lead to another subgraph.
    pub fn subgraph_jumps(&self, graph: &QueryGraph) -> (r: Result<usize, FederationError>)
        ensures
            match r {
                Ok(n) => jumps_between(
                    graph.deep_view(),
                    self.deep_view().edges,
                    0,
                    self.deep_view().edges.len(),
                ) == Ok::<nat, ErrorView>(n as nat),
                Err(error) => jumps_between(
                    graph.deep_view(),
                    self.deep_view().edges,
                    0,
                    self.deep_view().edges.len(),
                ) == Err::<nat, ErrorView>(error.deep_view()),
            },
    {
        self.subgraph_jumps_at_idx(graph, 0)
    }

    /// How many steps from the given one on lead to another subgraph.
    pub fn subgraph_jumps_at_idx(&self, graph: &QueryGraph, start_index: usize) -> (r: Result<
        usize,
        FederationError,
    >)
        requires
            start_index <= self.deep_view().edges.len(),
        ensures
            match r {
                Ok(n) => jumps_between(
                    graph.deep_view(),
                    self.deep_view().edges,
                    start_index as nat,
                    self.deep_view().edges.len(),
                ) == Ok::<nat, ErrorView>(n as nat),
                Err(error) => jumps_between(
                    graph.deep_view(),
                    self.deep_view().edges,
                    start_index as nat,
                    self.deep_view().edges.len(),
                ) == Err::<nat, ErrorView>(error.deep_view()),
            },
    {
        let ghost g = graph.deep_view();
        let ghost from = start_index as nat;
        let mut sum: usize = 0;
        let mut i: usize = start_index;
        while i < self.edges.len()
            invariant
                start_index <= i <= self.edges.len(),
                g == graph.deep_view(),
                from == start_index,
                sum <= i - start_index,
                jumps_between(g, self.edges@, from, i as nat) == Ok::<nat, ErrorView>(sum as nat),
            decreases self.edges.len() - i,
        {
            if let Some(edge) = self.edges[i] {
                match Self::edge_changes_subgraph(graph, edge) {
                    Ok(changes) => {
                        if changes {
                            sum += 1;
                        }
                    },
                    Err(error) => {
                        proof {
                            lemma_jump_error(g, self.edges@, from, i as nat + 1);
                        }
                        return Err(error);
                    },
                }
            }
            i += 1;
        }
        Ok(sum)
    }

    fn edge_changes_subgraph(graph: &QueryGraph, edge: usize) -> (r: Result<bool, FederationError>)
        ensures
            result_view(r) == changes_subgraph(graph.deep_view(), edge),
    {
        let weight = match graph.edge_weight(edge) {
            Ok(weight) => weight,
            Err(error) => {
                return Err(error);
            },
        };
        let start = match graph.node_weight(weight.head) {
            Ok(start) => start,
            Err(error) => {
                return Err(error);
            },
        };
        let end = match graph.node_weight(weight.tail) {
            Ok(end) => end,
            Err(error) => {
                return Err(error);
            },
        };
        Ok(!same(&start.source, &end.source))
    }

    /// How many steps two paths from the same node share at their front.
    pub fn find_longest_common_prefix_length(&self, other: &OpGraphPath) -> (r: Result<
        usize,
        FederationError,
    >)
        ensures
            match r {
                Ok(n) => self.head == other.head && n == common_length(
                    self.deep_view().edges,
                    other.deep_view().edges,
                ) && n <= self.deep_view().edges.len() && n <= other.deep_view().edges.len(),
                Err(error) => self.head != other.head && error.deep_view() == internal_error(
                    "Paths unexpectedly did not start at the same node."@,
                ),
            },
    {
        if self.head != other.head {
            return Err(
                FederationError::internal("Paths unexpectedly did not start at the same node."),
            );
        }
        let ghost a = self.edges@;
        let ghost b = other.edges@;
        let mut i: usize = 0;
        assert(a.skip(0) =~= a);
        assert(b.skip(0) =~= b);
        while i < self.edges.len() && i < other.edges.len() && self.edges[i] == other.edges[i]
            invariant
                i <= self.edges.len(),
                i <= other.edges.len(),
                a == self.edges@,
                b == other.edges@,
                common_length(a, b) == i + common_length(a.skip(i as int), b.skip(i as int)),
            decreases self.edges.len() - i,
        {
            assert(a.skip(i as int).drop_first() =~= a.skip(i + 1));
            assert(b.skip(i as int).drop_first() =~= b.skip(i + 1));
            i += 1;
        }
        Ok(i)
    }

    /// Compares whether two paths change the subgraph behind their common front.
    pub fn compare_subgraph_jumps_after_last_common_node(
        &self,
        graph: &QueryGraph,
        other: &OpGraphPath,
    ) -> (r: Result<Comparison, FederationError>)
        ensures
            match r {
                Ok(c) => jump_comparison(graph.deep_view(), self.deep_view(), other.deep_view())
                    == Ok::<Comparison, ErrorView>(c),
                Err(error) => jump_comparison(
                    graph.deep_view(),
                    self.deep_view(),
                    other.deep_view(),
                ) == Err::<Comparison, ErrorView>(error.deep_view()),
            },
    {
        let longest_common_prefix_len: usize = match self.find_longest_common_prefix_length(other) {
            Ok(n) => n,
            Err(error) => {
                return Err(error);
            },
        };
        let self_jumps: usize = match self.subgraph_jumps_at_idx(graph, longest_common_prefix_len) {
            Ok(n) => n,
            Err(error) => {
                return Err(error);
            },
        };
        let other_jumps: usize = match other.subgraph_jumps_at_idx(
            graph,
            longest_common_prefix_len,
        ) {
            Ok(n) => n,
            Err(error) => {
                return Err(error);
            },
        };
        if self_jumps == 0 && other_jumps > 0 {
            Ok(Comparison::Less)
        } else if self_jumps > 0 && other_jumps == 0 {
            Ok(Comparison::Greater)
        } else {
            Ok(Comparison::Equal)
        }
    }

    /// Compares two paths to the same leaf, whatever the rest of the plan is.
    pub fn compare_single_path_options_complexity_out_of_context(
        &self,
        graph: &QueryGraph,
        other: &OpGraphPath,
    ) -> (r: Result<Comparison, FederationError>)
        ensures
            match r {
                Ok(c) => path_comparison(graph.deep_view(), self.deep_view(), other.deep_view())
                    == Ok::<Comparison, ErrorView>(c),
                Err(error) => path_comparison(
                    graph.deep_view(),
                    self.deep_view(),
                    other.deep_view(),
                ) == Err::<Comparison, ErrorView>(error.deep_view()),
            },
    {
        let self_tail_weight = match graph.node_weight(self.tail) {
            Ok(weight) => weight,
            Err(error) => {
                return Err(error);
            },
        };
        let other_tail_weight = match graph.node_weight(other.tail) {
            Ok(weight) => weight,
            Err(error) => {
                return Err(error);
            },
        };
        if !same(&self_tail_weight.source, &other_tail_weight.source) {
            self.compare_subgraph_jumps_after_last_common_node(graph, other)
        } else {
            Ok(Comparison::Equal)
        }
    }

    /// Compares a path with several that are taken at the same time.
    pub fn compare_single_vs_multi_path_options_complexity_out_of_context(
        &self,
        graph: &QueryGraph,
        other: &SimultaneousPaths,
    ) -> (r: Result<Comparison, FederationError>)
        ensures
            match r {
                Ok(c) => single_comparison(
                    graph.deep_view(),
                    self.deep_view(),
                    other.deep_view().paths,
                    other.deep_view().paths.len(),
                ) == Ok::<Comparison, ErrorView>(c),
                Err(error) => single_comparison(
                    graph.deep_view(),
                    self.deep_view(),
                    other.deep_view().paths,
                    other.deep_view().paths.len(),
                ) == Err::<Comparison, ErrorView>(error.deep_view()),
            },
    {
        let ghost g = graph.deep_view();
        let ghost a = self.deep_view();
        let ghost others = other.paths.deep_view();
        let mut i: usize = 0;
        while i < other.paths.len()
            invariant
                i <= other.paths.len(),
                g == graph.deep_view(),
                a == self.deep_view(),
                others == other.paths.deep_view(),
                single_comparison(g, a, others, i as nat) == Ok::<Comparison, ErrorView>(
                    Comparison::Less,
                ),
            decreases other.paths.len() - i,
        {
            assert(others[i as int] == other.paths@[i as int].deep_view());
            match self.compare_single_path_options_complexity_out_of_context(
                graph,
                &other.paths[i],
            ) {
                Ok(c) => {
                    if c != Comparison::Less {
                        proof {
                            lemma_single_comparison_stays(g, a, others, i as nat + 1);
                        }
                        return Ok(Comparison::Equal);
                    }
                },
                Err(error) => {
                    proof {
                        lemma_single_comparison_stays(g, a, others, i as nat + 1);
                    }
                    return Err(error);
                },
            }
            i += 1;
        }
        Ok(Comparison::Less)
    }
}

proof fn lemma_jump_error(graph: GraphView, edges: Seq<Option<usize>>, from: nat, n: nat)
    requires
        n <= edges.len(),
        jumps_between(graph, edges, from, n) is Err,
    ensures
        jumps_between(graph, edges, from, edges.len()) == jumps_between(graph, edges, from, n),
    decreases edges.len() - n,
{
    if n < edges.len() {
        lemma_jump_error(graph, edges, from, n + 1);
    }
}

proof fn lemma_single_comparison_stays(
    graph: GraphView,
    a: PathView,
    others: Seq<PathView>,
    n: nat,
)
    requires
        n <= others.len(),
        single_comparison(graph, a, others, n) != Ok::<Comparison, ErrorView>(Comparison::Less),
    ensures
        single_comparison(graph, a, others, others.len()) == single_comparison(
            graph,
            a,
            others,
            n,
        ),
    decreases others.len() - n,
{
    if n < others.len() {
        lemma_single_comparison_stays(graph, a, others, n + 1);
    }
}

impl SimultaneousPaths {
    /// Compares two options to reach the same leaf, whatever the rest of the plan is.
    pub fn compare_options_complexity_out_of_context(
        &self,
        graph: &QueryGraph,
        other: &SimultaneousPaths,
    ) -> (r: Result<Comparison, FederationError>)
        ensures
            match r {
                Ok(c) => option_comparison(graph.deep_view(), self.deep_view(), other.deep_view())
                    == Ok::<Comparison, ErrorView>(c),
                Err(error) => option_comparison(
                    graph.deep_view(),
                    self.deep_view(),
                    other.deep_view(),
                ) == Err::<Comparison, ErrorView>(error.deep_view()),
            },
    {
        if self.paths.len() == 1 && other.paths.len() == 1 {
            self.paths[0].compare_single_path_options_complexity_out_of_context(
                graph,
                &other.paths[0],
            )
        } else if self.paths.len() == 1 {
            self.paths[0].compare_single_vs_multi_path_options_complexity_out_of_context(
                graph,
                other,
            )
        } else if other.paths.len() == 1 {
            match other.paths[0].compare_single_vs_multi_path_options_complexity_out_of_context(
                graph,
                self,
            ) {
                Ok(c) => Ok(
                    match c {
                        Comparison::Less => Comparison::Greater,
                        Comparison::Equal => Comparison::Equal,
                        Comparison::Greater => Comparison::Less,
                    },
                ),
                Err(error) => Err(error),
            }
        } else {
            Ok(Comparison::Equal)
        }
    }
}

/// Comparing two options the other way round gives the reversed result, where neither way fails
/// and the two options are single paths.
pub proof fn law_comparison_is_antisymmetric(graph: GraphView, a: PathView, b: PathView)
    requires
        path_comparison(graph, a, b) is Ok,
        path_comparison(graph, b, a) is Ok,
    ensures
        path_comparison(graph, b, a)->Ok_0 == reversed(path_comparison(graph, a, b)->Ok_0),
{
    lemma_common_length_symmetric(a.edges, b.edges);
}

proof fn lemma_common_length_symmetric(a: Seq<Option<usize>>, b: Seq<Option<usize>>)
    ensures
        common_length(a, b) == common_length(b, a),
    decreases a.len(),
{
    if a.len() > 0 && b.len() > 0 && a[0] == b[0] {
        lemma_common_length_symmetric(a.drop_first(), b.drop_first());
    }
}

} // verus!
