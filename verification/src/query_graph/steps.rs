//! The steps that lengthen a path, and what they are expected to do.

use crate::collections::NameSet;
use crate::error::internal_error;
use crate::error::result_view;
use crate::error::ErrorView;
use crate::error::FederationError;
use crate::operation::introspection_typename;
use crate::operation::typename_field;
use crate::operation::DeferDirectiveArguments;
use crate::operation::DeferView;
use crate::operation::Field;
use crate::operation::FieldElementView;
use crate::query_graph::advanced_runtime_types;
use crate::query_graph::condition_resolver::no_conditions;
use crate::query_graph::condition_resolver::ConditionResolution;
use crate::query_graph::condition_resolver::ExcludedConditions;
use crate::query_graph::condition_resolver::ExcludedConditionsView;
use crate::query_graph::condition_resolver::ExcludedDestinations;
use crate::query_graph::condition_resolver::ExcludedDestinationsView;
use crate::query_graph::condition_resolver::PathTreeId;
use crate::query_graph::condition_resolver::ResolutionView;
use crate::query_graph::edge_for_field;
use crate::query_graph::edge_weight;
use crate::query_graph::elements::ContextView;
use crate::query_graph::elements::ElementView;
use crate::query_graph::elements::OpGraphPathContext;
use crate::query_graph::elements::OpGraphPathTrigger;
use crate::query_graph::elements::OpPathElement;
use crate::query_graph::elements::TriggerView;
use crate::query_graph::graph_path::well_formed;
use crate::query_graph::graph_path::OpGraphPath;
use crate::query_graph::graph_path::PathView;
use crate::query_graph::node_weight;
use crate::query_graph::path_checks::truncated;
use crate::query_graph::source_of;
use crate::query_graph::GraphView;
use crate::query_graph::NodeTypeView;
use crate::query_graph::OverrideConditions;
use crate::query_graph::OverrideConditionsView;
use crate::query_graph::QueryGraph;
use crate::query_graph::QueryGraphEdgeTransition;
use crate::query_graph::QueryGraphNodeType;
use crate::schema::position::as_composite;
use crate::text::Text;
use vstd::prelude::*;

verus! {

/// What the steps of a path are, as functions.
pub struct StepsModel {
    /// Lengthens a path by a step with its trigger, edge, resolved conditions and `@defer`.
    pub add: spec_fn(
        GraphView,
        PathView,
        TriggerView,
        Option<usize>,
        ResolutionView,
        Option<DeferView>,
    ) -> Result<PathView, ErrorView>,
    /// Resolves the conditions of an edge at the end of a path.
    pub satisfy: spec_fn(
        GraphView,
        PathView,
        usize,
        ContextView,
        ExcludedDestinationsView,
        ExcludedConditionsView,
    ) -> Result<ResolutionView, ErrorView>,
    /// Lengthens a path by all the ways that collect nothing and stay at the type of its end.
    pub indirect: spec_fn(
        GraphView,
        PathView,
        ContextView,
        ExcludedDestinationsView,
        ExcludedConditionsView,
        OverrideConditionsView,
        Seq<Text>,
    ) -> Result<Seq<PathView>, ErrorView>,
}

/// The steps that lengthen a path. What a step gives depends on its arguments alone, however often
/// it is made: a resolver may keep what it found.
pub trait GraphPathSteps: Sized {
    /// What the steps are.
    spec fn model(&self) -> StepsModel;

    /// Lengthens a path by a step.
    fn add(
        &mut self,
        graph: &QueryGraph,
        path: &OpGraphPath,
        trigger: OpGraphPathTrigger,
        edge: Option<usize>,
        condition_resolution: ConditionResolution,
        defer: Option<DeferDirectiveArguments>,
    ) -> (r: Result<OpGraphPath, FederationError>)
        ensures
            final(self).model() == old(self).model(),
            result_view(r) == (old(self).model().add)(
                graph.deep_view(),
                path.deep_view(),
                trigger.deep_view(),
                edge,
                condition_resolution.deep_view(),
                defer.deep_view(),
            ),
    ;

    /// Resolves the conditions of an edge at the end of a path.
    fn can_satisfy_conditions(
        &mut self,
        graph: &QueryGraph,
        path: &OpGraphPath,
        edge: usize,
        context: &OpGraphPathContext,
        excluded_destinations: &ExcludedDestinations,
        excluded_conditions: &ExcludedConditions,
    ) -> (r: Result<ConditionResolution, FederationError>)
        ensures
            final(self).model() == old(self).model(),
            result_view(r) == (old(self).model().satisfy)(
                graph.deep_view(),
                path.deep_view(),
                edge,
                context.deep_view(),
                excluded_destinations.deep_view(),
                excluded_conditions.deep_view(),
            ),
    ;

    /// Lengthens a path by all the ways that collect nothing and stay at the type of its end.
    fn advance_with_non_collecting_and_type_preserving_transitions(
        &mut self,
        graph: &QueryGraph,
        path: &OpGraphPath,
        context: &OpGraphPathContext,
        excluded_destinations: &ExcludedDestinations,
        excluded_conditions: &ExcludedConditions,
        override_conditions: &OverrideConditions,
        disabled_subgraphs: &NameSet,
    ) -> (r: Result<Vec<OpGraphPath>, FederationError>)
        ensures
            final(self).model() == old(self).model(),
            result_view(r) == (old(self).model().indirect)(
                graph.deep_view(),
                path.deep_view(),
                context.deep_view(),
                excluded_destinations.deep_view(),
                excluded_conditions.deep_view(),
                override_conditions.deep_view(),
                disabled_subgraphs.deep_view(),
            ),
    ;
}

/// A path with one more step: its edge starts where the path ended.
pub open spec fn extended(
    graph: GraphView,
    path: PathView,
    trigger: TriggerView,
    edge: Option<usize>,
    resolution: ResolutionView,
    defer: Option<DeferView>,
) -> Result<PathView, ErrorView> {
    match edge {
        None => Ok(
            extended_to(path, path.tail, trigger, edge, resolution, defer, path.runtime_types_of_tail, None),
        ),
        Some(index) => match edge_weight(graph, index) {
            Err(error) => Err(error),
            Ok(weight) => if weight.head != path.tail {
                Err(internal_error("Edge does not start at the end of the path"@))
            } else {
                match advanced_runtime_types(graph, path.runtime_types_of_tail, edge) {
                    Err(error) => Err(error),
                    Ok(types) => Ok(
                        extended_to(
                            path,
                            weight.tail,
                            trigger,
                            edge,
                            resolution,
                            defer,
                            types,
                            if weight.transition is Downcast {
                                Some(path.runtime_types_of_tail)
                            } else {
                                None
                            },
                        ),
                    ),
                }
            },
        },
    }
}

/// A path with one more step, which ends at the given node with the given object types.
pub open spec fn extended_to(
    path: PathView,
    tail: usize,
    trigger: TriggerView,
    edge: Option<usize>,
    resolution: ResolutionView,
    defer: Option<DeferView>,
    types: Seq<Text>,
    types_before_cast: Option<Seq<Text>>,
) -> PathView {
    PathView {
        tail,
        edges: path.edges.push(edge),
        edge_triggers: path.edge_triggers.push(trigger),
        edge_conditions: path.edge_conditions.push(resolved_tree(resolution)),
        runtime_types_of_tail: types,
        runtime_types_before_tail_if_last_is_cast: types_before_cast,
        defer_on_tail: defer,
        matching_context_ids: path.matching_context_ids.push(None),
        arguments_to_context_usages: path.arguments_to_context_usages.push(None),
        ..path
    }
}

/// The paths by which conditions are resolved.
pub open spec fn resolved_tree(resolution: ResolutionView) -> Option<PathTreeId> {
    match resolution {
        ResolutionView::Satisfied { cost, path_tree, context_map } => path_tree,
        ResolutionView::Unsatisfied { reason } => None,
    }
}

/// Conditions of edges without a resolver: only an edge without conditions can be taken.
pub open spec fn unconditional(graph: GraphView, edge: usize) -> Result<ResolutionView, ErrorView> {
    match edge_weight(graph, edge) {
        Err(error) => Err(error),
        Ok(weight) => Ok(
            match weight.conditions {
                None => no_conditions(),
                Some(_) => ResolutionView::Unsatisfied { reason: None },
            },
        ),
    }
}

/// Steps that stay in one subgraph: no edge with conditions is taken, and there are no ways that
/// collect nothing.
pub struct SingleSubgraphSteps;

/// What the steps in one subgraph are.
pub open spec fn single_subgraph_model() -> StepsModel {
    StepsModel {
        add: |
            graph: GraphView,
            path: PathView,
            trigger: TriggerView,
            edge: Option<usize>,
            resolution: ResolutionView,
            defer: Option<DeferView>,
        |
            extended(graph, path, trigger, edge, resolution, defer),
        satisfy: |
            graph: GraphView,
            path: PathView,
            edge: usize,
            context: ContextView,
            excluded_destinations: ExcludedDestinationsView,
            excluded_conditions: ExcludedConditionsView,
        |
            unconditional(graph, edge),
        indirect: |
            graph: GraphView,
            path: PathView,
            context: ContextView,
            excluded_destinations: ExcludedDestinationsView,
            excluded_conditions: ExcludedConditionsView,
            override_conditions: OverrideConditionsView,
            disabled_subgraphs: Seq<Text>,
        |
            Ok(Seq::empty()),
    }
}

impl GraphPathSteps for SingleSubgraphSteps {
    open spec fn model(&self) -> StepsModel {
        single_subgraph_model()
    }

    fn add(
        &mut self,
        graph: &QueryGraph,
        path: &OpGraphPath,
        trigger: OpGraphPathTrigger,
        edge: Option<usize>,
        condition_resolution: ConditionResolution,
        defer: Option<DeferDirectiveArguments>,
    ) -> (r: Result<OpGraphPath, FederationError>) {
        let mut tail: usize = path.tail;
        let mut types = path.runtime_types_of_tail.clone();
        let mut types_before_cast: Option<NameSet> = None;
        if let Some(index) = edge {
            let weight = match graph.edge_weight(index) {
                Ok(weight) => weight,
                Err(error) => {
                    return Err(error);
                },
            };
            if weight.head != path.tail {
                return Err(
                    FederationError::internal("Edge does not start at the end of the path"),
                );
            }
            types =
            match graph.advance_possible_runtime_types(&path.runtime_types_of_tail, edge) {
                Ok(types) => types,
                Err(error) => {
                    return Err(error);
                },
            };
            tail = weight.tail;
            if let QueryGraphEdgeTransition::Downcast { .. } = &weight.transition {
                types_before_cast = Some(path.runtime_types_of_tail.clone());
            }
        }
        let path_tree = match &condition_resolution {
            ConditionResolution::Satisfied { path_tree, .. } => *path_tree,
            ConditionResolution::Unsatisfied { .. } => None,
        };
        let mut r = path.clone();
        let ghost before = r.deep_view();
        r.tail = tail;
        r.edges.push(edge);
        r.edge_triggers.push(trigger);
        r.edge_conditions.push(path_tree);
        r.runtime_types_of_tail = types;
        r.runtime_types_before_tail_if_last_is_cast = types_before_cast;
        r.defer_on_tail = defer;
        r.matching_context_ids.push(None);
        r.arguments_to_context_usages.push(None);
        proof {
            assert(r.edge_triggers.deep_view() =~= before.edge_triggers.push(trigger.deep_view()));
            assert(r.matching_context_ids.deep_view() =~= before.matching_context_ids.push(None));
            assert(r.arguments_to_context_usages.deep_view()
                =~= before.arguments_to_context_usages.push(None));
        }
        Ok(r)
    }

    fn can_satisfy_conditions(
        &mut self,
        graph: &QueryGraph,
        path: &OpGraphPath,
        edge: usize,
        context: &OpGraphPathContext,
        excluded_destinations: &ExcludedDestinations,
        excluded_conditions: &ExcludedConditions,
    ) -> (r: Result<ConditionResolution, FederationError>) {
        match graph.edge_weight(edge) {
            Err(error) => Err(error),
            Ok(weight) => Ok(
                match &weight.conditions {
                    None => ConditionResolution::no_conditions(),
                    Some(_) => ConditionResolution::unsatisfied_conditions(),
                },
            ),
        }
    }

    fn advance_with_non_collecting_and_type_preserving_transitions(
        &mut self,
        graph: &QueryGraph,
        path: &OpGraphPath,
        context: &OpGraphPathContext,
        excluded_destinations: &ExcludedDestinations,
        excluded_conditions: &ExcludedConditions,
        override_conditions: &OverrideConditions,
        disabled_subgraphs: &NameSet,
    ) -> (r: Result<Vec<OpGraphPath>, FederationError>) {
        let paths: Vec<OpGraphPath> = Vec::new();
        assert(paths.deep_view() =~= Seq::empty());
        Ok(paths)
    }
}

/// No destination is left out.
pub open spec fn no_destinations() -> ExcludedDestinationsView {
    ExcludedDestinationsView { names: Seq::empty() }
}

/// No condition is left out.
pub open spec fn no_excluded_conditions() -> ExcludedConditionsView {
    ExcludedConditionsView { conditions: Seq::empty() }
}

/// A path lengthened by a field, unless the conditions of its edge cannot be satisfied.
pub open spec fn field_step(
    steps: StepsModel,
    graph: GraphView,
    path: PathView,
    field: FieldElementView,
    edge: usize,
    context: ContextView,
) -> Result<Option<PathView>, ErrorView> {
    match (steps.satisfy)(graph, path, edge, context, no_destinations(), no_excluded_conditions()) {
        Err(error) => Err(error),
        Ok(resolution) => if resolution is Satisfied {
            match (steps.add)(
                graph,
                path,
                TriggerView::OpPathElement(ElementView::Field(field)),
                Some(edge),
                resolution,
                None,
            ) {
                Ok(longer) => Ok(Some(longer)),
                Err(error) => Err(error),
            }
        } else {
            Ok(None)
        },
    }
}

/// A path that ends with `__typename`, which nobody asked for: casts at the end of the path are
/// left out before.
pub open spec fn terminated(
    steps: StepsModel,
    graph: GraphView,
    path: PathView,
    overrides: OverrideConditionsView,
) -> Result<PathView, ErrorView> {
    match truncated(graph, path) {
        Err(error) => Err(error),
        Ok(shorter) => match node_weight(graph, shorter.tail) {
            Err(error) => Err(error),
            Ok(weight) => match weight.type_ {
                NodeTypeView::FederatedRootType(_) => Err(
                    internal_error("Unexpectedly found federated root node as tail"@),
                ),
                NodeTypeView::SchemaType(position) => match as_composite(position) {
                    None => Ok(shorter),
                    Some(composite) => match source_of(graph, weight.source) {
                        Err(error) => Err(error),
                        Ok(subgraph) => match edge_for_field(
                            graph,
                            shorter.tail,
                            typename_field(),
                            overrides,
                        ) {
                            None => Err(
                                internal_error("Unexpectedly missing edge for __typename field"@),
                            ),
                            Some(edge) => (steps.add)(
                                graph,
                                shorter,
                                TriggerView::OpPathElement(
                                    ElementView::Field(
                                        introspection_typename(subgraph.schema, composite, None),
                                    ),
                                ),
                                Some(edge),
                                no_conditions(),
                                None,
                            ),
                        },
                    },
                },
            },
        },
    }
}

impl OpGraphPath {
    /// The path lengthened by a field, unless the conditions of its edge cannot be satisfied.
    pub fn add_field_edge<S: GraphPathSteps>(
        &self,
        graph: &QueryGraph,
        operation_field: Field,
        edge: usize,
        steps: &mut S,
        context: &OpGraphPathContext,
    ) -> (r: Result<Option<OpGraphPath>, FederationError>)
        ensures
            final(steps).model() == old(steps).model(),
            result_view(r) == field_step(
                old(steps).model(),
                graph.deep_view(),
                self.deep_view(),
                operation_field.deep_view(),
                edge,
                context.deep_view(),
            ),
    {
        let excluded_destinations = ExcludedDestinations::new();
        let excluded_conditions = ExcludedConditions::new();
        let condition_resolution = match steps.can_satisfy_conditions(
            graph,
            self,
            edge,
            context,
            &excluded_destinations,
            &excluded_conditions,
        ) {
            Ok(resolution) => resolution,
            Err(error) => {
                return Err(error);
            },
        };
        let satisfied = match &condition_resolution {
            ConditionResolution::Satisfied { .. } => true,
            ConditionResolution::Unsatisfied { .. } => false,
        };
        if satisfied {
            match steps.add(
                graph,
                self,
                OpGraphPathTrigger::OpPathElement(OpPathElement::Field(operation_field)),
                Some(edge),
                condition_resolution,
                None,
            ) {
                Ok(path) => Ok(Some(path)),
                Err(error) => Err(error),
            }
        } else {
            Ok(None)
        }
    }

    /// The path without casts at its end, lengthened by `__typename`, which nobody asked for: it
    /// keeps a selection from being empty.
    pub fn terminate_with_non_requested_typename_field<S: GraphPathSteps>(
        &self,
        graph: &QueryGraph,
        steps: &mut S,
        override_conditions: &OverrideConditions,
    ) -> (r: Result<OpGraphPath, FederationError>)
        requires
            well_formed(self.deep_view()),
        ensures
            final(steps).model() == old(steps).model(),
            result_view(r) == terminated(
                old(steps).model(),
                graph.deep_view(),
                self.deep_view(),
                override_conditions.deep_view(),
            ),
    {
        let path = match self.truncate_trailing_downcasts(graph) {
            Ok(path) => path,
            Err(error) => {
                return Err(error);
            },
        };
        let tail_weight = match graph.node_weight(path.tail) {
            Ok(weight) => weight,
            Err(error) => {
                return Err(error);
            },
        };
        let tail_type_pos = match &tail_weight.type_ {
            QueryGraphNodeType::FederatedRootType(_) => {
                return Err(
                    FederationError::internal("Unexpectedly found federated root node as tail"),
                );
            },
            QueryGraphNodeType::SchemaType(position) => match position.to_composite() {
                Some(composite) => composite,
                None => {
                    return Ok(path);
                },
            },
        };
        let subgraph = match graph.source(&tail_weight.source) {
            Ok(subgraph) => subgraph,
            Err(error) => {
                return Err(error);
            },
        };
        let typename_field = Field::new_introspection_typename(
            &subgraph.schema,
            &tail_type_pos,
            None,
        );
        let edge: usize = match graph.edge_for_field(path.tail, &typename_field, override_conditions) {
            Some(edge) => edge,
            None => {
                return Err(
                    FederationError::internal("Unexpectedly missing edge for __typename field"),
                );
            },
        };
        steps.add(
            graph,
            &path,
            OpGraphPathTrigger::OpPathElement(OpPathElement::Field(typename_field)),
            Some(edge),
            ConditionResolution::no_conditions(),
            None,
        )
    }
}

} // verus!
