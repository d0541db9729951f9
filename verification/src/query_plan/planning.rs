//! The steps that plans are made of, and what they are expected to do.

use crate::ast::Name;
use crate::error::result_view;
use crate::error::ErrorKind;
use crate::error::ErrorView;
use crate::error::FederationError;
use crate::operation::selection::SelectionSet;
use crate::operation::selection::SelectionSetView;
use crate::query_graph::GraphView;
use crate::query_graph::QueryGraph;
use crate::query_graph::SchemaRootDefinitionKind;
use crate::query_plan::dependency_graph::BestPlanView;
use crate::query_plan::dependency_graph::BestQueryPlanInfo;
use crate::query_plan::dependency_graph::DependencyGraphView;
use crate::query_plan::dependency_graph::FetchDependencyGraph;
use crate::query_plan::dependency_graph::OpPathTree;
use crate::query_plan::dependency_graph::ParametersView;
use crate::query_plan::dependency_graph::PlanningProgress;
use crate::query_plan::dependency_graph::PlanProcessor;
use crate::query_plan::dependency_graph::ProcessorView;
use crate::query_plan::dependency_graph::QueryPlanningParameters;
use crate::query_plan::dependency_graph::TreeView;
use crate::query_plan::DeferredNode;
use crate::query_plan::DeferredView;
use crate::query_plan::PlanNode;
use crate::query_plan::PlanView;
use crate::schema::position::CompositeTypeDefinitionPosition;
use crate::schema::position::CompositeView;
use crate::schema::Schema;
use crate::schema::SchemaView;
use crate::text::Text;
use std::ops::ControlFlow;
use std::sync::Arc;
use vstd::prelude::*;

verus! {

/// The error of a plan that was cancelled.
pub open spec fn cancelled() -> ErrorView {
    ErrorView { kind: ErrorKind::PlanningCancelled, message: "Query planning was cancelled"@ }
}

/// Whether a check can be made.
pub open spec fn can_check<C: Fn() -> ControlFlow<()>>(check: Option<C>) -> bool {
    check matches Some(f) ==> f.requires(())
}

/// Whether a check may stop planning.
pub open spec fn may_stop<C: Fn() -> ControlFlow<()>>(check: Option<C>) -> bool {
    check matches Some(f) && call_ensures(f, (), ControlFlow::<()>::Break(()))
}

/// Whether a check stops planning whenever it is made.
pub open spec fn must_stop<C: Fn() -> ControlFlow<()>>(check: Option<C>) -> bool {
    check matches Some(f) && !call_ensures(f, (), ControlFlow::<()>::Continue(()))
}

/// Whether a result is the expected one, or planning was cancelled.
pub open spec fn as_planned<T, C: Fn() -> ControlFlow<()>>(
    check: Option<C>,
    result: Result<T, ErrorView>,
    expected: Result<T, ErrorView>,
) -> bool {
    result == expected || (may_stop(check) && result == Err::<T, ErrorView>(cancelled()))
}

/// Stops planning if the check says so.
pub fn check_cancellation_with<C: Fn() -> ControlFlow<()>>(check: &Option<C>) -> (r: Result<
    (),
    FederationError,
>)
    requires
        can_check(*check),
    ensures
        r matches Err(error) ==> may_stop(*check) && error.deep_view() == cancelled(),
        *check is None ==> r is Ok,
        check matches Some(f) ==> match r {
            Ok(_) => call_ensures(f, (), ControlFlow::<()>::Continue(())),
            Err(_) => call_ensures(f, (), ControlFlow::<()>::Break(())),
        },
{
    match check {
        Some(f) => match f() {
            ControlFlow::Continue(unit) => {
                assert(unit == ());
                Ok(())
            },
            ControlFlow::Break(unit) => {
                assert(unit == ());
                Err(
                    FederationError {
                        kind: ErrorKind::PlanningCancelled,
                        message: "Query planning was cancelled".to_owned(),
                    },
                )
            },
        },
        None => Ok(()),
    }
}

/// What the steps of planning are, as functions.
pub struct PlanningModel {
    /// Leaves out the fragments of an operation that are not needed.
    pub flatten: spec_fn(SelectionSetView) -> Result<SelectionSetView, ErrorView>,
    /// Looks for the best plan for some selections.
    pub find_best_plan: spec_fn(ParametersView, SelectionSetView, bool, PlanningProgress) -> Result<
        (Option<BestPlanView>, PlanningProgress),
        ErrorView,
    >,
    /// The type of the supergraph that a type of a subgraph stands for.
    pub convert_type: spec_fn(CompositeView, GraphView, Text, SchemaView) -> Result<
        CompositeView,
        ErrorView,
    >,
    /// Adds what the paths of a tree fetch, from a node on.
    pub compute_nodes: spec_fn(DependencyGraphView, TreeView, usize, bool, CompositeView) -> Result<
        DependencyGraphView,
        ErrorView,
    >,
    /// Makes a plan from a graph: what is done first, and what is deferred.
    pub process: spec_fn(
        DependencyGraphView,
        ProcessorView,
        SchemaRootDefinitionKind,
    ) -> Result<
        (Option<PlanView>, Seq<DeferredView>, DependencyGraphView, ProcessorView),
        ErrorView,
    >,
    /// Does one after the other.
    pub reduce_sequence: spec_fn(ProcessorView, Option<PlanView>, Option<PlanView>) -> Option<PlanView>,
    /// Does one first, and defers the others.
    pub reduce_defer: spec_fn(
        ProcessorView,
        Option<PlanView>,
        SelectionSetView,
        Seq<DeferredView>,
    ) -> Result<Option<PlanView>, ErrorView>,
    /// A graph as text.
    pub describe: spec_fn(DependencyGraphView) -> Text,
}

/// The content of what looking for a plan gives.
pub open spec fn found_view(
    r: Result<Option<BestQueryPlanInfo>, FederationError>,
    progress: PlanningProgress,
) -> Result<(Option<BestPlanView>, PlanningProgress), ErrorView> {
    match r {
        Ok(plan) => Ok((plan.deep_view(), progress)),
        Err(error) => Err(error.deep_view()),
    }
}

/// The content of what making a plan from a graph gives.
pub open spec fn processed_view(
    r: Result<(Option<PlanNode>, Vec<DeferredNode>), FederationError>,
    graph: FetchDependencyGraph,
    processor: PlanProcessor,
) -> Result<(Option<PlanView>, Seq<DeferredView>, DependencyGraphView, ProcessorView), ErrorView> {
    match r {
        Ok((main, deferred)) => Ok(
            (main.deep_view(), deferred.deep_view(), graph.deep_view(), processor.deep_view()),
        ),
        Err(error) => Err(error.deep_view()),
    }
}

/// The content of a change of a graph.
pub open spec fn graph_result(r: Result<(), FederationError>, graph: FetchDependencyGraph) -> Result<
    DependencyGraphView,
    ErrorView,
> {
    match r {
        Ok(_) => Ok(graph.deep_view()),
        Err(error) => Err(error.deep_view()),
    }
}

/// The steps that plans are made of. What a step gives depends on its arguments alone, unless
/// planning is cancelled.
pub trait PlanningSteps {
    /// What the steps are.
    spec fn model(&self) -> PlanningModel;

    /// Leaves out the fragments of an operation that are not needed.
    fn flatten(&self, selection_set: SelectionSet) -> (r: Result<SelectionSet, FederationError>)
        ensures
            result_view(r) == (self.model().flatten)(selection_set.deep_view()),
    ;

    /// Looks for the best plan for some selections.
    fn find_best_plan<C: Fn() -> ControlFlow<()>>(
        &self,
        parameters: &QueryPlanningParameters<'_, C>,
        selection: SelectionSet,
        has_defers: bool,
        progress: &mut PlanningProgress,
    ) -> (r: Result<Option<BestQueryPlanInfo>, FederationError>)
        requires
            can_check(*parameters.check_for_cooperative_cancellation),
        ensures
            as_planned(
                *parameters.check_for_cooperative_cancellation,
                found_view(r, *final(progress)),
                (self.model().find_best_plan)(
                    parameters.content(),
                    selection.deep_view(),
                    has_defers,
                    *old(progress),
                ),
            ),
    ;

    /// The type of the supergraph that a type of a subgraph stands for.
    fn convert_type_from_subgraph(
        &self,
        position: CompositeTypeDefinitionPosition,
        graph: &QueryGraph,
        subgraph: &Name,
        supergraph_schema: &Arc<Schema>,
    ) -> (r: Result<CompositeTypeDefinitionPosition, FederationError>)
        ensures
            result_view(r) == (self.model().convert_type)(
                position.deep_view(),
                graph.deep_view(),
                subgraph@,
                supergraph_schema.deep_view(),
            ),
    ;

    /// Adds what the paths of a tree fetch, from a node on.
    fn compute_nodes_for_tree<C: Fn() -> ControlFlow<()>>(
        &self,
        graph: &mut FetchDependencyGraph,
        tree: &OpPathTree,
        node: usize,
        type_conditioned_fetching: bool,
        root_type: CompositeTypeDefinitionPosition,
        check: &Option<C>,
    ) -> (r: Result<(), FederationError>)
        requires
            can_check(*check),
        ensures
            as_planned(
                *check,
                graph_result(r, *final(graph)),
                (self.model().compute_nodes)(
                    old(graph).deep_view(),
                    tree.deep_view(),
                    node,
                    type_conditioned_fetching,
                    root_type.deep_view(),
                ),
            ),
    ;

    /// Makes a plan from a graph: what is done first, and what is deferred.
    fn process(
        &self,
        graph: &mut FetchDependencyGraph,
        processor: &mut PlanProcessor,
        root_kind: SchemaRootDefinitionKind,
    ) -> (r: Result<(Option<PlanNode>, Vec<DeferredNode>), FederationError>)
        ensures
            processed_view(r, *final(graph), *final(processor)) == (self.model().process)(
                old(graph).deep_view(),
                old(processor).deep_view(),
                root_kind,
            ),
    ;

    /// Does one after the other.
    fn reduce_sequence(
        &self,
        processor: &PlanProcessor,
        first: Option<PlanNode>,
        second: Option<PlanNode>,
    ) -> (r: Option<PlanNode>)
        ensures
            r.deep_view() == (self.model().reduce_sequence)(
                processor.deep_view(),
                first.deep_view(),
                second.deep_view(),
            ),
    ;

    /// Does one first, and defers the others.
    fn reduce_defer(
        &self,
        processor: &PlanProcessor,
        main: Option<PlanNode>,
        primary_selection: &SelectionSet,
        deferred: Vec<DeferredNode>,
    ) -> (r: Result<Option<PlanNode>, FederationError>)
        ensures
            result_view(r) == (self.model().reduce_defer)(
                processor.deep_view(),
                main.deep_view(),
                primary_selection.deep_view(),
                deferred.deep_view(),
            ),
    ;

    /// A graph as text.
    fn describe(&self, graph: &FetchDependencyGraph) -> (r: String)
        ensures
            r@ == (self.model().describe)(graph.deep_view()),
    ;
}

} // verus!
