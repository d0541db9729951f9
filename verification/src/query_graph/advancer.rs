//! What advancing paths through the query graph with the elements of an operation needs.

use crate::ast::clone_directives;
use crate::collections::NameSet;
use crate::error::result_view;
use crate::error::ErrorView;
use crate::error::FederationError;
use crate::operation::Field;
use crate::operation::InlineFragment;
use crate::operation::SelectionId;
use crate::operation::SelectionIdCounter;
use crate::query_graph::advance::cast_step;
use crate::query_graph::advance::common_types;
use crate::query_graph::advance::condition_covers;
use crate::query_graph::advance::direct_only;
use crate::query_graph::advance::direct_overrides;
use crate::query_graph::advance::field_on_object;
use crate::query_graph::advance::field_on_union;
use crate::query_graph::advance::fragment_on_object;
use crate::query_graph::advance::fragment_step;
use crate::query_graph::advance::implementations;
use crate::query_graph::advance::indirect_of;
use crate::query_graph::advance::indirect_options;
use crate::query_graph::advance::interface_start;
use crate::query_graph::advance::is_provides_edge;
use crate::query_graph::advance::kept_fragment;
use crate::query_graph::advance::lazy_options;
use crate::query_graph::advance::single;
use crate::query_graph::advance::Ids;
use crate::query_graph::advance::InterfaceStart;
use crate::query_graph::advance::LazyView;
use crate::query_graph::advance::World;
use crate::query_graph::condition_resolver::no_conditions;
use crate::query_graph::condition_resolver::ConditionResolution;
use crate::query_graph::condition_resolver::ExcludedConditions;
use crate::query_graph::condition_resolver::ExcludedDestinations;
use crate::query_graph::edge_for_fake_cast;
use crate::query_graph::edge_for_field;
use crate::query_graph::edge_weight;
use crate::query_graph::elements::OpGraphPathContext;
use crate::query_graph::elements::OpGraphPathTrigger;
use crate::query_graph::elements::OpPathElement;
use crate::query_graph::graph_path::OpGraphPath;
use crate::query_graph::graph_path::PathView;
use crate::query_graph::graph_path::SimultaneousPaths;
use crate::query_graph::is_interface_object;
use crate::query_graph::meet;
use crate::query_graph::options::may_cancel;
use crate::query_graph::path_checks::overriding;
use crate::query_graph::path_checks::OverrideIdCounter;
use crate::query_graph::steps::GraphPathSteps;
use crate::query_graph::texts::missing_field_error;
use crate::query_graph::texts::wrong_parent_error;
use crate::query_graph::OverrideConditions;
use crate::query_graph::QueryGraph;
use crate::query_graph::QueryGraphEdgeTransition;
use crate::query_graph::QueryGraphNode;
use crate::schema::position::get_type;
use crate::schema::position::CompositeTypeDefinitionPosition;
use crate::schema::position::FieldDefinitionPosition;
use crate::schema::position::TypeDefinitionPosition;
use crate::schema::Schema;
use crate::text::same;
use vstd::prelude::*;

verus! {

/// What advancing paths needs besides the paths.
pub struct Advancer<'a, S: GraphPathSteps, C: Fn() -> Result<(), FederationError>> {
    pub graph: &'a QueryGraph,
    pub supergraph_schema: &'a Schema,
    pub override_conditions: &'a OverrideConditions,
    pub disabled_subgraphs: &'a NameSet,
    pub check_cancellation: &'a C,
    pub steps: S,
    pub selection_ids: SelectionIdCounter,
    pub override_ids: OverrideIdCounter,
}

impl<'a, S: GraphPathSteps, C: Fn() -> Result<(), FederationError>> Advancer<'a, S, C> {
    /// What advancing depends on.
    pub open spec fn world(&self) -> World {
        World {
            graph: self.graph.deep_view(),
            supergraph: self.supergraph_schema.deep_view(),
            overrides: self.override_conditions.deep_view(),
            disabled: self.disabled_subgraphs.deep_view(),
            steps: self.steps.model(),
        }
    }

    /// The next numbers.
    pub open spec fn ids(&self) -> Ids {
        Ids { selection: self.selection_ids.next, overriding: self.override_ids.next }
    }

    /// Whether the check for cancellation can be called.
    pub open spec fn ready(&self) -> bool {
        self.check_cancellation.requires(())
    }
}

/// Whether only the numbers differ.
pub open spec fn same_world<S: GraphPathSteps, C: Fn() -> Result<(), FederationError>>(
    a: Advancer<S, C>,
    b: Advancer<S, C>,
) -> bool {
    a.world() == b.world() && a.check_cancellation == b.check_cancellation
}

/// Whether a result is the expected one, with the expected numbers behind it, or the work was
/// cancelled.
pub open spec fn as_expected<T: DeepView, C: Fn() -> Result<(), FederationError>>(
    r: Result<T, FederationError>,
    ids: Ids,
    expected: Result<(T::V, Ids), ErrorView>,
    check_cancellation: C,
) -> bool {
    match r {
        Ok(value) => expected == Ok::<(T::V, Ids), ErrorView>((value.deep_view(), ids)),
        Err(error) => expected == Err::<(T::V, Ids), ErrorView>(error.deep_view()) || may_cancel(
            check_cancellation,
            error,
        ),
    }
}

/// Paths that are taken at the same time, with their context, what is left out, and the indirect
/// paths as far as they are known.
pub struct SimultaneousPathsWithLazyIndirectPaths {
    pub paths: SimultaneousPaths,
    pub context: OpGraphPathContext,
    pub excluded_destinations: ExcludedDestinations,
    pub excluded_conditions: ExcludedConditions,
    pub lazily_computed_indirect_paths: Vec<Option<Vec<OpGraphPath>>>,
}

impl DeepView for SimultaneousPathsWithLazyIndirectPaths {
    type V = LazyView;

    open spec fn deep_view(&self) -> LazyView {
        LazyView {
            paths: self.paths.deep_view(),
            context: self.context.deep_view(),
            excluded_destinations: self.excluded_destinations.deep_view(),
            excluded_conditions: self.excluded_conditions.deep_view(),
        }
    }
}

impl SimultaneousPathsWithLazyIndirectPaths {
    /// Whether the indirect paths that are known are the right ones.
    pub open spec fn well_formed(&self, w: World) -> bool {
        &&& self.lazily_computed_indirect_paths@.len() == self.paths.paths@.len()
        &&& forall|i: int|
            0 <= i < self.paths.paths@.len() ==> ((
            #[trigger] self.lazily_computed_indirect_paths@[i]) matches Some(known) ==> indirect_of(
                w,
                self.deep_view(),
                self.paths.paths@[i].deep_view(),
            ) == Ok::<Seq<PathView>, ErrorView>(known.deep_view()))
    }

    /// Whether no indirect paths are known yet, of any of the paths.
    pub open spec fn nothing_is_known(&self) -> bool {
        &&& self.lazily_computed_indirect_paths@.len() == self.paths.paths@.len()
        &&& forall|i: int|
            0 <= i < self.paths.paths@.len()
                ==> #[trigger] self.lazily_computed_indirect_paths@[i] is None
    }

    /// Paths of which no indirect paths are known yet.
    pub fn new(
        paths: SimultaneousPaths,
        context: OpGraphPathContext,
        excluded_destinations: ExcludedDestinations,
        excluded_conditions: ExcludedConditions,
    ) -> (r: Self)
        ensures
            r.deep_view() == (LazyView {
                paths: paths.deep_view(),
                context: context.deep_view(),
                excluded_destinations: excluded_destinations.deep_view(),
                excluded_conditions: excluded_conditions.deep_view(),
            }),
            r.nothing_is_known(),
            forall|w: World| #[trigger] r.well_formed(w),
    {
        let mut unknown: Vec<Option<Vec<OpGraphPath>>> = Vec::new();
        let mut i: usize = 0;
        while i < paths.paths.len()
            invariant
                i <= paths.paths@.len(),
                unknown@.len() == i,
                forall|j: int| 0 <= j < i ==> #[trigger] unknown@[j] is None,
            decreases paths.paths@.len() - i,
        {
            unknown.push(None);
            i += 1;
        }
        SimultaneousPathsWithLazyIndirectPaths {
            paths,
            context,
            excluded_destinations,
            excluded_conditions,
            lazily_computed_indirect_paths: unknown,
        }
    }

    /// The ways to lengthen one of the paths that collect nothing. They are computed once.
    pub fn indirect_options<S: GraphPathSteps, C: Fn() -> Result<(), FederationError>>(
        &mut self,
        path_index: usize,
        advancer: &mut Advancer<S, C>,
    ) -> (r: Result<Vec<OpGraphPath>, FederationError>)
        requires
            old(self).well_formed(old(advancer).world()),
            path_index < old(self).paths.paths@.len(),
        ensures
            same_world(*final(advancer), *old(advancer)),
            final(advancer).ids() == old(advancer).ids(),
            final(self).deep_view() == old(self).deep_view(),
            final(self).paths == old(self).paths,
            final(self).well_formed(old(advancer).world()),
            result_view(r) == indirect_of(
                old(advancer).world(),
                old(self).deep_view(),
                old(self).paths.paths@[path_index as int].deep_view(),
            ),
            forall|i: int|
                0 <= i < old(self).paths.paths@.len() && i != path_index
                    ==> #[trigger] final(self).lazily_computed_indirect_paths@[i] == old(
                    self,
                ).lazily_computed_indirect_paths@[i],
            r is Ok ==> final(self).lazily_computed_indirect_paths@[path_index as int] is Some,
    {
        let ghost known = self.lazily_computed_indirect_paths@;
        if let Some(indirect_paths) = &self.lazily_computed_indirect_paths[path_index] {
            let r = indirect_paths.clone();
            assert(r.deep_view() =~= indirect_paths.deep_view());
            return Ok(r);
        }
        let graph = advancer.graph;
        let override_conditions = advancer.override_conditions;
        let disabled_subgraphs = advancer.disabled_subgraphs;
        match advancer.steps.advance_with_non_collecting_and_type_preserving_transitions(
            graph,
            &self.paths.paths[path_index],
            &self.context,
            &self.excluded_destinations,
            &self.excluded_conditions,
            override_conditions,
            disabled_subgraphs,
        ) {
            Err(error) => Err(error),
            Ok(new_indirect_paths) => {
                let r = new_indirect_paths.clone();
                assert(r.deep_view() =~= new_indirect_paths.deep_view());
                self.lazily_computed_indirect_paths.set(path_index, Some(new_indirect_paths));
                Ok(r)
            },
        }
    }

    /// Options with the context behind an element.
    pub fn create_lazy_options(
        &self,
        options: Vec<SimultaneousPaths>,
        context: &OpGraphPathContext,
    ) -> (r: Vec<SimultaneousPathsWithLazyIndirectPaths>)
        ensures
            r.deep_view() == lazy_options(
                options.deep_view(),
                context.deep_view(),
                self.deep_view(),
            ),
            forall|i: int| 0 <= i < r@.len() ==> (#[trigger] r@[i]).nothing_is_known(),
            forall|i: int, w: World| 0 <= i < r@.len() ==> #[trigger] r@[i].well_formed(w),
    {
        let mut r: Vec<SimultaneousPathsWithLazyIndirectPaths> = Vec::new();
        let mut i: usize = 0;
        while i < options.len()
            invariant
                i <= options@.len(),
                r@.len() == i,
                forall|j: int|
                    0 <= j < i ==> (#[trigger] r@[j]).deep_view() == (LazyView {
                        paths: options@[j].deep_view(),
                        context: context.deep_view(),
                        ..self.deep_view()
                    }),
                forall|j: int| 0 <= j < i ==> (#[trigger] r@[j]).nothing_is_known(),
                forall|j: int, w: World| 0 <= j < i ==> #[trigger] r@[j].well_formed(w),
            decreases options@.len() - i,
        {
            r.push(
                SimultaneousPathsWithLazyIndirectPaths::new(
                    options[i].clone(),
                    context.clone(),
                    self.excluded_destinations.clone(),
                    self.excluded_conditions.clone(),
                ),
            );
            i += 1;
        }
        assert(r.deep_view() =~= lazy_options(
            options.deep_view(),
            context.deep_view(),
            self.deep_view(),
        ));
        r
    }
}

fn is_part_of_provides(transition: &QueryGraphEdgeTransition) -> (r: bool)
    ensures
        r == is_provides_edge(transition.deep_view()),
{
    match transition {
        QueryGraphEdgeTransition::FieldCollection { is_part_of_provides, .. } => {
            *is_part_of_provides
        },
        _ => false,
    }
}

/// How advancing with a field on an interface starts.
pub struct FieldOnInterface {
    pub direct: Option<OpGraphPath>,
    pub overrides: bool,
    pub done: bool,
    pub names: NameSet,
}

impl DeepView for FieldOnInterface {
    type V = InterfaceStart;

    open spec fn deep_view(&self) -> InterfaceStart {
        InterfaceStart {
            direct: self.direct.deep_view(),
            overrides: self.overrides,
            done: self.done,
            names: self.names.deep_view(),
        }
    }
}

impl OpGraphPath {
    pub(crate) fn field_on_object<S: GraphPathSteps, C: Fn() -> Result<(), FederationError>>(
        &self,
        advancer: &mut Advancer<S, C>,
        tail: &QueryGraphNode,
        object: &str,
        field: &Field,
        context: &OpGraphPathContext,
    ) -> (r: Result<Option<OpGraphPath>, FederationError>)
        ensures
            same_world(*final(advancer), *old(advancer)),
            final(advancer).ids() == old(advancer).ids(),
            result_view(r) == field_on_object(
                old(advancer).world(),
                self.deep_view(),
                tail.deep_view(),
                object@,
                field.deep_view(),
                context.deep_view(),
            ),
    {
        proof {
            reveal(field_on_object);
        }
        let graph = advancer.graph;
        let edge: usize = match graph.edge_for_field(
            self.tail,
            field,
            advancer.override_conditions,
        ) {
            Some(edge) => edge,
            None => {
                return Ok(None);
            },
        };
        let mut own = field.clone();
        match graph.is_interface_object(self.tail) {
            Err(error) => {
                return Err(error);
            },
            Ok(is) => {
                if is && !same(field.field_position.parent.name(), object) {
                    match graph.source(&tail.source) {
                        Err(error) => {
                            return Err(error);
                        },
                        Ok(subgraph) => {
                            if subgraph.schema.get_field(object, field.name()).is_none() {
                                return Err(missing_field_error(field));
                            }
                            own = field.with_updated_position(
                                subgraph.schema.clone(),
                                FieldDefinitionPosition {
                                    parent: CompositeTypeDefinitionPosition::Object(
                                        object.to_owned(),
                                    ),
                                    field_name: field.name().clone(),
                                },
                            );
                        },
                    }
                }
            },
        }
        self.add_field_edge(graph, own, edge, &mut advancer.steps, context)
    }

    pub(crate) fn field_on_union<S: GraphPathSteps, C: Fn() -> Result<(), FederationError>>(
        &self,
        advancer: &mut Advancer<S, C>,
        field: &Field,
        context: &OpGraphPathContext,
    ) -> (r: Result<Option<OpGraphPath>, FederationError>)
        ensures
            same_world(*final(advancer), *old(advancer)),
            final(advancer).ids() == old(advancer).ids(),
            result_view(r) == field_on_union(
                old(advancer).world(),
                self.deep_view(),
                field.deep_view(),
                context.deep_view(),
            ),
    {
        let graph = advancer.graph;
        match graph.edge_for_field(self.tail, field, advancer.override_conditions) {
            Some(edge) => self.add_field_edge(
                graph,
                field.clone(),
                edge,
                &mut advancer.steps,
                context,
            ),
            None => Err(
                FederationError::internal(
                    "Should always have an edge for __typename edge on an union",
                ),
            ),
        }
    }

    fn direct_overrides(
        graph: &QueryGraph,
        tail: &QueryGraphNode,
        interface: &str,
        field: &Field,
        edge: Option<usize>,
        w: Ghost<World>,
    ) -> (r: Result<bool, FederationError>)
        requires
            w@.graph == graph.deep_view(),
        ensures
            result_view(r) == direct_overrides(
                w@,
                tail.deep_view(),
                interface@,
                field.deep_view(),
                edge,
            ),
    {
        let index: usize = match edge {
            None => {
                return Ok(false);
            },
            Some(index) => index,
        };
        if same(field.name(), "__typename") {
            return Ok(true);
        }
        match graph.edge_weight(index) {
            Err(error) => Err(error),
            Ok(weight) => if is_part_of_provides(&weight.transition) {
                Ok(false)
            } else {
                match graph.has_an_implementation_with_provides(
                    &tail.source,
                    interface,
                    field.name(),
                ) {
                    Err(error) => Err(error),
                    Ok(provides) => Ok(!provides),
                }
            },
        }
    }

    fn direct_only(
        &self,
        graph: &QueryGraph,
        tail: &QueryGraphNode,
        interface: &str,
        field: &Field,
        overrides: bool,
        w: Ghost<World>,
    ) -> (r: Result<bool, FederationError>)
        requires
            w@.graph == graph.deep_view(),
        ensures
            result_view(r) == direct_only(
                w@,
                self.deep_view(),
                tail.deep_view(),
                interface@,
                field.deep_view(),
                overrides,
            ),
    {
        if !overrides {
            return Ok(false);
        }
        match field.is_leaf() {
            Err(error) => Err(error),
            Ok(true) => Ok(true),
            Ok(false) => match self.has_an_entity_implementation_with_shareable_field(
                graph,
                &tail.source,
                interface,
                field.name(),
            ) {
                Err(error) => Err(error),
                Ok(more) => Ok(!more),
            },
        }
    }

    fn implementations(&self, interface: &str, field: &Field) -> (r: Result<
        NameSet,
        FederationError,
    >)
        ensures
            result_view(r) == implementations(self.deep_view(), interface@, field.deep_view()),
    {
        if same(field.field_position.parent.name(), interface) {
            return Ok(self.runtime_types_of_tail.clone());
        }
        match &field.field_position.parent {
            CompositeTypeDefinitionPosition::Object(parent) => {
                if self.runtime_types_of_tail.contains(parent) {
                    let mut names = NameSet::new();
                    names.insert(parent.clone());
                    assert(names.deep_view() =~= seq![parent@]);
                    Ok(names)
                } else {
                    Err(wrong_parent_error(field, interface, " is not an implementation type"))
                }
            },
            _ => Err(wrong_parent_error(field, interface, " is not an object type")),
        }
    }

    pub(crate) fn start_field_on_interface<S: GraphPathSteps, C: Fn() -> Result<(), FederationError>>(
        &self,
        advancer: &mut Advancer<S, C>,
        tail: &QueryGraphNode,
        interface: &str,
        field: &Field,
        context: &OpGraphPathContext,
    ) -> (r: Result<FieldOnInterface, FederationError>)
        ensures
            same_world(*final(advancer), *old(advancer)),
            final(advancer).ids() == old(advancer).ids(),
            result_view(r) == interface_start(
                old(advancer).world(),
                self.deep_view(),
                tail.deep_view(),
                interface@,
                field.deep_view(),
                context.deep_view(),
            ),
    {
        proof {
            reveal(interface_start);
        }
        let ghost w = advancer.world();
        let graph = advancer.graph;
        let edge: Option<usize> = if same(field.field_position.parent.name(), interface) {
            graph.edge_for_field(self.tail, field, advancer.override_conditions)
        } else {
            None
        };
        let mut direct: Option<OpGraphPath> = None;
        if let Some(index) = edge {
            match self.add_field_edge(graph, field.clone(), index, &mut advancer.steps, context) {
                Err(error) => {
                    return Err(error);
                },
                Ok(None) => {
                    return Err(
                        FederationError::internal("Interface edge unexpectedly had conditions"),
                    );
                },
                Ok(Some(path)) => {
                    direct = Some(path);
                },
            }
        }
        let overrides = match Self::direct_overrides(graph, tail, interface, field, edge, Ghost(w)) {
            Ok(overrides) => overrides,
            Err(error) => {
                return Err(error);
            },
        };
        match self.direct_only(graph, tail, interface, field, overrides, Ghost(w)) {
            Err(error) => Err(error),
            Ok(true) => Ok(
                FieldOnInterface { direct, overrides, done: true, names: NameSet::new() },
            ),
            Ok(false) => match self.implementations(interface, field) {
                Err(error) => Err(error),
                Ok(names) => Ok(FieldOnInterface { direct, overrides, done: false, names }),
            },
        }
    }

    fn add_fragment<S: GraphPathSteps, C: Fn() -> Result<(), FederationError>>(
        &self,
        advancer: &mut Advancer<S, C>,
        fragment: InlineFragment,
        edge: Option<usize>,
        condition_resolution: ConditionResolution,
    ) -> (r: Result<OpGraphPath, FederationError>)
        ensures
            same_world(*final(advancer), *old(advancer)),
            final(advancer).ids() == old(advancer).ids(),
            result_view(r) == fragment_step(
                old(advancer).world(),
                self.deep_view(),
                fragment.deep_view(),
                edge,
                condition_resolution.deep_view(),
            ),
    {
        let graph = advancer.graph;
        match fragment.defer_directive_arguments() {
            Err(error) => Err(error),
            Ok(defer) => advancer.steps.add(
                graph,
                self,
                OpGraphPathTrigger::OpPathElement(OpPathElement::InlineFragment(fragment)),
                edge,
                condition_resolution,
                defer,
            ),
        }
    }

    pub(crate) fn keep_fragment<S: GraphPathSteps, C: Fn() -> Result<(), FederationError>>(
        &self,
        advancer: &mut Advancer<S, C>,
        fragment: &InlineFragment,
    ) -> (r: Result<OpGraphPath, FederationError>)
        ensures
            same_world(*final(advancer), *old(advancer)),
            final(advancer).ids() == old(advancer).ids(),
            result_view(r) == kept_fragment(
                old(advancer).world(),
                self.deep_view(),
                fragment.deep_view(),
            ),
    {
        if fragment.directives.len() == 0 {
            Ok(self.clone())
        } else {
            self.add_fragment(
                advancer,
                fragment.clone(),
                None,
                ConditionResolution::no_conditions(),
            )
        }
    }

    pub(crate) fn cast<S: GraphPathSteps, C: Fn() -> Result<(), FederationError>>(
        &self,
        advancer: &mut Advancer<S, C>,
        fragment: &InlineFragment,
        edge: usize,
    ) -> (r: Result<OpGraphPath, FederationError>)
        ensures
            same_world(*final(advancer), *old(advancer)),
            final(advancer).ids() == old(advancer).ids(),
            result_view(r) == cast_step(
                old(advancer).world(),
                self.deep_view(),
                fragment.deep_view(),
                edge,
            ),
    {
        match advancer.graph.edge_weight(edge) {
            Err(error) => Err(error),
            Ok(weight) => if weight.conditions.is_some() {
                Err(
                    FederationError::internal(
                        "Unexpectedly found condition on inline fragment collecting edge",
                    ),
                )
            } else {
                self.add_fragment(
                    advancer,
                    fragment.clone(),
                    Some(edge),
                    ConditionResolution::no_conditions(),
                )
            },
        }
    }

    pub(crate) fn common_types<S: GraphPathSteps, C: Fn() -> Result<(), FederationError>>(
        &self,
        advancer: &Advancer<S, C>,
        name: &str,
    ) -> (r: Result<NameSet, FederationError>)
        ensures
            result_view(r) == common_types(advancer.world(), self.deep_view(), name@),
    {
        match advancer.supergraph_schema.get_type(name) {
            Err(error) => Err(error),
            Ok(position) => match position.to_composite() {
                None => Err(FederationError::internal("Type condition is not composite")),
                Some(composite) => {
                    let types = advancer.supergraph_schema.possible_runtime_types(&composite);
                    Ok(meet(&self.runtime_types_of_tail, &types))
                },
            },
        }
    }

    fn condition_covers<S: GraphPathSteps, C: Fn() -> Result<(), FederationError>>(
        advancer: &Advancer<S, C>,
        position: &TypeDefinitionPosition,
        object: &str,
    ) -> (r: bool)
        ensures
            r == condition_covers(advancer.world(), position.deep_view(), object@),
    {
        let composite = match position {
            TypeDefinitionPosition::Interface(name) => CompositeTypeDefinitionPosition::Interface(
                name.clone(),
            ),
            TypeDefinitionPosition::Union(name) => CompositeTypeDefinitionPosition::Union(
                name.clone(),
            ),
            _ => {
                return false;
            },
        };
        advancer.supergraph_schema.possible_runtime_types(&composite).contains(object)
    }

    pub(crate) fn fragment_on_object<S: GraphPathSteps, C: Fn() -> Result<(), FederationError>>(
        &self,
        advancer: &mut Advancer<S, C>,
        tail: &QueryGraphNode,
        object: &str,
        fragment: &InlineFragment,
        condition: &str,
        context: &OpGraphPathContext,
    ) -> (r: Result<Option<Vec<SimultaneousPaths>>, FederationError>)
        ensures
            same_world(*final(advancer), *old(advancer)),
            as_expected(
                r,
                final(advancer).ids(),
                fragment_on_object(
                    old(advancer).world(),
                    self.deep_view(),
                    tail.deep_view(),
                    object@,
                    fragment.deep_view(),
                    condition@,
                    context.deep_view(),
                    old(advancer).ids(),
                ),
                *old(advancer).check_cancellation,
            ),
    {
        proof {
            reveal(fragment_on_object);
        }
        let graph = advancer.graph;
        let position = match advancer.supergraph_schema.get_type(condition) {
            Ok(position) => position,
            Err(error) => {
                return Err(error);
            },
        };
        if Self::condition_covers(advancer, &position, object) {
            if fragment.directives.len() == 0 {
                return Ok(Some(single_option(self.clone())));
            }
            let subgraph = match graph.source(&tail.source) {
                Ok(subgraph) => subgraph,
                Err(error) => {
                    return Err(error);
                },
            };
            let made_up = InlineFragment {
                schema: subgraph.schema.clone(),
                parent_type_position: CompositeTypeDefinitionPosition::Object(object.to_owned()),
                type_condition_position: None,
                directives: clone_directives(&fragment.directives),
                selection_id: SelectionId::new(&mut advancer.selection_ids),
            };
            return match self.add_fragment(
                advancer,
                made_up,
                None,
                ConditionResolution::no_conditions(),
            ) {
                Ok(path) => Ok(Some(single_option(path))),
                Err(error) => Err(error),
            };
        }
        let none: Vec<SimultaneousPaths> = Vec::new();
        assert(none.deep_view() =~= Seq::empty());
        match graph.is_interface_object(self.tail) {
            Err(error) => {
                return Err(error);
            },
            Ok(false) => {
                return Ok(Some(none));
            },
            Ok(true) => {},
        }
        let edge: usize = match graph.edge_for_fake_cast(self.tail, position.name()) {
            Some(edge) => edge,
            None => {
                return Ok(Some(none));
            },
        };
        let excluded_destinations = ExcludedDestinations::new();
        let excluded_conditions = ExcludedConditions::new();
        let condition_resolution = match advancer.steps.can_satisfy_conditions(
            graph,
            self,
            edge,
            context,
            &excluded_destinations,
            &excluded_conditions,
        ) {
            Ok(resolution) => resolution,
            Err(error) => {
                return Err(error);
            },
        };
        if let ConditionResolution::Unsatisfied { .. } = &condition_resolution {
            return Ok(None);
        }
        match self.add_fragment(advancer, fragment.clone(), Some(edge), condition_resolution) {
            Ok(path) => Ok(Some(single_option(path))),
            Err(error) => Err(error),
        }
    }
}

pub(crate) fn single_option(path: OpGraphPath) -> (r: Vec<SimultaneousPaths>)
    ensures
        r.deep_view() == single(path.deep_view()),
{
    let r: Vec<SimultaneousPaths> = vec![SimultaneousPaths::from_path(path)];
    assert(r.deep_view() =~= single(path.deep_view()));
    r
}

} // verus!
