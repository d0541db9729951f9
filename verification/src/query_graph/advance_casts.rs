//! Advancing a path through the objects of an abstract type.

use crate::ast::clone_directives;
use crate::ast::Directive;
use crate::error::ErrorKind;
use crate::error::ErrorView;
use crate::error::FederationError;
use crate::operation::condition_name;
use crate::operation::InlineFragment;
use crate::operation::InlineFragmentView;
use crate::operation::SelectionId;
use crate::query_graph::advance::casts_to_objects;
use crate::query_graph::advance::cast_to_object;
use crate::query_graph::advance::common_types;
use crate::query_graph::advance::fragment_on_abstract;
use crate::query_graph::advance::lazy_path;
use crate::query_graph::advance::paths_of;
use crate::query_graph::advance::Ids;
use crate::query_graph::advance::World;
use crate::query_graph::advancer::as_expected;
use crate::query_graph::advancer::same_world;
use crate::query_graph::advancer::single_option;
use crate::query_graph::advancer::Advancer;
use crate::query_graph::advancer::SimultaneousPathsWithLazyIndirectPaths;
use crate::query_graph::condition_resolver::ExcludedConditions;
use crate::query_graph::condition_resolver::ExcludedDestinations;
use crate::query_graph::edge_for_cast;
use crate::query_graph::elements::ContextView;
use crate::query_graph::elements::OpGraphPathContext;
use crate::query_graph::elements::OpPathElement;
use crate::query_graph::graph_path::OpGraphPath;
use crate::query_graph::graph_path::PathView;
use crate::query_graph::graph_path::SimultaneousPaths;
use crate::query_graph::graph_path::SimultaneousView;
use crate::query_graph::options::may_cancel;
use crate::query_graph::steps::GraphPathSteps;
use crate::query_graph::subsumption::take_paths;
use crate::query_graph::NodeView;
use crate::query_graph::QueryGraphNode;
use crate::schema::position::CompositeTypeDefinitionPosition;
use crate::schema::position::CompositeView;
use crate::text::Text;
use vstd::prelude::*;

verus! {

proof fn lemma_casts_stay(
    w: World,
    path: PathView,
    tail: NodeView,
    position: CompositeView,
    fragment: InlineFragmentView,
    context: ContextView,
    names: Seq<Text>,
    ids: Ids,
    budget: nat,
    n: nat,
    m: nat,
)
    requires
        n <= m,
        casts_to_objects(w, path, tail, position, fragment, context, names, ids, budget, n) matches Ok(
            found,
        ) ==> found.0 is None,
    ensures
        casts_to_objects(w, path, tail, position, fragment, context, names, ids, budget, m)
            == casts_to_objects(
            w,
            path,
            tail,
            position,
            fragment,
            context,
            names,
            ids,
            budget,
            n,
        ),
    decreases m,
{
    reveal(casts_to_objects);
    if n < m {
        lemma_casts_stay(
            w,
            path,
            tail,
            position,
            fragment,
            context,
            names,
            ids,
            budget,
            n,
            (m - 1) as nat,
        );
    }
}

impl OpGraphPath {
    /// The options for a fragment on an abstract type.
    pub(crate) fn fragment_on_abstract<S: GraphPathSteps, C: Fn() -> Result<(), FederationError>>(
        &self,
        operation_fragment: &InlineFragment,
        tail: &QueryGraphNode,
        abstract_position: &CompositeTypeDefinitionPosition,
        wanted: &str,
        context: &OpGraphPathContext,
        advancer: &mut Advancer<S, C>,
        budget: usize,
    ) -> (r: Result<(Option<Vec<SimultaneousPaths>>, Option<bool>), FederationError>)
        requires
            old(advancer).ready(),
        ensures
            same_world(*final(advancer), *old(advancer)),
            as_expected(
                r,
                final(advancer).ids(),
                fragment_on_abstract(
                    old(advancer).world(),
                    self.deep_view(),
                    tail.deep_view(),
                    abstract_position.deep_view(),
                    operation_fragment.deep_view(),
                    wanted@,
                    context.deep_view(),
                    old(advancer).ids(),
                    budget as nat,
                ),
                *old(advancer).check_cancellation,
            ),
        decreases budget, 2int,
    {
        proof {
            reveal(fragment_on_abstract);
            reveal(casts_to_objects);
        }
        let ghost w = advancer.world();
        let ghost path = self.deep_view();
        let ghost t = tail.deep_view();
        let ghost position = abstract_position.deep_view();
        let ghost fragment = operation_fragment.deep_view();
        let ghost c = context.deep_view();
        let ghost ids = advancer.ids();
        let check_cancellation = advancer.check_cancellation;
        if let Some(edge) = advancer.graph.edge_for_inline_fragment(self.tail, operation_fragment) {
            return match self.cast(advancer, operation_fragment, edge) {
                Ok(path) => Ok((Some(single_option(path)), None)),
                Err(error) => Err(error),
            };
        }
        let intersection = match self.common_types(advancer, wanted) {
            Ok(intersection) => intersection,
            Err(error) => {
                return Err(error);
            },
        };
        let ghost names = intersection.deep_view();
        let mut options_for_each_implementation: Vec<Vec<SimultaneousPaths>> = Vec::new();
        assert(options_for_each_implementation.deep_view() =~= Seq::empty());
        let mut i: usize = 0;
        while i < intersection.len()
            invariant
                i <= names.len(),
                names == intersection.deep_view(),
                advancer.ready(),
                same_world(*advancer, *old(advancer)),
                check_cancellation == old(advancer).check_cancellation,
                w == old(advancer).world(),
                path == self.deep_view(),
                t == tail.deep_view(),
                position == abstract_position.deep_view(),
                fragment == operation_fragment.deep_view(),
                c == context.deep_view(),
                ids == old(advancer).ids(),
                edge_for_cast(w.graph, path.tail, condition_name(fragment)) is None,
                common_types(w, path, wanted@) == Ok::<Seq<Text>, ErrorView>(names),
                casts_to_objects(
                    w,
                    path,
                    t,
                    position,
                    fragment,
                    c,
                    names,
                    ids,
                    budget as nat,
                    i as nat,
                ) == Ok::<(Option<Seq<Seq<SimultaneousView>>>, Ids), ErrorView>(
                    (Some(options_for_each_implementation.deep_view()), advancer.ids()),
                ),
            decreases names.len() - i,
        {
            proof {
                reveal(fragment_on_abstract);
                reveal(casts_to_objects);
                reveal(cast_to_object);
            }
            let ghost before = options_for_each_implementation.deep_view();
            let found = match self.cast_to_object(
                tail,
                abstract_position,
                &operation_fragment.directives,
                intersection.at(i),
                context,
                advancer,
                budget,
            ) {
                Ok(found) => found,
                Err(error) => {
                    proof {
                        if !may_cancel(*old(advancer).check_cancellation, error) {
                            lemma_casts_stay(
                                w,
                                path,
                                t,
                                position,
                                fragment,
                                c,
                                names,
                                ids,
                                budget as nat,
                                i as nat + 1,
                                names.len(),
                            );
                        }
                    }
                    return Err(error);
                },
            };
            match found {
                None => {
                    proof {
                        lemma_casts_stay(
                            w,
                            path,
                            t,
                            position,
                            fragment,
                            c,
                            names,
                            ids,
                            budget as nat,
                            i as nat + 1,
                            names.len(),
                        );
                    }
                    return Ok((None, None));
                },
                Some(casts) => {
                    let ghost new = paths_of(casts.deep_view());
                    if casts.len() > 0 {
                        options_for_each_implementation.push(take_paths(casts));
                        assert(options_for_each_implementation.deep_view() =~= before.push(new));
                    }
                },
            }
            i += 1;
        }
        match SimultaneousPaths::flat_cartesian_product(
            &options_for_each_implementation,
            check_cancellation,
        ) {
            Ok(all_options) => Ok((Some(all_options), None)),
            Err(error) => Err(error),
        }
    }
}

impl OpGraphPath {
    /// The options for a made-up cast to an object type.
    pub(crate) fn cast_to_object<S: GraphPathSteps, C: Fn() -> Result<(), FederationError>>(
        &self,
        tail: &QueryGraphNode,
        parent: &CompositeTypeDefinitionPosition,
        directives: &Vec<Directive>,
        name: &str,
        context: &OpGraphPathContext,
        advancer: &mut Advancer<S, C>,
        budget: usize,
    ) -> (r: Result<Option<Vec<SimultaneousPathsWithLazyIndirectPaths>>, FederationError>)
        requires
            old(advancer).ready(),
        ensures
            same_world(*final(advancer), *old(advancer)),
            as_expected(
                r,
                final(advancer).ids(),
                cast_to_object(
                    old(advancer).world(),
                    self.deep_view(),
                    tail.deep_view(),
                    parent.deep_view(),
                    directives.deep_view(),
                    context.deep_view(),
                    name@,
                    old(advancer).ids(),
                    budget as nat,
                ),
                *old(advancer).check_cancellation,
            ),
            r matches Ok(Some(options)) ==> forall|i: int|
                0 <= i < options@.len() ==> (#[trigger] options@[i]).well_formed(
                    old(advancer).world(),
                ),
        decreases budget, 0int,
    {
        proof {
            reveal(cast_to_object);
        }
        let subgraph = match advancer.graph.source(&tail.source) {
            Ok(subgraph) => subgraph,
            Err(error) => {
                return Err(error);
            },
        };
        if budget == 0 {
            return Err(
                FederationError {
                    kind: ErrorKind::NestingTooDeep,
                    message: "Type conditions nest deeper than allowed".to_owned(),
                },
            );
        }
        let fragment = InlineFragment {
            schema: subgraph.schema.clone(),
            parent_type_position: parent.clone(),
            type_condition_position: Some(CompositeTypeDefinitionPosition::Object(name.to_owned())),
            directives: clone_directives(directives),
            selection_id: SelectionId::new(&mut advancer.selection_ids),
        };
        let mut lazy = SimultaneousPathsWithLazyIndirectPaths::new(
            SimultaneousPaths::from_path(self.clone()),
            context.clone(),
            ExcludedDestinations::new(),
            ExcludedConditions::new(),
        );
        assert(lazy.deep_view() =~= lazy_path(self.deep_view(), context.deep_view()));
        let element = OpPathElement::InlineFragment(fragment);
        lazy.advance_with_operation_element(&element, advancer, budget - 1)
    }
}

} // verus!
