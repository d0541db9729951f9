//! Advancing paths that are taken at the same time.

use crate::error::result_view;
use crate::error::ErrorView;
use crate::error::FederationError;
use crate::operation::Field;
use crate::operation::InlineFragment;
use crate::query_graph::advance::advanced;
use crate::query_graph::advance::advanced_path;
use crate::query_graph::advance::indirect_for;
use crate::query_graph::advance::indirect_of;
use crate::query_graph::advance::indirect_options;
use crate::query_graph::advance::lazy_options;
use crate::query_graph::advance::options_of_path;
use crate::query_graph::advance::options_of_paths;
use crate::query_graph::advance::with_indirect;
use crate::query_graph::advance::Ids;
use crate::query_graph::advance::LazyView;
use crate::query_graph::advance::World;
use crate::query_graph::advancer::as_expected;
use crate::query_graph::advancer::same_world;
use crate::query_graph::advancer::Advancer;
use crate::query_graph::advancer::SimultaneousPathsWithLazyIndirectPaths;
use crate::query_graph::condition_resolver::ExcludedConditions;
use crate::query_graph::condition_resolver::ExcludedDestinations;
use crate::query_graph::elements::context_with;
use crate::query_graph::elements::ContextView;
use crate::query_graph::elements::ElementView;
use crate::query_graph::elements::OpGraphPathContext;
use crate::query_graph::elements::OpPathElement;
use crate::query_graph::graph_path::OpGraphPath;
use crate::query_graph::graph_path::PathView;
use crate::query_graph::graph_path::SimultaneousPaths;
use crate::query_graph::graph_path::SimultaneousView;
use crate::query_graph::options::may_cancel;
use crate::query_graph::path_checks::filter_non_collecting_paths_for_field;
use crate::query_graph::steps::GraphPathSteps;
use crate::query_graph::subsumption::add_new_options;
use crate::query_graph::QueryGraphNodeType;
use vstd::prelude::*;

verus! {

proof fn lemma_options_of_paths_stay(
    w: World,
    lazy: LazyView,
    element: ElementView,
    context: ContextView,
    ids: Ids,
    budget: nat,
    n: nat,
    m: nat,
)
    requires
        n <= m,
        options_of_paths(w, lazy, element, context, ids, budget, n) matches Ok(found)
            ==> found.0 is None,
    ensures
        options_of_paths(w, lazy, element, context, ids, budget, m) == options_of_paths(
            w,
            lazy,
            element,
            context,
            ids,
            budget,
            n,
        ),
    decreases m,
{
    reveal(options_of_paths);
    if n < m {
        lemma_options_of_paths_stay(w, lazy, element, context, ids, budget, n, (m - 1) as nat);
    }
}

proof fn lemma_indirect_error(
    w: World,
    paths: Seq<PathView>,
    element: ElementView,
    context: ContextView,
    ids: Ids,
    budget: nat,
    direct: Seq<SimultaneousView>,
    n: nat,
    m: nat,
)
    requires
        n <= m,
        indirect_options(w, paths, element, context, ids, budget, direct, n) is Err,
    ensures
        indirect_options(w, paths, element, context, ids, budget, direct, m) == indirect_options(
            w,
            paths,
            element,
            context,
            ids,
            budget,
            direct,
            n,
        ),
    decreases m,
{
    reveal(indirect_options);
    if n < m {
        lemma_indirect_error(w, paths, element, context, ids, budget, direct, n, (m - 1) as nat);
    }
}

impl SimultaneousPathsWithLazyIndirectPaths {
    /// Advances all paths with an element of an operation. None means that there is no way for one
    /// of them. No option at all means that the element never has a result, so that it can be left
    /// out.
    ///
    /// The budget limits how deep abstract types are taken apart within each other. A budget of one is
    /// enough where the graph has the casts for that and the fields are collected directly behind
    /// them. Where the graph lacks a cast, no budget is.
    pub fn advance_with_operation_element<S: GraphPathSteps, C: Fn() -> Result<(), FederationError>>(
        &mut self,
        operation_element: &OpPathElement,
        advancer: &mut Advancer<S, C>,
        budget: usize,
    ) -> (r: Result<Option<Vec<SimultaneousPathsWithLazyIndirectPaths>>, FederationError>)
        requires
            old(advancer).ready(),
            old(self).well_formed(old(advancer).world()),
        ensures
            same_world(*final(advancer), *old(advancer)),
            final(self).deep_view() == old(self).deep_view(),
            final(self).well_formed(old(advancer).world()),
            as_expected(
                r,
                final(advancer).ids(),
                advanced(
                    old(advancer).world(),
                    old(self).deep_view(),
                    operation_element.deep_view(),
                    old(advancer).ids(),
                    budget as nat,
                ),
                *old(advancer).check_cancellation,
            ),
            r matches Ok(Some(options)) ==> forall|i: int|
                0 <= i < options@.len() ==> (#[trigger] options@[i]).nothing_is_known()
                    && options@[i].well_formed(old(advancer).world()),
        decreases budget, 8int,
    {
        proof {
            reveal(advanced);
            reveal(options_of_paths);
        }
        let ghost w = advancer.world();
        let ghost lazy = self.deep_view();
        let ghost element = operation_element.deep_view();
        let ghost ids = advancer.ids();
        let check_cancellation = advancer.check_cancellation;
        let updated_context = match self.context.with_context_of(operation_element) {
            Ok(context) => context,
            Err(error) => {
                return Err(error);
            },
        };
        let ghost context = updated_context.deep_view();
        let mut options_for_each_path: Vec<Vec<SimultaneousPaths>> = Vec::new();
        assert(options_for_each_path.deep_view() =~= Seq::empty());
        let mut path_index: usize = 0;
        while path_index < self.paths.paths.len()
            invariant
                path_index <= self.paths.paths@.len(),
                advancer.ready(),
                same_world(*advancer, *old(advancer)),
                check_cancellation == old(advancer).check_cancellation,
                w == old(advancer).world(),
                lazy == old(self).deep_view(),
                element == operation_element.deep_view(),
                ids == old(advancer).ids(),
                self.deep_view() == lazy,
                self.well_formed(w),
                context == updated_context.deep_view(),
                context_with(lazy.context, element) == Ok::<ContextView, ErrorView>(context),
                options_of_paths(w, lazy, element, context, ids, budget as nat, path_index as nat)
                    == Ok::<(Option<Seq<Seq<SimultaneousView>>>, Ids), ErrorView>(
                    (Some(options_for_each_path.deep_view()), advancer.ids()),
                ),
            decreases self.paths.paths@.len() - path_index,
        {
            proof {
                reveal(advanced);
                reveal(options_of_paths);
                reveal(options_of_path);
            }
            match check_cancellation() {
                Ok(_) => {},
                Err(error) => {
                    return Err(error);
                },
            }
            let ghost before = options_for_each_path.deep_view();
            assert(lazy.paths.paths[path_index as int]
                == self.paths.paths@[path_index as int].deep_view());
            let found = match self.options_of_path(
                path_index,
                operation_element,
                &updated_context,
                advancer,
                budget,
            ) {
                Ok(found) => found,
                Err(error) => {
                    proof {
                        if !may_cancel(*old(advancer).check_cancellation, error) {
                            lemma_options_of_paths_stay(
                                w,
                                lazy,
                                element,
                                context,
                                ids,
                                budget as nat,
                                path_index as nat + 1,
                                lazy.paths.paths.len(),
                            );
                        }
                    }
                    return Err(error);
                },
            };
            match found {
                None => {
                    proof {
                        lemma_options_of_paths_stay(
                            w,
                            lazy,
                            element,
                            context,
                            ids,
                            budget as nat,
                            path_index as nat + 1,
                            lazy.paths.paths.len(),
                        );
                    }
                    return Ok(None);
                },
                Some(options) => {
                    let ghost new = options.deep_view();
                    if options.len() > 0 {
                        options_for_each_path.push(options);
                        assert(options_for_each_path.deep_view() =~= before.push(new));
                    }
                },
            }
            path_index += 1;
        }
        let all_options = match SimultaneousPaths::flat_cartesian_product(
            &options_for_each_path,
            check_cancellation,
        ) {
            Ok(all_options) => all_options,
            Err(error) => {
                return Err(error);
            },
        };
        Ok(Some(self.create_lazy_options(all_options, &updated_context)))
    }

    fn options_of_path<S: GraphPathSteps, C: Fn() -> Result<(), FederationError>>(
        &mut self,
        path_index: usize,
        operation_element: &OpPathElement,
        context: &OpGraphPathContext,
        advancer: &mut Advancer<S, C>,
        budget: usize,
    ) -> (r: Result<Option<Vec<SimultaneousPaths>>, FederationError>)
        requires
            old(advancer).ready(),
            old(self).well_formed(old(advancer).world()),
            path_index < old(self).paths.paths@.len(),
        ensures
            same_world(*final(advancer), *old(advancer)),
            final(self).deep_view() == old(self).deep_view(),
            final(self).paths == old(self).paths,
            final(self).well_formed(old(advancer).world()),
            as_expected(
                r,
                final(advancer).ids(),
                options_of_path(
                    old(advancer).world(),
                    old(self).deep_view(),
                    old(self).paths.paths@[path_index as int].deep_view(),
                    operation_element.deep_view(),
                    context.deep_view(),
                    old(advancer).ids(),
                    budget as nat,
                ),
                *old(advancer).check_cancellation,
            ),
        decreases budget, 6int,
    {
        proof {
            reveal(options_of_path);
            reveal(with_indirect);
            reveal(advanced_path);
        }
        let is_field = match operation_element {
            OpPathElement::Field(_) => true,
            OpPathElement::InlineFragment(_) => false,
        };
        let none: Vec<SimultaneousPaths> = Vec::new();
        assert(none.deep_view() =~= Seq::empty());
        if self.paths.paths[path_index].defer_on_tail.is_some() && is_field {
            return self.with_indirect(
                path_index,
                operation_element,
                context,
                advancer,
                budget,
                none,
            );
        }
        let (advance_options, only_exploded) = match self.paths.paths[path_index].advance_with_operation_element(
            operation_element,
            context,
            advancer,
            budget,
        ) {
            Ok(found) => found,
            Err(error) => {
                return Err(error);
            },
        };
        let options = match advance_options {
            None => {
                return self.with_indirect(
                    path_index,
                    operation_element,
                    context,
                    advancer,
                    budget,
                    none,
                );
            },
            Some(options) => options,
        };
        if options.len() == 0 {
            return Ok(Some(options));
        }
        let terminal = match operation_element.is_terminal() {
            Ok(terminal) => terminal,
            Err(error) => {
                return Err(error);
            },
        };
        let exploded = match only_exploded {
            Some(exploded) => exploded,
            None => false,
        };
        if (terminal && !exploded) || !is_field {
            return Ok(Some(options));
        }
        self.with_indirect(path_index, operation_element, context, advancer, budget, options)
    }

    fn with_indirect<S: GraphPathSteps, C: Fn() -> Result<(), FederationError>>(
        &mut self,
        path_index: usize,
        operation_element: &OpPathElement,
        updated_context: &OpGraphPathContext,
        advancer: &mut Advancer<S, C>,
        budget: usize,
        direct: Vec<SimultaneousPaths>,
    ) -> (r: Result<Option<Vec<SimultaneousPaths>>, FederationError>)
        requires
            old(advancer).ready(),
            old(self).well_formed(old(advancer).world()),
            path_index < old(self).paths.paths@.len(),
        ensures
            same_world(*final(advancer), *old(advancer)),
            final(self).deep_view() == old(self).deep_view(),
            final(self).paths == old(self).paths,
            final(self).well_formed(old(advancer).world()),
            as_expected(
                r,
                final(advancer).ids(),
                with_indirect(
                    old(advancer).world(),
                    old(self).deep_view(),
                    old(self).paths.paths@[path_index as int].deep_view(),
                    operation_element.deep_view(),
                    updated_context.deep_view(),
                    old(advancer).ids(),
                    budget as nat,
                    direct.deep_view(),
                ),
                *old(advancer).check_cancellation,
            ),
        decreases budget, 5int,
    {
        proof {
            reveal(with_indirect);
            reveal(indirect_options);
            reveal(advanced_path);
        }
        let ghost w = advancer.world();
        let ghost lazy = self.deep_view();
        let ghost element = operation_element.deep_view();
        let ghost context = updated_context.deep_view();
        let ghost ids = advancer.ids();
        let ghost start = direct.deep_view();
        let ghost path = self.paths.paths@[path_index as int].deep_view();
        let operation_field = match operation_element {
            OpPathElement::InlineFragment(_) => {
                if direct.len() == 0 {
                    return Ok(None);
                }
                return Ok(Some(direct));
            },
            OpPathElement::Field(field) => field,
        };
        let graph = advancer.graph;
        let indirect = match self.indirect_options(path_index, advancer) {
            Ok(indirect) => indirect,
            Err(error) => {
                return Err(error);
            },
        };
        let indirect = match filter_non_collecting_paths_for_field(graph, &indirect, operation_field) {
            Ok(indirect) => indirect,
            Err(error) => {
                return Err(error);
            },
        };
        let ghost paths = indirect.deep_view();
        let mut options = direct;
        let mut i: usize = 0;
        while i < indirect.len()
            invariant
                i <= indirect@.len(),
                advancer.ready(),
                same_world(*advancer, *old(advancer)),
                w == old(advancer).world(),
                graph.deep_view() == w.graph,
                ids == old(advancer).ids(),
                element == operation_element.deep_view(),
                context == updated_context.deep_view(),
                paths == indirect.deep_view(),
                indirect_options(w, paths, element, context, ids, budget as nat, start, i as nat)
                    == Ok::<(Seq<SimultaneousView>, Ids), ErrorView>(
                    (options.deep_view(), advancer.ids()),
                ),
                element is Field,
                old(self).paths.paths@[path_index as int].deep_view() == path,
                lazy == old(self).deep_view(),
                start == direct.deep_view(),
                indirect_for(w, lazy, path, element->Field_0) == Ok::<Seq<PathView>, ErrorView>(
                    paths,
                ),
                self.deep_view() == old(self).deep_view(),
                self.paths == old(self).paths,
                self.well_formed(w),
            decreases indirect@.len() - i,
        {
            proof {
                reveal(with_indirect);
                reveal(indirect_options);
                reveal(advanced_path);
            }
            assert(paths[i as int] == indirect@[i as int].deep_view());
            let (advance_options, _) = match indirect[i].advance_with_operation_element(
                operation_element,
                updated_context,
                advancer,
                budget,
            ) {
                Ok(found) => found,
                Err(error) => {
                    proof {
                        if !may_cancel(*old(advancer).check_cancellation, error) {
                            lemma_indirect_error(
                                w,
                                paths,
                                element,
                                context,
                                ids,
                                budget as nat,
                                start,
                                i as nat + 1,
                                paths.len(),
                            );
                        }
                    }
                    return Err(error);
                },
            };
            if let Some(new) = advance_options {
                match add_new_options(graph, options, &indirect[i], operation_element, new) {
                    Ok(all) => {
                        options = all;
                    },
                    Err(error) => {
                        proof {
                            lemma_indirect_error(
                                w,
                                paths,
                                element,
                                context,
                                ids,
                                budget as nat,
                                start,
                                i as nat + 1,
                                paths.len(),
                            );
                        }
                        return Err(error);
                    },
                }
            }
            i += 1;
        }
        if options.len() > 0 {
            return Ok(Some(options));
        }
        if self.paths.paths[path_index].defer_on_tail.is_none() {
            return Ok(None);
        }
        match self.paths.paths[path_index].advance_with_operation_element(
            operation_element,
            updated_context,
            advancer,
            budget,
        ) {
            Err(error) => Err(error),
            Ok((None, _)) => Ok(None),
            Ok((Some(found), _)) => if found.len() == 0 {
                Ok(None)
            } else {
                Ok(Some(found))
            },
        }
    }
}


/// The options to start with: at a federated root these are the ways to the roots of the subgraphs,
/// elsewhere the path itself.
pub open spec fn initial_options(w: World, lazy: LazyView, federated: bool) -> Result<
    Seq<LazyView>,
    ErrorView,
> {
    if !federated {
        Ok(seq![lazy])
    } else {
        match indirect_of(w, lazy, lazy.paths.paths[0]) {
            Err(error) => Err(error),
            Ok(paths) => Ok(
                lazy_options(
                    paths.map_values(|p: PathView| SimultaneousView { paths: seq![p] }),
                    lazy.context,
                    lazy,
                ),
            ),
        }
    }
}

/// The options to start with from a path at a node of the given type.
pub fn create_initial_options<S: GraphPathSteps, C: Fn() -> Result<(), FederationError>>(
    initial_path: OpGraphPath,
    initial_type: &QueryGraphNodeType,
    initial_context: OpGraphPathContext,
    excluded_destinations: ExcludedDestinations,
    excluded_conditions: ExcludedConditions,
    advancer: &mut Advancer<S, C>,
) -> (r: Result<Vec<SimultaneousPathsWithLazyIndirectPaths>, FederationError>)
    ensures
        same_world(*final(advancer), *old(advancer)),
        final(advancer).ids() == old(advancer).ids(),
        result_view(r) == initial_options(
            old(advancer).world(),
            (LazyView {
                paths: SimultaneousView { paths: seq![initial_path.deep_view()] },
                context: initial_context.deep_view(),
                excluded_destinations: excluded_destinations.deep_view(),
                excluded_conditions: excluded_conditions.deep_view(),
            }),
            initial_type.deep_view() is FederatedRootType,
        ),
        r matches Ok(options) ==> forall|i: int|
            0 <= i < options@.len() ==> (#[trigger] options@[i]).nothing_is_known()
                && options@[i].well_formed(old(advancer).world()),
{
    let mut lazy_initial_path = SimultaneousPathsWithLazyIndirectPaths::new(
        SimultaneousPaths::from_path(initial_path),
        initial_context.clone(),
        excluded_destinations,
        excluded_conditions,
    );
    let ghost lazy = lazy_initial_path.deep_view();
    assert(lazy.paths.paths == lazy_initial_path.paths.paths.deep_view());
    assert(lazy.paths.paths.len() == 1 && lazy.paths.paths[0] == initial_path.deep_view());
    assert(lazy_initial_path.paths.paths@[0].deep_view() == lazy.paths.paths[0]);
    if !initial_type.is_federated_root_type() {
        let r: Vec<SimultaneousPathsWithLazyIndirectPaths> = vec![lazy_initial_path];
        assert(r.deep_view() =~= seq![lazy]);
        return Ok(r);
    }
    let initial_options = match lazy_initial_path.indirect_options(0, advancer) {
        Ok(paths) => paths,
        Err(error) => {
            return Err(error);
        },
    };
    let ghost paths = initial_options.deep_view();
    let mut options: Vec<SimultaneousPaths> = Vec::new();
    let mut i: usize = 0;
    while i < initial_options.len()
        invariant
            i <= initial_options@.len(),
            options@.len() == i,
            forall|j: int|
                0 <= j < i ==> (#[trigger] options@[j]).deep_view() == (SimultaneousView {
                    paths: seq![initial_options@[j].deep_view()],
                }),
        decreases initial_options@.len() - i,
    {
        options.push(SimultaneousPaths::from_path(initial_options[i].clone()));
        i += 1;
    }
    assert(options.deep_view() =~= paths.map_values(
        |p: PathView| SimultaneousView { paths: seq![p] },
    ));
    Ok(lazy_initial_path.create_lazy_options(options, &initial_context))
}

} // verus!
