//! Advancing a path through the implementations of an interface.

use crate::ast::Directive;
use crate::error::ErrorKind;
use crate::error::ErrorView;
use crate::error::FederationError;
use crate::operation::Field;
use crate::query_graph::advance::cast_to_object;
use crate::query_graph::advance::collected;
use crate::query_graph::advance::fields_of_objects;
use crate::query_graph::advance::field_of_object;
use crate::query_graph::advance::field_on_interface;
use crate::query_graph::advance::interface_start;
use crate::query_graph::advance::paths_of;
use crate::query_graph::advance::single;
use crate::query_graph::advance::single_if;
use crate::query_graph::advance::with_direct;
use crate::query_graph::advance::Ids;
use crate::query_graph::advance::InterfaceStart;
use crate::query_graph::advance::LazyView;
use crate::query_graph::advance::World;
use crate::query_graph::advancer::as_expected;
use crate::query_graph::advancer::same_world;
use crate::query_graph::advancer::single_option;
use crate::query_graph::advancer::Advancer;
use crate::query_graph::elements::ContextView;
use crate::query_graph::elements::ElementView;
use crate::query_graph::elements::OpGraphPathContext;
use crate::query_graph::elements::OpPathElement;
use crate::query_graph::graph_path::OpGraphPath;
use crate::query_graph::graph_path::PathView;
use crate::query_graph::graph_path::SimultaneousPaths;
use crate::query_graph::graph_path::SimultaneousView;
use crate::query_graph::options::may_cancel;
use crate::query_graph::steps::GraphPathSteps;
use crate::query_graph::subsumption::take_paths;
use crate::query_graph::texts::unsatisfiable_error;
use crate::query_graph::NodeView;
use crate::query_graph::QueryGraphNode;
use crate::schema::position::CompositeTypeDefinitionPosition;
use crate::schema::position::CompositeView;
use crate::text::Text;
use vstd::prelude::*;

verus! {

proof fn lemma_fields_stay(
    w: World,
    path: PathView,
    tail: NodeView,
    interface: Text,
    element: ElementView,
    context: ContextView,
    names: Seq<Text>,
    ids: Ids,
    budget: nat,
    n: nat,
    m: nat,
)
    requires
        n <= m,
        fields_of_objects(w, path, tail, interface, element, context, names, ids, budget, n) matches Ok(
            found,
        ) ==> found.0 is None,
    ensures
        fields_of_objects(w, path, tail, interface, element, context, names, ids, budget, m)
            == fields_of_objects(
            w,
            path,
            tail,
            interface,
            element,
            context,
            names,
            ids,
            budget,
            n,
        ),
    decreases m,
{
    reveal(fields_of_objects);
    if n < m {
        lemma_fields_stay(
            w,
            path,
            tail,
            interface,
            element,
            context,
            names,
            ids,
            budget,
            n,
            (m - 1) as nat,
        );
    }
}

impl OpGraphPath {
    /// The options for a field on an interface.
    pub(crate) fn field_on_interface<S: GraphPathSteps, C: Fn() -> Result<(), FederationError>>(
        &self,
        operation_element: &OpPathElement,
        operation_field: &Field,
        tail: &QueryGraphNode,
        interface: &str,
        context: &OpGraphPathContext,
        advancer: &mut Advancer<S, C>,
        budget: usize,
    ) -> (r: Result<(Option<Vec<SimultaneousPaths>>, Option<bool>), FederationError>)
        requires
            old(advancer).ready(),
            operation_element.deep_view() == ElementView::Field(operation_field.deep_view()),
        ensures
            same_world(*final(advancer), *old(advancer)),
            as_expected(
                r,
                final(advancer).ids(),
                field_on_interface(
                    old(advancer).world(),
                    self.deep_view(),
                    tail.deep_view(),
                    interface@,
                    operation_field.deep_view(),
                    context.deep_view(),
                    old(advancer).ids(),
                    budget as nat,
                ),
                *old(advancer).check_cancellation,
            ),
        decreases budget, 2int,
    {
        proof {
            reveal(field_on_interface);
            reveal(fields_of_objects);
            reveal(with_direct);
        }
        let ghost w = advancer.world();
        let ghost path = self.deep_view();
        let ghost t = tail.deep_view();
        let ghost element = operation_element.deep_view();
        let ghost c = context.deep_view();
        let ghost ids = advancer.ids();
        let check_cancellation = advancer.check_cancellation;
        let start = match self.start_field_on_interface(
            advancer,
            tail,
            interface,
            operation_field,
            context,
        ) {
            Ok(start) => start,
            Err(error) => {
                return Err(error);
            },
        };
        if start.done {
            return Ok((optional_option(start.direct), None));
        }
        let ghost names = start.deep_view().names;
        let mut options_for_each_implementation: Vec<Vec<SimultaneousPaths>> = Vec::new();
        assert(options_for_each_implementation.deep_view() =~= Seq::empty());
        let mut i: usize = 0;
        while i < start.names.len()
            invariant
                i <= names.len(),
                names == start.deep_view().names,
                !start.done,
                interface_start(w, path, t, interface@, operation_field.deep_view(), c) == Ok::<
                    InterfaceStart,
                    ErrorView,
                >(start.deep_view()),
                advancer.ready(),
                same_world(*advancer, *old(advancer)),
                check_cancellation == old(advancer).check_cancellation,
                w == old(advancer).world(),
                path == self.deep_view(),
                t == tail.deep_view(),
                element == operation_element.deep_view(),
                element == ElementView::Field(operation_field.deep_view()),
                c == context.deep_view(),
                ids == old(advancer).ids(),
                fields_of_objects(
                    w,
                    path,
                    t,
                    interface@,
                    element,
                    c,
                    names,
                    ids,
                    budget as nat,
                    i as nat,
                ) == Ok::<(Option<Seq<Seq<SimultaneousView>>>, Ids), ErrorView>(
                    (Some(options_for_each_implementation.deep_view()), advancer.ids()),
                ),
            decreases names.len() - i,
        {
            proof {
                reveal(field_on_interface);
                reveal(fields_of_objects);
                reveal(field_of_object);
            }
            let ghost before = options_for_each_implementation.deep_view();
            let found = match self.field_of_object(
                operation_element,
                tail,
                interface,
                start.names.at(i),
                context,
                advancer,
                budget,
            ) {
                Ok(found) => found,
                Err(error) => {
                    proof {
                        if !may_cancel(*old(advancer).check_cancellation, error) {
                            lemma_fields_stay(
                                w,
                                path,
                                t,
                                interface@,
                                element,
                                c,
                                names,
                                ids,
                                budget as nat,
                                i as nat + 1,
                                names.len(),
                            );
                        }
                    }
                    return Err(error);
                },
            };
            match found {
                None => {
                    proof {
                        lemma_fields_stay(
                            w,
                            path,
                            t,
                            interface@,
                            element,
                            c,
                            names,
                            ids,
                            budget as nat,
                            i as nat + 1,
                            names.len(),
                        );
                    }
                    return Ok((optional_option(start.direct), None));
                },
                Some(options) => {
                    let ghost new = options.deep_view();
                    if options.len() > 0 {
                        options_for_each_implementation.push(options);
                        assert(options_for_each_implementation.deep_view() =~= before.push(new));
                    }
                },
            }
            i += 1;
        }
        let all_options = match SimultaneousPaths::flat_cartesian_product(
            &options_for_each_implementation,
            check_cancellation,
        ) {
            Ok(all_options) => all_options,
            Err(error) => {
                return Err(error);
            },
        };
        let ghost all = all_options.deep_view();
        let direct = match start.direct {
            None => {
                return Ok((Some(all_options), Some(true)));
            },
            Some(direct) => direct,
        };
        if start.overrides {
            let (new_direct, mut new_options) = direct.mark_overriding(
                &all_options,
                &mut advancer.override_ids,
            );
            let ghost first = new_direct.deep_view();
            let ghost rest = new_options.deep_view();
            let mut options = single_option(new_direct);
            options.append(&mut new_options);
            assert(options.deep_view() =~= single(first) + rest);
            Ok((Some(options), None))
        } else {
            let ghost first = direct.deep_view();
            let mut options = single_option(direct);
            let mut rest = all_options;
            options.append(&mut rest);
            assert(options.deep_view() =~= single(first) + all);
            Ok((Some(options), None))
        }
    }
}

fn optional_option(path: Option<OpGraphPath>) -> (r: Option<Vec<SimultaneousPaths>>)
    ensures
        r.deep_view() == single_if(path.deep_view()),
{
    match path {
        Some(path) => Some(single_option(path)),
        None => None,
    }
}

proof fn lemma_collected_error(
    w: World,
    casts: Seq<LazyView>,
    element: ElementView,
    ids: Ids,
    budget: nat,
    n: nat,
    m: nat,
)
    requires
        n <= m,
        collected(w, casts, element, ids, budget, n) is Err,
    ensures
        collected(w, casts, element, ids, budget, m) == collected(
            w,
            casts,
            element,
            ids,
            budget,
            n,
        ),
    decreases m,
{
    reveal(collected);
    if n < m {
        lemma_collected_error(w, casts, element, ids, budget, n, (m - 1) as nat);
    }
}

impl OpGraphPath {
    /// The options for a field through an object type of an interface.
    pub(crate) fn field_of_object<S: GraphPathSteps, C: Fn() -> Result<(), FederationError>>(
        &self,
        operation_element: &OpPathElement,
        tail: &QueryGraphNode,
        interface: &str,
        name: &str,
        context: &OpGraphPathContext,
        advancer: &mut Advancer<S, C>,
        budget: usize,
    ) -> (r: Result<Option<Vec<SimultaneousPaths>>, FederationError>)
        requires
            old(advancer).ready(),
        ensures
            same_world(*final(advancer), *old(advancer)),
            as_expected(
                r,
                final(advancer).ids(),
                field_of_object(
                    old(advancer).world(),
                    self.deep_view(),
                    tail.deep_view(),
                    interface@,
                    operation_element.deep_view(),
                    context.deep_view(),
                    name@,
                    old(advancer).ids(),
                    budget as nat,
                ),
                *old(advancer).check_cancellation,
            ),
        decreases budget, 1int,
    {
        proof {
            reveal(field_of_object);
            reveal(collected);
        }
        let ghost w = advancer.world();
        let ghost element = operation_element.deep_view();
        let ghost first = advancer.ids();
        let parent = CompositeTypeDefinitionPosition::Interface(interface.to_owned());
        let directives: Vec<Directive> = Vec::new();
        assert(directives.deep_view() =~= Seq::empty());
        let mut casts = match self.cast_to_object(
            tail,
            &parent,
            &directives,
            name,
            context,
            advancer,
            budget,
        ) {
            Err(error) => {
                return Err(error);
            },
            Ok(None) => {
                return Ok(None);
            },
            Ok(Some(casts)) => casts,
        };
        let mut field_options: Vec<SimultaneousPaths> = Vec::new();
        assert(field_options.deep_view() =~= Seq::empty());
        if casts.len() == 0 {
            return Ok(Some(field_options));
        }
        let ghost all = casts.deep_view();
        let ghost ids = advancer.ids();
        let mut i: usize = 0;
        while i < casts.len()
            invariant
                i <= casts@.len(),
                casts@.len() > 0,
                all == casts.deep_view(),
                forall|j: int| 0 <= j < casts@.len() ==> (#[trigger] casts@[j]).well_formed(w),
                advancer.ready(),
                same_world(*advancer, *old(advancer)),
                w == old(advancer).world(),
                element == operation_element.deep_view(),
                first == old(advancer).ids(),
                cast_to_object(
                    w,
                    self.deep_view(),
                    tail.deep_view(),
                    CompositeView::Interface(interface@),
                    Seq::empty(),
                    context.deep_view(),
                    name@,
                    first,
                    budget as nat,
                ) == Ok::<(Option<Seq<LazyView>>, Ids), ErrorView>((Some(all), ids)),
                collected(w, all, element, ids, budget as nat, i as nat) == Ok::<
                    (Seq<SimultaneousView>, Ids),
                    ErrorView,
                >((field_options.deep_view(), advancer.ids())),
            decreases casts@.len() - i,
        {
            proof {
                reveal(field_of_object);
                reveal(collected);
            }
            let ghost before = field_options.deep_view();
            assert(all[i as int] == casts@[i as int].deep_view());
            if budget == 0 {
                proof {
                    lemma_collected_error(
                        w,
                        all,
                        element,
                        ids,
                        budget as nat,
                        i as nat + 1,
                        all.len(),
                    );
                }
                return Err(
                    FederationError {
                        kind: ErrorKind::NestingTooDeep,
                        message: "Type conditions nest deeper than allowed".to_owned(),
                    },
                );
            }
            let found = match casts[i].advance_with_operation_element(
                operation_element,
                advancer,
                budget - 1,
            ) {
                Ok(found) => found,
                Err(error) => {
                    proof {
                        if !may_cancel(*old(advancer).check_cancellation, error) {
                            lemma_collected_error(
                                w,
                                all,
                                element,
                                ids,
                                budget as nat,
                                i as nat + 1,
                                all.len(),
                            );
                        }
                    }
                    return Err(error);
                },
            };
            assert(casts.deep_view() =~= all);
            if let Some(options) = found {
                if options.len() == 0 {
                    proof {
                        lemma_collected_error(
                            w,
                            all,
                            element,
                            ids,
                            budget as nat,
                            i as nat + 1,
                            all.len(),
                        );
                    }
                    return Err(unsatisfiable_error(operation_element));
                }
                let ghost new = paths_of(options.deep_view());
                let mut more = take_paths(options);
                field_options.append(&mut more);
                assert(field_options.deep_view() =~= before + new);
            }
            i += 1;
        }
        if field_options.len() == 0 {
            Ok(None)
        } else {
            Ok(Some(field_options))
        }
    }
}

} // verus!
