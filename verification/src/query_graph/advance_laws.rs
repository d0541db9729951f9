//! What holds of every way to advance paths.

use crate::ast::DirectiveView;
use crate::error::ErrorView;
use crate::operation::condition_name;
use crate::operation::FieldElementView;
use crate::operation::InlineFragmentView;
use crate::query_graph::advance::advanced;
use crate::query_graph::advance::advanced_path;
use crate::query_graph::advance::advanced_with_field;
use crate::query_graph::advance::advanced_with_fragment;
use crate::query_graph::advance::after_cast;
use crate::query_graph::advance::cast_to_object;
use crate::query_graph::advance::casts_to_objects;
use crate::query_graph::advance::collected;
use crate::query_graph::advance::common_types;
use crate::query_graph::advance::field_of_object;
use crate::query_graph::advance::field_on_interface;
use crate::query_graph::advance::fields_of_objects;
use crate::query_graph::advance::fragment_on_abstract;
use crate::query_graph::advance::indirect_for;
use crate::query_graph::advance::indirect_options;
use crate::query_graph::advance::interface_start;
use crate::query_graph::advance::is_final;
use crate::query_graph::advance::lazy_path;
use crate::query_graph::advance::made_up_cast;
use crate::query_graph::advance::must_reenter;
use crate::query_graph::advance::nested_too_deep;
use crate::query_graph::advance::options_of_path;
use crate::query_graph::advance::options_of_paths;
use crate::query_graph::advance::wanted_type;
use crate::query_graph::advance::with_indirect;
use crate::query_graph::advance::Ids;
use crate::query_graph::advance::LazyView;
use crate::query_graph::advance::World;
use crate::query_graph::edge_for_cast;
use crate::query_graph::elements::context_with;
use crate::query_graph::elements::ContextView;
use crate::query_graph::elements::ElementView;
use crate::query_graph::graph_path::PathView;
use crate::query_graph::graph_path::SimultaneousView;
use crate::query_graph::node_weight;
use crate::query_graph::source_of;
use crate::query_graph::NodeTypeView;
use crate::query_graph::NodeView;
use crate::schema::position::position_name;
use crate::schema::position::CompositeView;
use crate::schema::position::PositionView;
use crate::text::Text;
use vstd::prelude::*;

verus! {

/// Whether casts did not nest deeper than allowed.
pub open spec fn is_settled<T>(r: Result<T, ErrorView>) -> bool {
    r != Err::<T, ErrorView>(nested_too_deep())
}

// In each of the following, one more cast is allowed.

proof fn lemma_options_of_paths(
    w: World,
    lazy: LazyView,
    element: ElementView,
    context: ContextView,
    ids: Ids,
    budget: nat,
    n: nat,
)
    requires
        is_settled(options_of_paths(w, lazy, element, context, ids, budget, n)),
    ensures
        options_of_paths(
            w,
            lazy,
            element,
            context,
            ids,
            budget + 1,
            n,
        ) == options_of_paths(
            w,
            lazy,
            element,
            context,
            ids,
            budget,
            n,
        ),
    decreases budget, 8nat, n,
{
    reveal(options_of_paths);
    reveal(options_of_path);
    if n > 0 {
        let last = (n - 1) as nat;
        lemma_options_of_paths(w, lazy, element, context, ids, budget, last);
        match options_of_paths(w, lazy, element, context, ids, budget, last) {
            Ok((Some(options), before)) => {
                let path = lazy.paths.paths[n - 1];
                lemma_options_of_path(w, lazy, path, element, context, before, budget);
            },
            _ => {},
        }
    }
}

proof fn lemma_options_of_path(
    w: World,
    lazy: LazyView,
    path: PathView,
    element: ElementView,
    context: ContextView,
    ids: Ids,
    budget: nat,
)
    requires
        is_settled(options_of_path(w, lazy, path, element, context, ids, budget)),
    ensures
        options_of_path(
            w,
            lazy,
            path,
            element,
            context,
            ids,
            budget + 1,
        ) == options_of_path(
            w,
            lazy,
            path,
            element,
            context,
            ids,
            budget,
        ),
    decreases budget, 7nat, 0nat,
{
    reveal(options_of_path);
    reveal(with_indirect);
    reveal(advanced_path);
    if must_reenter(path, element) {
        lemma_with_indirect(w, lazy, path, element, context, ids, budget, Seq::empty());
    } else {
        lemma_advanced_path(w, path, element, context, ids, budget);
        match advanced_path(w, path, element, context, ids, budget) {
            Err(_) => {},
            Ok(((None, _), after)) => {
                lemma_with_indirect(w, lazy, path, element, context, after, budget, Seq::empty());
            },
            Ok(((Some(options), only_exploded), after)) => {
                if is_final(options, element, only_exploded) == Ok::<bool, ErrorView>(false) {
                    lemma_with_indirect(w, lazy, path, element, context, after, budget, options);
                }
            },
        }
    }
}

proof fn lemma_with_indirect(
    w: World,
    lazy: LazyView,
    path: PathView,
    element: ElementView,
    context: ContextView,
    ids: Ids,
    budget: nat,
    direct: Seq<SimultaneousView>,
)
    requires
        is_settled(with_indirect(w, lazy, path, element, context, ids, budget, direct)),
    ensures
        with_indirect(
            w,
            lazy,
            path,
            element,
            context,
            ids,
            budget + 1,
            direct,
        ) == with_indirect(
            w,
            lazy,
            path,
            element,
            context,
            ids,
            budget,
            direct,
        ),
    decreases budget, 6nat, 0nat,
{
    reveal(with_indirect);
    reveal(indirect_options);
    reveal(advanced_path);
    match element {
        ElementView::InlineFragment(_) => {},
        ElementView::Field(field) => match indirect_for(w, lazy, path, field) {
            Err(_) => {},
            Ok(paths) => {
                let n = paths.len();
                lemma_indirect_options(w, paths, element, context, ids, budget, direct, n);
                match indirect_options(w, paths, element, context, ids, budget, direct, n) {
                    Err(_) => {},
                    Ok((options, after)) => {
                        if options.len() == 0 && must_reenter(path, element) {
                            lemma_advanced_path(w, path, element, context, after, budget);
                        }
                    },
                }
            },
        },
    }
}

proof fn lemma_indirect_options(
    w: World,
    paths: Seq<PathView>,
    element: ElementView,
    context: ContextView,
    ids: Ids,
    budget: nat,
    direct: Seq<SimultaneousView>,
    n: nat,
)
    requires
        is_settled(indirect_options(w, paths, element, context, ids, budget, direct, n)),
    ensures
        indirect_options(
            w,
            paths,
            element,
            context,
            ids,
            budget + 1,
            direct,
            n,
        ) == indirect_options(
            w,
            paths,
            element,
            context,
            ids,
            budget,
            direct,
            n,
        ),
    decreases budget, 5nat, n,
{
    reveal(indirect_options);
    reveal(advanced_path);
    if n > 0 {
        let last = (n - 1) as nat;
        lemma_indirect_options(w, paths, element, context, ids, budget, direct, last);
        match indirect_options(w, paths, element, context, ids, budget, direct, last) {
            Err(_) => {},
            Ok((options, before)) => {
                lemma_advanced_path(w, paths[n - 1], element, context, before, budget);
            },
        }
    }
}

proof fn lemma_advanced_path(
    w: World,
    path: PathView,
    element: ElementView,
    context: ContextView,
    ids: Ids,
    budget: nat,
)
    requires
        is_settled(advanced_path(w, path, element, context, ids, budget)),
    ensures
        advanced_path(
            w,
            path,
            element,
            context,
            ids,
            budget + 1,
        ) == advanced_path(
            w,
            path,
            element,
            context,
            ids,
            budget,
        ),
    decreases budget, 4nat, 0nat,
{
    reveal(advanced_path);
    reveal(advanced_with_field);
    reveal(advanced_with_fragment);
    match node_weight(w.graph, path.tail) {
        Err(_) => {},
        Ok(tail) => match tail.type_ {
            NodeTypeView::FederatedRootType(_) => {},
            NodeTypeView::SchemaType(position) => match element {
                ElementView::Field(field) => {
                    lemma_advanced_with_field(w, path, tail, position, field, context, ids, budget);
                },
                ElementView::InlineFragment(fragment) => {
                    lemma_advanced_with_fragment(
                        w,
                        path,
                        tail,
                        position,
                        fragment,
                        context,
                        ids,
                        budget,
                    );
                },
            },
        },
    }
}

proof fn lemma_advanced_with_field(
    w: World,
    path: PathView,
    tail: NodeView,
    position: PositionView,
    field: FieldElementView,
    context: ContextView,
    ids: Ids,
    budget: nat,
)
    requires
        is_settled(advanced_with_field(w, path, tail, position, field, context, ids, budget)),
    ensures
        advanced_with_field(
            w,
            path,
            tail,
            position,
            field,
            context,
            ids,
            budget + 1,
        ) == advanced_with_field(
            w,
            path,
            tail,
            position,
            field,
            context,
            ids,
            budget,
        ),
    decreases budget, 3nat, 1nat,
{
    reveal(advanced_with_field);
    reveal(field_on_interface);
    match position {
        PositionView::Interface(interface) => {
            lemma_field_on_interface(w, path, tail, interface, field, context, ids, budget);
        },
        _ => {},
    }
}

proof fn lemma_field_on_interface(
    w: World,
    path: PathView,
    tail: NodeView,
    interface: Text,
    field: FieldElementView,
    context: ContextView,
    ids: Ids,
    budget: nat,
)
    requires
        is_settled(field_on_interface(w, path, tail, interface, field, context, ids, budget)),
    ensures
        field_on_interface(
            w,
            path,
            tail,
            interface,
            field,
            context,
            ids,
            budget + 1,
        ) == field_on_interface(
            w,
            path,
            tail,
            interface,
            field,
            context,
            ids,
            budget,
        ),
    decreases budget, 3nat, 0nat,
{
    reveal(field_on_interface);
    reveal(fields_of_objects);
    match interface_start(w, path, tail, interface, field, context) {
        Err(_) => {},
        Ok(start) => {
            if !start.done {
                let element = ElementView::Field(field);
                let names = start.names;
                let n = names.len();
                lemma_fields_of_objects(
                    w,
                    path,
                    tail,
                    interface,
                    element,
                    context,
                    names,
                    ids,
                    budget,
                    n,
                );
            }
        },
    }
}

proof fn lemma_advanced_with_fragment(
    w: World,
    path: PathView,
    tail: NodeView,
    position: PositionView,
    fragment: InlineFragmentView,
    context: ContextView,
    ids: Ids,
    budget: nat,
)
    requires
        is_settled(advanced_with_fragment(w, path, tail, position, fragment, context, ids, budget)),
    ensures
        advanced_with_fragment(
            w,
            path,
            tail,
            position,
            fragment,
            context,
            ids,
            budget + 1,
        ) == advanced_with_fragment(
            w,
            path,
            tail,
            position,
            fragment,
            context,
            ids,
            budget,
        ),
    decreases budget, 3nat, 1nat,
{
    reveal(advanced_with_fragment);
    reveal(fragment_on_abstract);
    let wanted = wanted_type(fragment, position);
    if wanted != position_name(position) {
        match position {
            PositionView::Interface(name) => {
                let own = CompositeView::Interface(name);
                lemma_fragment_on_abstract(
                    w,
                    path,
                    tail,
                    own,
                    fragment,
                    wanted,
                    context,
                    ids,
                    budget,
                );
            },
            PositionView::Union(name) => {
                let own = CompositeView::Union(name);
                lemma_fragment_on_abstract(
                    w,
                    path,
                    tail,
                    own,
                    fragment,
                    wanted,
                    context,
                    ids,
                    budget,
                );
            },
            _ => {},
        }
    }
}

proof fn lemma_fragment_on_abstract(
    w: World,
    path: PathView,
    tail: NodeView,
    position: CompositeView,
    fragment: InlineFragmentView,
    wanted: Text,
    context: ContextView,
    ids: Ids,
    budget: nat,
)
    requires
        is_settled(
            fragment_on_abstract(w, path, tail, position, fragment, wanted, context, ids, budget),
        ),
    ensures
        fragment_on_abstract(
            w,
            path,
            tail,
            position,
            fragment,
            wanted,
            context,
            ids,
            budget + 1,
        ) == fragment_on_abstract(
            w,
            path,
            tail,
            position,
            fragment,
            wanted,
            context,
            ids,
            budget,
        ),
    decreases budget, 2nat, 0nat,
{
    reveal(fragment_on_abstract);
    reveal(casts_to_objects);
    match (
        edge_for_cast(w.graph, path.tail, condition_name(fragment)),
        common_types(w, path, wanted),
    ) {
        (None, Ok(names)) => {
            let n = names.len();
            lemma_casts_to_objects(
                w,
                path,
                tail,
                position,
                fragment,
                context,
                names,
                ids,
                budget,
                n,
            );
        },
        _ => {},
    }
}

proof fn lemma_casts_to_objects(
    w: World,
    path: PathView,
    tail: NodeView,
    position: CompositeView,
    fragment: InlineFragmentView,
    context: ContextView,
    names: Seq<Text>,
    ids: Ids,
    budget: nat,
    n: nat,
)
    requires
        is_settled(
            casts_to_objects(w, path, tail, position, fragment, context, names, ids, budget, n),
        ),
    ensures
        casts_to_objects(
            w,
            path,
            tail,
            position,
            fragment,
            context,
            names,
            ids,
            budget + 1,
            n,
        ) == casts_to_objects(
            w,
            path,
            tail,
            position,
            fragment,
            context,
            names,
            ids,
            budget,
            n,
        ),
    decreases budget, 1nat, n,
{
    reveal(casts_to_objects);
    reveal(cast_to_object);
    if n > 0 {
        let last = (n - 1) as nat;
        lemma_casts_to_objects(
            w,
            path,
            tail,
            position,
            fragment,
            context,
            names,
            ids,
            budget,
            last,
        );
        match casts_to_objects(
            w,
            path,
            tail,
            position,
            fragment,
            context,
            names,
            ids,
            budget,
            last,
        ) {
            Ok((Some(options), before)) => {
                let name = names[n - 1];
                let directives = fragment.directives;
                lemma_cast_to_object(
                    w,
                    path,
                    tail,
                    position,
                    directives,
                    context,
                    name,
                    before,
                    budget,
                );
            },
            _ => {},
        }
    }
}

proof fn lemma_cast_to_object(
    w: World,
    path: PathView,
    tail: NodeView,
    position: CompositeView,
    directives: Seq<DirectiveView>,
    context: ContextView,
    name: Text,
    ids: Ids,
    budget: nat,
)
    requires
        is_settled(cast_to_object(w, path, tail, position, directives, context, name, ids, budget)),
    ensures
        cast_to_object(
            w,
            path,
            tail,
            position,
            directives,
            context,
            name,
            ids,
            budget + 1,
        ) == cast_to_object(
            w,
            path,
            tail,
            position,
            directives,
            context,
            name,
            ids,
            budget,
        ),
    decreases budget, 0nat, 0nat,
{
    reveal(cast_to_object);
    reveal(advanced);
    match source_of(w.graph, tail.source) {
        Err(_) => {},
        Ok(subgraph) => {
            if budget > 0 {
                let object = Some(CompositeView::Object(name));
                let cast = made_up_cast(subgraph.schema, position, object, directives, ids);
                lemma_advanced(
                    w,
                    lazy_path(path, context),
                    ElementView::InlineFragment(cast),
                    after_cast(ids),
                    (budget - 1) as nat,
                );
            }
        },
    }
}

proof fn lemma_fields_of_objects(
    w: World,
    path: PathView,
    tail: NodeView,
    interface: Text,
    element: ElementView,
    context: ContextView,
    names: Seq<Text>,
    ids: Ids,
    budget: nat,
    n: nat,
)
    requires
        is_settled(
            fields_of_objects(w, path, tail, interface, element, context, names, ids, budget, n),
        ),
    ensures
        fields_of_objects(
            w,
            path,
            tail,
            interface,
            element,
            context,
            names,
            ids,
            budget + 1,
            n,
        ) == fields_of_objects(
            w,
            path,
            tail,
            interface,
            element,
            context,
            names,
            ids,
            budget,
            n,
        ),
    decreases budget, 2nat, n,
{
    reveal(fields_of_objects);
    reveal(field_of_object);
    if n > 0 {
        let last = (n - 1) as nat;
        lemma_fields_of_objects(
            w,
            path,
            tail,
            interface,
            element,
            context,
            names,
            ids,
            budget,
            last,
        );
        match fields_of_objects(
            w,
            path,
            tail,
            interface,
            element,
            context,
            names,
            ids,
            budget,
            last,
        ) {
            Ok((Some(options), before)) => {
                let name = names[n - 1];
                lemma_field_of_object(
                    w,
                    path,
                    tail,
                    interface,
                    element,
                    context,
                    name,
                    before,
                    budget,
                );
            },
            _ => {},
        }
    }
}

proof fn lemma_field_of_object(
    w: World,
    path: PathView,
    tail: NodeView,
    interface: Text,
    element: ElementView,
    context: ContextView,
    name: Text,
    ids: Ids,
    budget: nat,
)
    requires
        is_settled(field_of_object(w, path, tail, interface, element, context, name, ids, budget)),
    ensures
        field_of_object(
            w,
            path,
            tail,
            interface,
            element,
            context,
            name,
            ids,
            budget + 1,
        ) == field_of_object(
            w,
            path,
            tail,
            interface,
            element,
            context,
            name,
            ids,
            budget,
        ),
    decreases budget, 1nat, 0nat,
{
    reveal(field_of_object);
    reveal(cast_to_object);
    reveal(collected);
    let position = CompositeView::Interface(interface);
    let plain = Seq::empty();
    lemma_cast_to_object(w, path, tail, position, plain, context, name, ids, budget);
    match cast_to_object(w, path, tail, position, plain, context, name, ids, budget) {
        Ok((Some(casts), after)) => {
            if casts.len() > 0 {
                lemma_collected(w, casts, element, after, budget, casts.len());
            }
        },
        _ => {},
    }
}

proof fn lemma_collected(
    w: World,
    casts: Seq<LazyView>,
    element: ElementView,
    ids: Ids,
    budget: nat,
    n: nat,
)
    requires
        is_settled(collected(w, casts, element, ids, budget, n)),
    ensures
        collected(
            w,
            casts,
            element,
            ids,
            budget + 1,
            n,
        ) == collected(
            w,
            casts,
            element,
            ids,
            budget,
            n,
        ),
    decreases budget, 0nat, n,
{
    reveal(collected);
    reveal(advanced);
    if n > 0 {
        let last = (n - 1) as nat;
        lemma_collected(w, casts, element, ids, budget, last);
        match collected(w, casts, element, ids, budget, last) {
            Err(_) => {},
            Ok((options, before)) => {
                if budget > 0 {
                    lemma_advanced(w, casts[n - 1], element, before, (budget - 1) as nat);
                }
            },
        }
    }
}

proof fn lemma_advanced(
    w: World,
    lazy: LazyView,
    element: ElementView,
    ids: Ids,
    budget: nat,
)
    requires
        is_settled(advanced(w, lazy, element, ids, budget)),
    ensures
        advanced(w, lazy, element, ids, budget + 1) == advanced(w, lazy, element, ids, budget),
    decreases budget, 9nat, 0nat,
{
    reveal(advanced);
    reveal(options_of_paths);
    match context_with(lazy.context, element) {
        Err(_) => {},
        Ok(context) => {
            let n = lazy.paths.paths.len();
            lemma_options_of_paths(w, lazy, element, context, ids, budget, n);
        },
    }
}

/// Where casts do not nest too deep, allowing more of them changes nothing.
pub proof fn law_more_casts_change_nothing(
    w: World,
    lazy: LazyView,
    element: ElementView,
    ids: Ids,
    budget: nat,
    larger: nat,
)
    requires
        budget <= larger,
        is_settled(advanced(w, lazy, element, ids, budget)),
    ensures
        advanced(w, lazy, element, ids, larger) == advanced(w, lazy, element, ids, budget),
    decreases larger,
{
    if budget < larger {
        law_more_casts_change_nothing(w, lazy, element, ids, budget, (larger - 1) as nat);
        lemma_advanced(w, lazy, element, ids, (larger - 1) as nat);
    }
}

} // verus!
