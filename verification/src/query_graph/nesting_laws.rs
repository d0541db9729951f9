//! How deep made-up casts nest.

use crate::ast::DirectiveView;
use crate::error::ErrorView;
use crate::operation::condition_name;
use crate::operation::FieldElementView;
use crate::operation::InlineFragmentView;
use crate::query_graph::advance::advanced;
use crate::query_graph::advance::advanced_path;
use crate::query_graph::advance::advanced_with_field;
use crate::query_graph::advance::advanced_with_fragment;
use crate::query_graph::advance::after_cast;
use crate::query_graph::advance::cast_to_object;
use crate::query_graph::advance::casts_to_objects;
use crate::query_graph::advance::collected;
use crate::query_graph::advance::common_types;
use crate::query_graph::advance::field_of_object;
use crate::query_graph::advance::field_on_interface;
use crate::query_graph::advance::fields_of_objects;
use crate::query_graph::advance::fragment_on_abstract;
use crate::query_graph::advance::implementations;
use crate::query_graph::advance::indirect_for;
use crate::query_graph::advance::indirect_options;
use crate::query_graph::advance::interface_start;
use crate::query_graph::advance::lazy_path;
use crate::query_graph::advance::made_up_cast;
use crate::query_graph::advance::nested_too_deep;
use crate::query_graph::advance::options_of_path;
use crate::query_graph::advance::options_of_paths;
use crate::query_graph::advance::wanted_type;
use crate::query_graph::advance::with_indirect;
use crate::query_graph::advance::Ids;
use crate::query_graph::advance::LazyView;
use crate::query_graph::advance::World;
use crate::query_graph::edge_for_cast;
use crate::query_graph::elements::context_with;
use crate::query_graph::elements::element_conditionals;
use crate::query_graph::elements::ConditionalView;
use crate::query_graph::elements::ContextView;
use crate::query_graph::elements::ElementView;
use crate::query_graph::graph_path::PathView;
use crate::query_graph::graph_path::SimultaneousView;
use crate::query_graph::node_weight;
use crate::query_graph::set_meet;
use crate::query_graph::source_of;
use crate::query_graph::NodeTypeView;
use crate::query_graph::NodeView;
use crate::schema::position::get_type;
use crate::schema::position::position_name;
use crate::schema::position::CompositeView;
use crate::schema::position::PositionView;
use crate::text::Text;
use vstd::prelude::*;

verus! {

/// The interface that a path ends at.
pub open spec fn interface_at(w: World, path: PathView) -> Option<(NodeView, Text)> {
    match node_weight(w.graph, path.tail) {
        Ok(tail) => match tail.type_ {
            NodeTypeView::SchemaType(PositionView::Interface(name)) => Some((tail, name)),
            _ => None,
        },
        Err(_) => None,
    }
}

/// Whether a path ends at an interface or a union.
pub open spec fn ends_at_abstract(w: World, path: PathView) -> bool {
    match node_weight(w.graph, path.tail) {
        Ok(tail) => match tail.type_ {
            NodeTypeView::SchemaType(PositionView::Interface(_)) => true,
            NodeTypeView::SchemaType(PositionView::Union(_)) => true,
            _ => false,
        },
        Err(_) => false,
    }
}

/// Whether the graph has casts from the end of a path to the given types.
pub open spec fn has_casts(w: World, path: PathView, names: Seq<Text>) -> bool {
    forall|i: int|
        0 <= i < names.len() ==> edge_for_cast(
            w.graph,
            path.tail,
            Some(#[trigger] names[i]),
        ) is Some
}

/// Whether an abstract type at the end of a path can be taken apart: the graph has casts to all the
/// object types that it can be there.
pub open spec fn can_be_taken_apart(w: World, path: PathView) -> bool {
    ends_at_abstract(w, path) ==> has_casts(w, path, path.runtime_types_of_tail)
}

/// Whether no path ends at an interface.
pub open spec fn without_interfaces(w: World, paths: Seq<PathView>) -> bool {
    forall|i: int| 0 <= i < paths.len() ==> interface_at(w, #[trigger] paths[i]) is None
}

/// Whether a field is collected without taking an interface apart: neither the paths nor those that
/// lengthen them without collecting anything end at one.
pub open spec fn collects_directly(w: World, lazy: LazyView, field: FieldElementView) -> bool {
    &&& without_interfaces(w, lazy.paths.paths)
    &&& forall|i: int|
        0 <= i < lazy.paths.paths.len() ==> match indirect_for(
            w,
            lazy,
            #[trigger] lazy.paths.paths[i],
            field,
        ) {
            Ok(paths) => without_interfaces(w, paths),
            Err(_) => true,
        }
}

/// Whether a field at the end of a path takes at most one cast: an interface there can be taken apart,
/// and the field is collected directly behind the casts.
pub open spec fn takes_one_cast(
    w: World,
    path: PathView,
    field: FieldElementView,
    context: ContextView,
) -> bool {
    match interface_at(w, path) {
        None => true,
        Some((tail, interface)) => {
            &&& has_casts(w, path, path.runtime_types_of_tail)
            &&& forall|name: Text, ids: Ids|
                match #[trigger] cast_to_object(
                    w,
                    path,
                    tail,
                    CompositeView::Interface(interface),
                    Seq::empty(),
                    context,
                    name,
                    ids,
                    1,
                ) {
                    Ok((Some(casts), _)) => all_collect_directly(w, casts, field),
                    _ => true,
                }
        },
    }
}

/// Whether a field is collected directly behind some casts.
pub open spec fn all_collect_directly(
    w: World,
    casts: Seq<LazyView>,
    field: FieldElementView,
) -> bool {
    forall|i: int| 0 <= i < casts.len() ==> collects_directly(w, #[trigger] casts[i], field)
}

/// Whether a field at the end of each path takes at most one cast.
pub open spec fn all_take_one_cast(
    w: World,
    paths: Seq<PathView>,
    field: FieldElementView,
    context: ContextView,
) -> bool {
    forall|i: int|
        0 <= i < paths.len() ==> takes_one_cast(w, #[trigger] paths[i], field, context)
}

/// Whether advancing paths with an element takes at most one cast after another.
pub open spec fn casts_once(w: World, lazy: LazyView, element: ElementView) -> bool {
    match element {
        ElementView::InlineFragment(_) => forall|i: int|
            0 <= i < lazy.paths.paths.len() ==> can_be_taken_apart(
                w,
                #[trigger] lazy.paths.paths[i],
            ),
        ElementView::Field(field) => match context_with(lazy.context, element) {
            Err(_) => true,
            Ok(context) => {
                &&& all_take_one_cast(w, lazy.paths.paths, field, context)
                &&& forall|i: int|
                    0 <= i < lazy.paths.paths.len() ==> match indirect_for(
                        w,
                        lazy,
                        #[trigger] lazy.paths.paths[i],
                        field,
                    ) {
                        Ok(paths) => all_take_one_cast(w, paths, field, context),
                        Err(_) => true,
                    }
            },
        },
    }
}

// Fragments.

proof fn lemma_fragment_with_edge(
    w: World,
    path: PathView,
    fragment: InlineFragmentView,
    context: ContextView,
    ids: Ids,
    a: nat,
    b: nat,
)
    requires
        edge_for_cast(w.graph, path.tail, condition_name(fragment)) is Some,
    ensures
        advanced_path(w, path, ElementView::InlineFragment(fragment), context, ids, a)
            == advanced_path(w, path, ElementView::InlineFragment(fragment), context, ids, b),
{
    reveal(advanced_path);
    reveal(advanced_with_fragment);
    reveal(fragment_on_abstract);
}

/// A fragment has no indirect options, so those of a path are the direct ones.
proof fn lemma_options_of_fragment(
    w: World,
    lazy: LazyView,
    path: PathView,
    fragment: InlineFragmentView,
    context: ContextView,
    ids: Ids,
    a: nat,
    b: nat,
)
    requires
        advanced_path(w, path, ElementView::InlineFragment(fragment), context, ids, a)
            == advanced_path(w, path, ElementView::InlineFragment(fragment), context, ids, b),
    ensures
        options_of_path(w, lazy, path, ElementView::InlineFragment(fragment), context, ids, a)
            == options_of_path(w, lazy, path, ElementView::InlineFragment(fragment), context, ids, b),
{
    reveal(options_of_path);
    reveal(with_indirect);
    reveal(advanced_path);
}

proof fn lemma_made_up_cast(
    w: World,
    path: PathView,
    context: ContextView,
    fragment: InlineFragmentView,
    ids: Ids,
    a: nat,
    b: nat,
)
    requires
        edge_for_cast(w.graph, path.tail, condition_name(fragment)) is Some,
    ensures
        advanced(w, lazy_path(path, context), ElementView::InlineFragment(fragment), ids, a)
            == advanced(w, lazy_path(path, context), ElementView::InlineFragment(fragment), ids, b),
{
    reveal(advanced);
    reveal(options_of_path);
    let lazy = lazy_path(path, context);
    let element = ElementView::InlineFragment(fragment);
    if let Ok(inner) = context_with(lazy.context, element) {
        lemma_fragment_with_edge(w, path, fragment, inner, ids, a, b);
        lemma_options_of_fragment(w, lazy, path, fragment, inner, ids, a, b);
        reveal_with_fuel(options_of_paths, 2);
        assert(lazy.paths.paths.len() == 1);
        assert(lazy.paths.paths[0] == path);
    }
}

proof fn lemma_cast(
    w: World,
    path: PathView,
    tail: NodeView,
    position: CompositeView,
    directives: Seq<DirectiveView>,
    context: ContextView,
    name: Text,
    ids: Ids,
    a: nat,
    b: nat,
)
    requires
        a > 0,
        b > 0,
        edge_for_cast(w.graph, path.tail, Some(name)) is Some,
    ensures
        cast_to_object(w, path, tail, position, directives, context, name, ids, a)
            == cast_to_object(w, path, tail, position, directives, context, name, ids, b),
{
    reveal(cast_to_object);
    reveal(advanced);
    if let Ok(subgraph) = source_of(w.graph, tail.source) {
        let fragment = made_up_cast(
            subgraph.schema,
            position,
            Some(CompositeView::Object(name)),
            directives,
            ids,
        );
        assert(condition_name(fragment) == Some(name));
        lemma_made_up_cast(
            w,
            path,
            context,
            fragment,
            after_cast(ids),
            (a - 1) as nat,
            (b - 1) as nat,
        );
    }
}

proof fn lemma_casts(
    w: World,
    path: PathView,
    tail: NodeView,
    position: CompositeView,
    fragment: InlineFragmentView,
    context: ContextView,
    names: Seq<Text>,
    ids: Ids,
    a: nat,
    b: nat,
    n: nat,
)
    requires
        a > 0,
        b > 0,
        n <= names.len(),
        has_casts(w, path, names),
    ensures
        casts_to_objects(w, path, tail, position, fragment, context, names, ids, a, n)
            == casts_to_objects(w, path, tail, position, fragment, context, names, ids, b, n),
    decreases n,
{
    reveal(casts_to_objects);
    reveal(cast_to_object);
    if n > 0 {
        let last = (n - 1) as nat;
        lemma_casts(w, path, tail, position, fragment, context, names, ids, a, b, last);
        if let Ok((Some(_), before)) = casts_to_objects(
            w,
            path,
            tail,
            position,
            fragment,
            context,
            names,
            ids,
            a,
            last,
        ) {
            lemma_cast(
                w,
                path,
                tail,
                position,
                fragment.directives,
                context,
                names[n - 1],
                before,
                a,
                b,
            );
        }
    }
}

proof fn lemma_meet(a: Seq<Text>, b: Seq<Text>, n: nat, i: int)
    requires
        n <= a.len(),
        0 <= i < set_meet(a, b, n).len(),
    ensures
        a.contains(set_meet(a, b, n)[i]),
    decreases n,
{
    if n > 0 {
        let before = set_meet(a, b, (n - 1) as nat);
        if i < before.len() {
            lemma_meet(a, b, (n - 1) as nat, i);
        } else {
            assert(a[n - 1] == set_meet(a, b, n)[i]);
        }
    }
}

proof fn lemma_common_casts(w: World, path: PathView, wanted: Text)
    requires
        has_casts(w, path, path.runtime_types_of_tail),
    ensures
        common_types(w, path, wanted) matches Ok(names) ==> has_casts(w, path, names),
{
    if let Ok(names) = common_types(w, path, wanted) {
        assert forall|i: int| 0 <= i < names.len() implies edge_for_cast(
            w.graph,
            path.tail,
            Some(#[trigger] names[i]),
        ) is Some by {
            let all = path.runtime_types_of_tail;
            let others = choose|others: Seq<Text>| names == set_meet(all, others, all.len());
            lemma_meet(all, others, all.len(), i);
            let k = choose|k: int| 0 <= k < all.len() && all[k] == names[i];
            assert(edge_for_cast(w.graph, path.tail, Some(all[k])) is Some);
        }
    }
}

proof fn lemma_fragment_on_abstract(
    w: World,
    path: PathView,
    tail: NodeView,
    position: CompositeView,
    fragment: InlineFragmentView,
    wanted: Text,
    context: ContextView,
    ids: Ids,
    a: nat,
    b: nat,
)
    requires
        a > 0,
        b > 0,
        has_casts(w, path, path.runtime_types_of_tail),
    ensures
        fragment_on_abstract(w, path, tail, position, fragment, wanted, context, ids, a)
            == fragment_on_abstract(w, path, tail, position, fragment, wanted, context, ids, b),
{
    reveal(fragment_on_abstract);
    reveal(casts_to_objects);
    lemma_common_casts(w, path, wanted);
    if let Ok(names) = common_types(w, path, wanted) {
        lemma_casts(
            w,
            path,
            tail,
            position,
            fragment,
            context,
            names,
            ids,
            a,
            b,
            names.len(),
        );
    }
}

proof fn lemma_fragment(
    w: World,
    path: PathView,
    fragment: InlineFragmentView,
    context: ContextView,
    ids: Ids,
    a: nat,
    b: nat,
)
    requires
        a > 0,
        b > 0,
        can_be_taken_apart(w, path),
    ensures
        advanced_path(w, path, ElementView::InlineFragment(fragment), context, ids, a)
            == advanced_path(w, path, ElementView::InlineFragment(fragment), context, ids, b),
{
    reveal(advanced_path);
    reveal(advanced_with_fragment);
    reveal(fragment_on_abstract);
    if let Ok(tail) = node_weight(w.graph, path.tail) {
        if let NodeTypeView::SchemaType(position) = tail.type_ {
            let wanted = wanted_type(fragment, position);
            match position {
                PositionView::Interface(name) => {
                    lemma_fragment_on_abstract(
                        w,
                        path,
                        tail,
                        CompositeView::Interface(name),
                        fragment,
                        wanted,
                        context,
                        ids,
                        a,
                        b,
                    );
                },
                PositionView::Union(name) => {
                    lemma_fragment_on_abstract(
                        w,
                        path,
                        tail,
                        CompositeView::Union(name),
                        fragment,
                        wanted,
                        context,
                        ids,
                        a,
                        b,
                    );
                },
                _ => {},
            }
        }
    }
}

// Fields.

/// Whether the direct options of a path for an element do not depend on whether `a` or `b` casts are
/// allowed.
spec fn path_agrees(
    w: World,
    path: PathView,
    element: ElementView,
    context: ContextView,
    a: nat,
    b: nat,
) -> bool {
    forall|ids: Ids|
        #![trigger advanced_path(w, path, element, context, ids, a)]
        #![trigger advanced_path(w, path, element, context, ids, b)]
        advanced_path(w, path, element, context, ids, a) == advanced_path(
            w,
            path,
            element,
            context,
            ids,
            b,
        )
}

proof fn lemma_indirect(
    w: World,
    paths: Seq<PathView>,
    element: ElementView,
    context: ContextView,
    ids: Ids,
    direct: Seq<SimultaneousView>,
    n: nat,
    a: nat,
    b: nat,
)
    requires
        n <= paths.len(),
        forall|i: int|
            0 <= i < paths.len() ==> path_agrees(w, #[trigger] paths[i], element, context, a, b),
    ensures
        indirect_options(w, paths, element, context, ids, a, direct, n) == indirect_options(
            w,
            paths,
            element,
            context,
            ids,
            b,
            direct,
            n,
        ),
    decreases n,
{
    if n > 0 {
        let path = paths[n - 1];
        lemma_indirect(w, paths, element, context, ids, direct, (n - 1) as nat, a, b);
        assert(path_agrees(w, path, element, context, a, b));
        if let Ok((_, before)) = indirect_options(
            w,
            paths,
            element,
            context,
            ids,
            a,
            direct,
            (n - 1) as nat,
        ) {
            assert(advanced_path(w, path, element, context, before, a) == advanced_path(
                w,
                path,
                element,
                context,
                before,
                b,
            ));
        }
    }
    reveal(indirect_options);
    reveal(advanced_path);
}

/// Whether neither a path nor those that lengthen it without collecting anything depend on whether
/// `a` or `b` casts are allowed.
spec fn paths_agree(
    w: World,
    lazy: LazyView,
    path: PathView,
    field: FieldElementView,
    context: ContextView,
    a: nat,
    b: nat,
) -> bool {
    &&& path_agrees(w, path, ElementView::Field(field), context, a, b)
    &&& match indirect_for(w, lazy, path, field) {
        Ok(paths) => forall|i: int|
            0 <= i < paths.len() ==> path_agrees(
                w,
                #[trigger] paths[i],
                ElementView::Field(field),
                context,
                a,
                b,
            ),
        Err(_) => true,
    }
}

#[verifier::spinoff_prover]
#[verifier::rlimit(40)]
proof fn lemma_with_indirect(
    w: World,
    lazy: LazyView,
    path: PathView,
    field: FieldElementView,
    context: ContextView,
    ids: Ids,
    direct: Seq<SimultaneousView>,
    a: nat,
    b: nat,
)
    requires
        paths_agree(w, lazy, path, field, context, a, b),
    ensures
        with_indirect(w, lazy, path, ElementView::Field(field), context, ids, a, direct)
            == with_indirect(w, lazy, path, ElementView::Field(field), context, ids, b, direct),
{
    if let Ok(paths) = indirect_for(w, lazy, path, field) {
        let element = ElementView::Field(field);
        lemma_indirect(w, paths, element, context, ids, direct, paths.len(), a, b);
        if let Ok((_, after)) = indirect_options(
            w,
            paths,
            element,
            context,
            ids,
            a,
            direct,
            paths.len(),
        ) {
            assert(advanced_path(w, path, element, context, after, a) == advanced_path(
                w,
                path,
                element,
                context,
                after,
                b,
            ));
        }
    }
    reveal(with_indirect);
    reveal(indirect_options);
    reveal(advanced_path);
}

#[verifier::spinoff_prover]
#[verifier::rlimit(40)]
proof fn lemma_options_of_field(
    w: World,
    lazy: LazyView,
    path: PathView,
    field: FieldElementView,
    context: ContextView,
    ids: Ids,
    a: nat,
    b: nat,
)
    requires
        paths_agree(w, lazy, path, field, context, a, b),
    ensures
        options_of_path(w, lazy, path, ElementView::Field(field), context, ids, a)
            == options_of_path(w, lazy, path, ElementView::Field(field), context, ids, b),
{
    reveal(options_of_path);
    reveal(with_indirect);
    reveal(advanced_path);
    let element = ElementView::Field(field);
    lemma_with_indirect(w, lazy, path, field, context, ids, Seq::empty(), a, b);
    match advanced_path(w, path, element, context, ids, a) {
        Ok(((None, _), after)) => {
            lemma_with_indirect(w, lazy, path, field, context, after, Seq::empty(), a, b);
        },
        Ok(((Some(options), _), after)) => {
            lemma_with_indirect(w, lazy, path, field, context, after, options, a, b);
        },
        Err(_) => {},
    }
}

/// Whether the options of a path for an element do not depend on whether `a` or `b` casts are
/// allowed.
spec fn options_agree(
    w: World,
    lazy: LazyView,
    path: PathView,
    element: ElementView,
    context: ContextView,
    a: nat,
    b: nat,
) -> bool {
    forall|ids: Ids|
        #![trigger options_of_path(w, lazy, path, element, context, ids, a)]
        #![trigger options_of_path(w, lazy, path, element, context, ids, b)]
        options_of_path(w, lazy, path, element, context, ids, a) == options_of_path(
            w,
            lazy,
            path,
            element,
            context,
            ids,
            b,
        )
}

proof fn lemma_options_of_paths(
    w: World,
    lazy: LazyView,
    element: ElementView,
    context: ContextView,
    ids: Ids,
    n: nat,
    a: nat,
    b: nat,
)
    requires
        n <= lazy.paths.paths.len(),
        forall|i: int|
            0 <= i < lazy.paths.paths.len() ==> options_agree(
                w,
                lazy,
                #[trigger] lazy.paths.paths[i],
                element,
                context,
                a,
                b,
            ),
    ensures
        options_of_paths(w, lazy, element, context, ids, a, n) == options_of_paths(
            w,
            lazy,
            element,
            context,
            ids,
            b,
            n,
        ),
    decreases n,
{
    if n > 0 {
        lemma_options_of_paths(w, lazy, element, context, ids, (n - 1) as nat, a, b);
        let path = lazy.paths.paths[n - 1];
        assert(options_agree(w, lazy, path, element, context, a, b));
        if let Ok((_, before)) = options_of_paths(
            w,
            lazy,
            element,
            context,
            ids,
            a,
            (n - 1) as nat,
        ) {
            assert(options_of_path(w, lazy, path, element, context, before, a) == options_of_path(
                w,
                lazy,
                path,
                element,
                context,
                before,
                b,
            ));
        }
    }
    reveal(options_of_paths);
    reveal(options_of_path);
}

proof fn lemma_advanced(
    w: World,
    lazy: LazyView,
    element: ElementView,
    ids: Ids,
    a: nat,
    b: nat,
)
    requires
        context_with(lazy.context, element) matches Ok(context) ==> forall|i: int|
            0 <= i < lazy.paths.paths.len() ==> options_agree(
                w,
                lazy,
                #[trigger] lazy.paths.paths[i],
                element,
                context,
                a,
                b,
            ),
    ensures
        advanced(w, lazy, element, ids, a) == advanced(w, lazy, element, ids, b),
{
    reveal(advanced);
    reveal(options_of_paths);
    if let Ok(context) = context_with(lazy.context, element) {
        lemma_options_of_paths(w, lazy, element, context, ids, lazy.paths.paths.len(), a, b);
    }
}

proof fn lemma_direct_path(
    w: World,
    path: PathView,
    field: FieldElementView,
    context: ContextView,
    a: nat,
    b: nat,
)
    requires
        interface_at(w, path) is None,
    ensures
        path_agrees(w, path, ElementView::Field(field), context, a, b),
{
    reveal(advanced_path);
    reveal(advanced_with_field);
}

proof fn lemma_collects_directly(
    w: World,
    lazy: LazyView,
    field: FieldElementView,
    ids: Ids,
    a: nat,
    b: nat,
)
    requires
        collects_directly(w, lazy, field),
    ensures
        advanced(w, lazy, ElementView::Field(field), ids, a) == advanced(
            w,
            lazy,
            ElementView::Field(field),
            ids,
            b,
        ),
{
    let element = ElementView::Field(field);
    if let Ok(context) = context_with(lazy.context, element) {
        assert forall|i: int| 0 <= i < lazy.paths.paths.len() implies options_agree(
            w,
            lazy,
            #[trigger] lazy.paths.paths[i],
            element,
            context,
            a,
            b,
        ) by {
            let path = lazy.paths.paths[i];
            lemma_direct_path(w, path, field, context, a, b);
            if let Ok(paths) = indirect_for(w, lazy, path, field) {
                assert(without_interfaces(w, paths));
                assert forall|k: int| 0 <= k < paths.len() implies path_agrees(
                    w,
                    #[trigger] paths[k],
                    element,
                    context,
                    a,
                    b,
                ) by {
                    lemma_direct_path(w, paths[k], field, context, a, b);
                }
            }
            assert forall|some: Ids|
                options_of_path(w, lazy, path, element, context, some, a) == options_of_path(
                    w,
                    lazy,
                    path,
                    element,
                    context,
                    some,
                    b,
                ) by {
                lemma_options_of_field(w, lazy, path, field, context, some, a, b);
            }
        }
    }
    lemma_advanced(w, lazy, element, ids, a, b);
}

proof fn lemma_collected(
    w: World,
    casts: Seq<LazyView>,
    field: FieldElementView,
    ids: Ids,
    n: nat,
    a: nat,
    b: nat,
)
    requires
        a > 0,
        b > 0,
        n <= casts.len(),
        all_collect_directly(w, casts, field),
    ensures
        collected(w, casts, ElementView::Field(field), ids, a, n) == collected(
            w,
            casts,
            ElementView::Field(field),
            ids,
            b,
            n,
        ),
    decreases n,
{
    reveal(collected);
    reveal(advanced);
    if n > 0 {
        let element = ElementView::Field(field);
        lemma_collected(w, casts, field, ids, (n - 1) as nat, a, b);
        if let Ok((_, before)) = collected(w, casts, element, ids, a, (n - 1) as nat) {
            lemma_collects_directly(
                w,
                casts[n - 1],
                field,
                before,
                (a - 1) as nat,
                (b - 1) as nat,
            );
        }
    }
}

#[verifier::spinoff_prover]
#[verifier::rlimit(40)]
proof fn lemma_field_of_object(
    w: World,
    path: PathView,
    tail: NodeView,
    interface: Text,
    field: FieldElementView,
    context: ContextView,
    name: Text,
    ids: Ids,
    a: nat,
    b: nat,
)
    requires
        a > 0,
        b > 0,
        interface_at(w, path) == Some((tail, interface)),
        takes_one_cast(w, path, field, context),
        edge_for_cast(w.graph, path.tail, Some(name)) is Some,
    ensures
        field_of_object(
            w,
            path,
            tail,
            interface,
            ElementView::Field(field),
            context,
            name,
            ids,
            a,
        ) == field_of_object(
            w,
            path,
            tail,
            interface,
            ElementView::Field(field),
            context,
            name,
            ids,
            b,
        ),
{
    let position = CompositeView::Interface(interface);
    lemma_cast(w, path, tail, position, Seq::empty(), context, name, ids, a, b);
    lemma_cast(w, path, tail, position, Seq::empty(), context, name, ids, a, 1);
    if let Ok((Some(casts), after)) = cast_to_object(
        w,
        path,
        tail,
        position,
        Seq::empty(),
        context,
        name,
        ids,
        1,
    ) {
        assert(all_collect_directly(w, casts, field));
        lemma_collected(w, casts, field, after, casts.len(), a, b);
    }
    reveal(field_of_object);
    reveal(cast_to_object);
    reveal(collected);
}

#[verifier::spinoff_prover]
#[verifier::rlimit(40)]
proof fn lemma_fields_of_objects(
    w: World,
    path: PathView,
    tail: NodeView,
    interface: Text,
    field: FieldElementView,
    context: ContextView,
    names: Seq<Text>,
    ids: Ids,
    n: nat,
    a: nat,
    b: nat,
)
    requires
        a > 0,
        b > 0,
        n <= names.len(),
        interface_at(w, path) == Some((tail, interface)),
        takes_one_cast(w, path, field, context),
        has_casts(w, path, names),
    ensures
        fields_of_objects(
            w,
            path,
            tail,
            interface,
            ElementView::Field(field),
            context,
            names,
            ids,
            a,
            n,
        ) == fields_of_objects(
            w,
            path,
            tail,
            interface,
            ElementView::Field(field),
            context,
            names,
            ids,
            b,
            n,
        ),
    decreases n,
{
    if n > 0 {
        let element = ElementView::Field(field);
        let last = (n - 1) as nat;
        lemma_fields_of_objects(
            w,
            path,
            tail,
            interface,
            field,
            context,
            names,
            ids,
            last,
            a,
            b,
        );
        if let Ok((Some(_), before)) = fields_of_objects(
            w,
            path,
            tail,
            interface,
            element,
            context,
            names,
            ids,
            a,
            last,
        ) {
            let name = names[n - 1];
            assert(edge_for_cast(w.graph, path.tail, Some(name)) is Some);
            lemma_field_of_object(w, path, tail, interface, field, context, name, before, a, b);
        }
    }
    reveal(fields_of_objects);
    reveal(field_of_object);
}

proof fn lemma_implementations(w: World, path: PathView, interface: Text, field: FieldElementView)
    requires
        has_casts(w, path, path.runtime_types_of_tail),
    ensures
        implementations(path, interface, field) matches Ok(names) ==> has_casts(w, path, names),
{
    if let Ok(names) = implementations(path, interface, field) {
        assert forall|i: int| 0 <= i < names.len() implies edge_for_cast(
            w.graph,
            path.tail,
            Some(#[trigger] names[i]),
        ) is Some by {
            let all = path.runtime_types_of_tail;
            assert(all.contains(names[i]));
            let k = choose|k: int| 0 <= k < all.len() && all[k] == names[i];
            assert(edge_for_cast(w.graph, path.tail, Some(all[k])) is Some);
        }
    }
}

proof fn lemma_start(
    w: World,
    path: PathView,
    tail: NodeView,
    interface: Text,
    field: FieldElementView,
    context: ContextView,
)
    requires
        has_casts(w, path, path.runtime_types_of_tail),
    ensures
        interface_start(w, path, tail, interface, field, context) matches Ok(start) ==> start.done
            || has_casts(w, path, start.names),
{
    lemma_implementations(w, path, interface, field);
    reveal(interface_start);
}

#[verifier::spinoff_prover]
#[verifier::rlimit(40)]
proof fn lemma_field_on_interface(
    w: World,
    path: PathView,
    tail: NodeView,
    interface: Text,
    field: FieldElementView,
    context: ContextView,
    ids: Ids,
    a: nat,
    b: nat,
)
    requires
        a > 0,
        b > 0,
        interface_at(w, path) == Some((tail, interface)),
        takes_one_cast(w, path, field, context),
    ensures
        field_on_interface(w, path, tail, interface, field, context, ids, a) == field_on_interface(
            w,
            path,
            tail,
            interface,
            field,
            context,
            ids,
            b,
        ),
{
    lemma_start(w, path, tail, interface, field, context);
    if let Ok(start) = interface_start(w, path, tail, interface, field, context) {
        if !start.done {
            lemma_fields_of_objects(
                w,
                path,
                tail,
                interface,
                field,
                context,
                start.names,
                ids,
                start.names.len(),
                a,
                b,
            );
        }
    }
    reveal(field_on_interface);
    reveal(fields_of_objects);
}

#[verifier::spinoff_prover]
#[verifier::rlimit(40)]
proof fn lemma_with_field(
    w: World,
    path: PathView,
    tail: NodeView,
    interface: Text,
    field: FieldElementView,
    context: ContextView,
    ids: Ids,
    a: nat,
    b: nat,
)
    requires
        a > 0,
        b > 0,
        interface_at(w, path) == Some((tail, interface)),
        takes_one_cast(w, path, field, context),
    ensures
        advanced_with_field(
            w,
            path,
            tail,
            PositionView::Interface(interface),
            field,
            context,
            ids,
            a,
        ) == advanced_with_field(
            w,
            path,
            tail,
            PositionView::Interface(interface),
            field,
            context,
            ids,
            b,
        ),
{
    lemma_field_on_interface(w, path, tail, interface, field, context, ids, a, b);
    reveal(advanced_with_field);
    reveal(field_on_interface);
}

#[verifier::spinoff_prover]
#[verifier::rlimit(40)]
proof fn lemma_field(
    w: World,
    path: PathView,
    field: FieldElementView,
    context: ContextView,
    ids: Ids,
    a: nat,
    b: nat,
)
    requires
        a > 0,
        b > 0,
        takes_one_cast(w, path, field, context),
    ensures
        advanced_path(w, path, ElementView::Field(field), context, ids, a) == advanced_path(
            w,
            path,
            ElementView::Field(field),
            context,
            ids,
            b,
        ),
{
    match interface_at(w, path) {
        None => {
            lemma_direct_path(w, path, field, context, a, b);
        },
        Some((tail, interface)) => {
            lemma_with_field(w, path, tail, interface, field, context, ids, a, b);
            reveal(advanced_path);
            reveal(advanced_with_field);
        },
    }
}

/// One cast after another is enough where every abstract type can be taken apart and the fields are
/// collected directly behind the casts: allowing more changes nothing.
pub proof fn law_one_cast_is_enough(
    w: World,
    lazy: LazyView,
    element: ElementView,
    ids: Ids,
    budget: nat,
)
    requires
        budget > 0,
        casts_once(w, lazy, element),
    ensures
        advanced(w, lazy, element, ids, budget) == advanced(w, lazy, element, ids, 1),
{
    if let Ok(context) = context_with(lazy.context, element) {
        assert forall|i: int| 0 <= i < lazy.paths.paths.len() implies options_agree(
            w,
            lazy,
            #[trigger] lazy.paths.paths[i],
            element,
            context,
            budget,
            1,
        ) by {
            let path = lazy.paths.paths[i];
            match element {
                ElementView::InlineFragment(fragment) => {
                    assert forall|some: Ids|
                        options_of_path(w, lazy, path, element, context, some, budget)
                            == options_of_path(w, lazy, path, element, context, some, 1) by {
                        assert(can_be_taken_apart(w, path));
                        lemma_fragment(w, path, fragment, context, some, budget, 1);
                        lemma_options_of_fragment(
                            w,
                            lazy,
                            path,
                            fragment,
                            context,
                            some,
                            budget,
                            1,
                        );
                    }
                },
                ElementView::Field(field) => {
                    assert(takes_one_cast(w, path, field, context));
                    assert(path_agrees(w, path, element, context, budget, 1)) by {
                        assert forall|some: Ids|
                            advanced_path(w, path, element, context, some, budget)
                                == advanced_path(w, path, element, context, some, 1) by {
                            lemma_field(w, path, field, context, some, budget, 1);
                        }
                    }
                    if let Ok(paths) = indirect_for(w, lazy, path, field) {
                        assert(all_take_one_cast(w, paths, field, context));
                        assert forall|k: int| 0 <= k < paths.len() implies path_agrees(
                            w,
                            #[trigger] paths[k],
                            element,
                            context,
                            budget,
                            1,
                        ) by {
                            assert(takes_one_cast(w, paths[k], field, context));
                            assert forall|some: Ids|
                                advanced_path(w, paths[k], element, context, some, budget)
                                    == advanced_path(w, paths[k], element, context, some, 1) by {
                                lemma_field(w, paths[k], field, context, some, budget, 1);
                            }
                        }
                    }
                    assert forall|some: Ids|
                        options_of_path(w, lazy, path, element, context, some, budget)
                            == options_of_path(w, lazy, path, element, context, some, 1) by {
                        lemma_options_of_field(w, lazy, path, field, context, some, budget, 1);
                    }
                },
            }
        }
    }
    lemma_advanced(w, lazy, element, ids, budget, 1);
}

// Casts that the graph does not have.

/// Whether a path ends at an abstract type that can be an object there for which the graph has no
/// cast.
pub open spec fn lacks_cast(w: World, path: PathView, name: Text) -> bool {
    &&& ends_at_abstract(w, path)
    &&& path.runtime_types_of_tail.contains(name)
    &&& edge_for_cast(w.graph, path.tail, Some(name)) is None
    &&& get_type(w.supergraph, name) == Ok::<PositionView, ErrorView>(PositionView::Object(name))
    &&& match node_weight(w.graph, path.tail) {
        Ok(tail) => source_of(w.graph, tail.source) is Ok && match tail.type_ {
            NodeTypeView::SchemaType(position) => position_name(position) != name,
            NodeTypeView::FederatedRootType(_) => false,
        },
        Err(_) => false,
    }
}

/// Whether a fragment is a plain cast to the given type.
pub open spec fn is_plain_cast(fragment: InlineFragmentView, name: Text) -> bool {
    condition_name(fragment) == Some(name) && fragment.directives.len() == 0
}

proof fn lemma_plain_context(context: ContextView, fragment: InlineFragmentView)
    requires
        fragment.directives.len() == 0,
    ensures
        context_with(context, ElementView::InlineFragment(fragment)) == Ok::<
            ContextView,
            ErrorView,
        >(context),
{
    let element = ElementView::InlineFragment(fragment);
    let none = Seq::<ConditionalView>::empty();
    assert(element_conditionals(element) == Ok::<Seq<ConditionalView>, ErrorView>(none));
    assert(none + context.conditionals =~= context.conditionals);
}

proof fn lemma_meet_of_one(s: Seq<Text>, name: Text, n: nat)
    requires
        n <= s.len(),
    ensures
        forall|i: int|
            0 <= i < set_meet(s, seq![name], n).len() ==> #[trigger] set_meet(s, seq![name], n)[i]
                == name,
        s.take(n as int).contains(name) ==> set_meet(s, seq![name], n).len() > 0,
    decreases n,
{
    if n > 0 {
        lemma_meet_of_one(s, name, (n - 1) as nat);
        let last = s[n - 1];
        assert(seq![name].contains(last) == (last == name)) by {
            assert(seq![name][0] == name);
        }
        if s.take(n as int).contains(name) && last != name {
            let k = choose|k: int| 0 <= k < n && s.take(n as int)[k] == name;
            assert(s.take(n - 1)[k] == name);
        }
        let before = set_meet(s, seq![name], (n - 1) as nat);
        if last == name && before.contains(last) {
            assert(before.len() > 0);
        }
    }
}

proof fn lemma_no_casts(
    w: World,
    path: PathView,
    tail: NodeView,
    position: CompositeView,
    fragment: InlineFragmentView,
    context: ContextView,
    names: Seq<Text>,
    name: Text,
    ids: Ids,
    budget: nat,
    n: nat,
)
    requires
        1 <= n <= names.len(),
        names[0] == name,
        cast_to_object(w, path, tail, position, fragment.directives, context, name, ids, budget)
            == Err::<(Option<Seq<LazyView>>, Ids), ErrorView>(nested_too_deep()),
    ensures
        casts_to_objects(w, path, tail, position, fragment, context, names, ids, budget, n) == Err::<
            (Option<Seq<Seq<SimultaneousView>>>, Ids),
            ErrorView,
        >(nested_too_deep()),
    decreases n,
{
    if n > 1 {
        let last = (n - 1) as nat;
        lemma_no_casts(
            w,
            path,
            tail,
            position,
            fragment,
            context,
            names,
            name,
            ids,
            budget,
            last,
        );
    }
    reveal_with_fuel(casts_to_objects, 2);
    reveal(cast_to_object);
}

proof fn lemma_no_cast_on_abstract(
    w: World,
    path: PathView,
    tail: NodeView,
    position: CompositeView,
    fragment: InlineFragmentView,
    context: ContextView,
    name: Text,
    ids: Ids,
    budget: nat,
)
    requires
        lacks_cast(w, path, name),
        is_plain_cast(fragment, name),
        cast_to_object(w, path, tail, position, fragment.directives, context, name, ids, budget)
            == Err::<(Option<Seq<LazyView>>, Ids), ErrorView>(nested_too_deep()),
    ensures
        fragment_on_abstract(w, path, tail, position, fragment, name, context, ids, budget) is Err,
        fragment_on_abstract(w, path, tail, position, fragment, name, context, ids, budget)->Err_0
            == nested_too_deep(),
{
    let all = path.runtime_types_of_tail;
    lemma_meet_of_one(all, name, all.len());
    assert(all.take(all.len() as int) =~= all);
    let names = set_meet(all, seq![name], all.len());
    assert(common_types(w, path, name) == Ok::<Seq<Text>, ErrorView>(names));
    assert(names[0] == name);
    lemma_no_casts(
        w,
        path,
        tail,
        position,
        fragment,
        context,
        names,
        name,
        ids,
        budget,
        names.len(),
    );
    reveal(fragment_on_abstract);
    reveal(casts_to_objects);
}

/// Where the graph lacks the cast to an object type, the cast is made up again and again: no number
/// of casts is enough.
pub proof fn law_without_a_cast_no_number_is_enough(
    w: World,
    path: PathView,
    fragment: InlineFragmentView,
    name: Text,
    context: ContextView,
    ids: Ids,
    budget: nat,
)
    requires
        lacks_cast(w, path, name),
        is_plain_cast(fragment, name),
    ensures
        advanced(w, lazy_path(path, context), ElementView::InlineFragment(fragment), ids, budget)
            == Err::<(Option<Seq<LazyView>>, Ids), ErrorView>(nested_too_deep()),
    decreases budget,
{
    let element = ElementView::InlineFragment(fragment);
    let lazy = lazy_path(path, context);
    lemma_plain_context(context, fragment);
    if let Ok(tail) = node_weight(w.graph, path.tail) {
        if let NodeTypeView::SchemaType(at) = tail.type_ {
            let position = match at {
                PositionView::Interface(own) => CompositeView::Interface(own),
                _ => CompositeView::Union(position_name(at)),
            };
            if let Ok(subgraph) = source_of(w.graph, tail.source) {
                if budget > 0 {
                    let again = made_up_cast(
                        subgraph.schema,
                        position,
                        Some(CompositeView::Object(name)),
                        fragment.directives,
                        ids,
                    );
                    law_without_a_cast_no_number_is_enough(
                        w,
                        path,
                        again,
                        name,
                        context,
                        after_cast(ids),
                        (budget - 1) as nat,
                    );
                }
                assert(cast_to_object(
                    w,
                    path,
                    tail,
                    position,
                    fragment.directives,
                    context,
                    name,
                    ids,
                    budget,
                ) == Err::<(Option<Seq<LazyView>>, Ids), ErrorView>(nested_too_deep())) by {
                    reveal(cast_to_object);
                    reveal(advanced);
                }
                lemma_no_cast_on_abstract(
                    w,
                    path,
                    tail,
                    position,
                    fragment,
                    context,
                    name,
                    ids,
                    budget,
                );
                assert(advanced_path(w, path, element, context, ids, budget) is Err && advanced_path(
                    w,
                    path,
                    element,
                    context,
                    ids,
                    budget,
                )->Err_0 == nested_too_deep()) by {
                    reveal(advanced_path);
                    reveal(advanced_with_fragment);
                    reveal(fragment_on_abstract);
                }
                assert(options_of_path(w, lazy, path, element, context, ids, budget) is Err
                    && options_of_path(w, lazy, path, element, context, ids, budget)->Err_0
                    == nested_too_deep()) by {
                    reveal(options_of_path);
                    reveal(advanced_path);
                }
                reveal_with_fuel(options_of_paths, 2);
                reveal(options_of_path);
                reveal(advanced);
                assert(lazy.paths.paths.len() == 1);
                assert(lazy.paths.paths[0] == path);
            }
        }
    }
}

} // verus!
