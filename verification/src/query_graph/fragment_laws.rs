//! Where fragments lead.

use crate::ast::DirectiveView;
use crate::collections::has_key;
use crate::collections::lemma_key_index;
use crate::collections::value_of;
use crate::collections::Entries;
use crate::error::ErrorView;
use crate::merge::directives::first_directive;
use crate::operation::condition_name;
use crate::operation::rebase::types_intersect;
use crate::operation::InlineFragmentView;
use crate::query_graph::advance::advanced;
use crate::query_graph::advance::advanced_path;
use crate::query_graph::advance::advanced_with_fragment;
use crate::query_graph::advance::after_cast;
use crate::query_graph::advance::casts_to_objects;
use crate::query_graph::advance::cast_to_object;
use crate::query_graph::advance::common_types;
use crate::query_graph::advance::fragment_on_abstract;
use crate::query_graph::advance::fragment_on_object;
use crate::query_graph::advance::lazy_path;
use crate::query_graph::advance::made_up_cast;
use crate::query_graph::advance::options_of_path;
use crate::query_graph::advance::options_of_paths;
use crate::query_graph::advance::with_indirect;
use crate::query_graph::advance::Ids;
use crate::query_graph::advance::PathOptions;
use crate::query_graph::advance::World;
use crate::query_graph::edge_for_cast;
use crate::query_graph::elements::context_with;
use crate::query_graph::elements::ConditionalView;
use crate::query_graph::elements::ContextView;
use crate::query_graph::elements::ElementView;
use crate::query_graph::graph_path::PathView;
use crate::query_graph::graph_path::SimultaneousView;
use crate::query_graph::is_interface_object;
use crate::query_graph::nesting_laws::can_be_taken_apart;
use crate::query_graph::nesting_laws::ends_at_abstract;
use crate::query_graph::nesting_laws::has_casts;
use crate::query_graph::node_weight;
use crate::query_graph::options::all_combinations;
use crate::query_graph::options::combination;
use crate::query_graph::options::combinations;
use crate::query_graph::set_meet;
use crate::query_graph::source_of;
use crate::query_graph::NodeTypeView;
use crate::query_graph::NodeView;
use crate::schema::position::composite_name;
use crate::schema::position::implementing_objects;
use crate::schema::position::position_name;
use crate::schema::position::runtime_types;
use crate::schema::position::CompositeView;
use crate::schema::position::PositionView;
use crate::schema::ExtendedTypeView;
use crate::schema::SchemaView;
use crate::text::Text;
use vstd::prelude::*;

verus! {

// Runtime types.

/// Whether a schema has an object type of the given name that implements an interface.
pub open spec fn implements(
    types: Entries<ExtendedTypeView>,
    object: Text,
    interface: Text,
    n: nat,
) -> bool {
    exists|i: int|
        0 <= i < n && (#[trigger] types[i]).0 == object && (types[i].1 matches
            ExtendedTypeView::Object(o) && o.implements_interfaces.contains(interface))
}

/// Whether an object can be of a type of a schema: it is the type, implements it or is a member of
/// it.
pub open spec fn can_be(schema: SchemaView, object: Text, name: Text) -> bool {
    match value_of(schema.types, name) {
        Some(ExtendedTypeView::Object(_)) => object == name,
        Some(ExtendedTypeView::Interface(_)) => implements(
            schema.types,
            object,
            name,
            schema.types.len(),
        ),
        Some(ExtendedTypeView::Union(u)) => u.members.contains(object),
        _ => false,
    }
}

proof fn lemma_implementing(
    types: Entries<ExtendedTypeView>,
    object: Text,
    interface: Text,
    n: nat,
)
    requires
        n <= types.len(),
    ensures
        implementing_objects(types, interface, n).contains(object) == implements(
            types,
            object,
            interface,
            n,
        ),
    decreases n,
{
    if n > 0 {
        let last = (n - 1) as nat;
        lemma_implementing(types, object, interface, last);
        let before = implementing_objects(types, interface, last);
        let after = implementing_objects(types, interface, n);
        let (name, ty) = types[n - 1];
        if after.contains(object) {
            let i = choose|i: int| 0 <= i < after.len() && after[i] == object;
            if i < before.len() {
                assert(before[i] == object);
            }
        }
        if before.contains(object) {
            let i = choose|i: int| 0 <= i < before.len() && before[i] == object;
            assert(after[i] == object);
        }
        if implements(types, object, interface, last) {
            let i = choose|i: int|
                0 <= i < last && (#[trigger] types[i]).0 == object && (types[i].1 matches
                    ExtendedTypeView::Object(o) && o.implements_interfaces.contains(interface));
            assert(types[i].0 == object);
        }
        if implements(types, object, interface, n) && !implements(types, object, interface, last) {
            assert(name == object);
            if !before.contains(object) {
                assert(after == before.push(object));
                assert(after[before.len() as int] == object);
            }
        }
        if ty is Object && ty->Object_0.implements_interfaces.contains(interface) && name == object {
            assert(types[n - 1].0 == object);
        }
    }
}

/// The runtime types of an abstract type are the objects that can be of it.
pub proof fn law_runtime_types(schema: SchemaView, name: Text, object: Text)
    ensures
        value_of(schema.types, name) matches Some(ExtendedTypeView::Interface(_)) ==> runtime_types(
            schema,
            CompositeView::Interface(name),
        ).contains(object) == can_be(schema, object, name),
        value_of(schema.types, name) matches Some(ExtendedTypeView::Union(_)) ==> runtime_types(
            schema,
            CompositeView::Union(name),
        ).contains(object) == can_be(schema, object, name),
        value_of(schema.types, name) matches Some(ExtendedTypeView::Object(_)) ==> runtime_types(
            schema,
            CompositeView::Object(name),
        ).contains(object) == can_be(schema, object, name),
{
    lemma_implementing(schema.types, object, name, schema.types.len());
    assert(seq![name][0] == name);
}

/// Whether a type is in a schema, of the kind that is said.
pub open spec fn is_in_schema(schema: SchemaView, position: CompositeView) -> bool {
    match value_of(schema.types, composite_name(position)) {
        Some(ExtendedTypeView::Object(_)) => position is Object,
        Some(ExtendedTypeView::Interface(_)) => position is Interface,
        Some(ExtendedTypeView::Union(_)) => position is Union,
        _ => false,
    }
}

/// Types intersect exactly if they are the same or some object can be of both.
pub proof fn law_types_intersect_in_an_object(schema: SchemaView, a: CompositeView, b: CompositeView)
    requires
        is_in_schema(schema, a),
        is_in_schema(schema, b),
    ensures
        types_intersect(schema, a, b) == (a == b || exists|object: Text|
            #[trigger] can_be(schema, object, composite_name(a)) && can_be(
                schema,
                object,
                composite_name(b),
            )),
{
    let x = runtime_types(schema, a);
    let y = runtime_types(schema, b);
    assert forall|object: Text|
        x.contains(object) == #[trigger] can_be(schema, object, composite_name(a)) by {
        law_runtime_types(schema, composite_name(a), object);
    }
    assert forall|object: Text|
        y.contains(object) == #[trigger] can_be(schema, object, composite_name(b)) by {
        law_runtime_types(schema, composite_name(b), object);
    }
    if a != b {
        if types_intersect(schema, a, b) {
            let i = choose|i: int| 0 <= i < x.len() && y.contains(#[trigger] x[i]);
            assert(x.contains(x[i]));
            assert(can_be(schema, x[i], composite_name(a)));
            assert(can_be(schema, x[i], composite_name(b)));
        }
        if exists|object: Text|
            #[trigger] can_be(schema, object, composite_name(a)) && can_be(
                schema,
                object,
                composite_name(b),
            ) {
            let object = choose|object: Text|
                #[trigger] can_be(schema, object, composite_name(a)) && can_be(
                    schema,
                    object,
                    composite_name(b),
                );
            assert(x.contains(object) && y.contains(object));
            let i = choose|i: int| 0 <= i < x.len() && x[i] == object;
            assert(y.contains(x[i]));
        }
    }
}

// Objects.

/// Whether a path ends at an object type.
pub open spec fn ends_at_object(w: World, path: PathView, object: Text) -> bool {
    node_weight(w.graph, path.tail) matches Ok(tail) && tail.type_ == NodeTypeView::SchemaType(
        PositionView::Object(object),
    )
}

/// Whether a fragment asks for a type.
pub open spec fn asks_for_type(fragment: InlineFragmentView, name: Text) -> bool {
    fragment.type_condition_position matches Some(position) && composite_name(position) == name
}

/// A path that ends at an object is not changed by a fragment without directives on an abstract
/// type of the supergraph that the object can be of: this is the one option.
pub proof fn law_fragment_that_always_holds_is_left_out(
    w: World,
    path: PathView,
    object: Text,
    fragment: InlineFragmentView,
    name: Text,
    context: ContextView,
    ids: Ids,
    budget: nat,
)
    requires
        ends_at_object(w, path, object),
        asks_for_type(fragment, name),
        fragment.directives.len() == 0,
        value_of(w.supergraph.types, name) matches Some(ty) && (ty is Interface || ty is Union),
        can_be(w.supergraph, object, name),
    ensures
        advanced_path(w, path, ElementView::InlineFragment(fragment), context, ids, budget)
            matches Ok(((Some(options), _), after)) && options == seq![
            SimultaneousView { paths: seq![path] },
        ] && after == ids,
{
    law_runtime_types(w.supergraph, name, object);
    reveal(advanced_path);
    reveal(advanced_with_fragment);
    reveal(fragment_on_object);
}

proof fn lemma_no_conditions(context: ContextView, fragment: InlineFragmentView)
    requires
        fragment.directives.len() == 0,
    ensures
        context_with(context, ElementView::InlineFragment(fragment)) == Ok::<ContextView, ErrorView>(
            context,
        ),
{
    assert(first_directive(fragment.directives, "skip"@) is None);
    assert(first_directive(fragment.directives, "include"@) is None);
    let none = Seq::<ConditionalView>::empty();
    assert(none + none =~= none);
    assert(none + context.conditionals =~= context.conditionals);
}

/// Advancing a path on its own past such a fragment gives the path on its own, with the context that
/// it had.
pub proof fn law_fragment_that_always_holds_changes_nothing(
    w: World,
    path: PathView,
    object: Text,
    fragment: InlineFragmentView,
    name: Text,
    context: ContextView,
    ids: Ids,
    budget: nat,
)
    requires
        ends_at_object(w, path, object),
        asks_for_type(fragment, name),
        fragment.directives.len() == 0,
        value_of(w.supergraph.types, name) matches Some(ty) && (ty is Interface || ty is Union),
        can_be(w.supergraph, object, name),
    ensures
        advanced(
            w,
            lazy_path(path, context),
            ElementView::InlineFragment(fragment),
            ids,
            budget,
        ) matches Ok((Some(options), after)) && options.len() == 1 && options[0].paths.paths == seq![
            path,
        ] && options[0].context == context && after == ids,
{
    let lazy = lazy_path(path, context);
    let element = ElementView::InlineFragment(fragment);
    law_fragment_that_always_holds_is_left_out(
        w,
        path,
        object,
        fragment,
        name,
        context,
        ids,
        budget,
    );
    lemma_no_conditions(context, fragment);
    reveal(advanced);
    reveal(options_of_path);
    reveal(with_indirect);
    reveal(advanced_path);
    reveal_with_fuel(options_of_paths, 2);
    assert(lazy.paths.paths.len() == 1);
    assert(lazy.paths.paths[0] == path);
    let found = seq![SimultaneousView { paths: seq![path] }];
    assert(options_of_path(w, lazy, path, element, context, ids, budget) == Ok::<
        (PathOptions, Ids),
        ErrorView,
    >((Some(found), ids)));
    let options = seq![found];
    assert(Seq::<Seq<SimultaneousView>>::empty().push(found) =~= options);
    assert(combinations(options, 0) == 1);
    assert(combinations(options, 1) == 1);
    reveal_with_fuel(combination, 2);
    assert(combination(options, 0) =~= seq![path]) by {
        assert(options[0] == found);
        assert(options.drop_first() =~= Seq::empty());
        assert(0nat % 1 == 0);
    }
    let all = all_combinations(options);
    assert(all.len() == 1 && all[0].paths == seq![path]);
}

/// A fragment leads nowhere from a path that ends at an object only if the object cannot be of the
/// type that it asks for, and where the object stands for no interface, exactly then.
pub proof fn law_fragment_on_another_object_leads_nowhere(
    w: World,
    path: PathView,
    object: Text,
    fragment: InlineFragmentView,
    name: Text,
    context: ContextView,
    ids: Ids,
    budget: nat,
)
    requires
        ends_at_object(w, path, object),
        asks_for_type(fragment, name),
        name != object,
    ensures
        advanced_path(w, path, ElementView::InlineFragment(fragment), context, ids, budget)
            matches Ok(((Some(options), _), _)) ==> {
            &&& options.len() <= 1
            &&& options.len() == 0 ==> !can_be(w.supergraph, object, name)
            &&& is_interface_object(w.graph, path.tail) == Ok::<bool, ErrorView>(false)
                && !can_be(w.supergraph, object, name) ==> options.len() == 0
        },
        advanced_path(w, path, ElementView::InlineFragment(fragment), context, ids, budget)
            matches Ok(((None, _), _)) ==> is_interface_object(w.graph, path.tail) == Ok::<
            bool,
            ErrorView,
        >(true) && !can_be(w.supergraph, object, name),
{
    law_runtime_types(w.supergraph, name, object);
    reveal(advanced_path);
    reveal(advanced_with_fragment);
    reveal(fragment_on_object);
}

// Abstract types.

proof fn lemma_nonempty(options: Seq<Seq<SimultaneousView>>, n: nat)
    requires
        n <= options.len(),
        forall|i: int| 0 <= i < n ==> (#[trigger] options[i]).len() > 0,
    ensures
        combinations(options, n) > 0,
    decreases n,
{
    if n > 0 {
        lemma_nonempty(options, (n - 1) as nat);
        let before = combinations(options, (n - 1) as nat);
        let last = options[n - 1].len();
        assert(before * last > 0) by (nonlinear_arith)
            requires
                before > 0,
                last > 0,
        ;
    }
}

proof fn lemma_with_edge(
    w: World,
    path: PathView,
    fragment: InlineFragmentView,
    context: ContextView,
    ids: Ids,
    budget: nat,
)
    requires
        ends_at_abstract(w, path),
        edge_for_cast(w.graph, path.tail, condition_name(fragment)) is Some,
    ensures
        advanced_path(w, path, ElementView::InlineFragment(fragment), context, ids, budget)
            matches Ok(((options, _), _)) ==> options is Some && options->0.len() == 1,
{
    reveal(advanced_path);
    reveal(advanced_with_fragment);
    reveal(fragment_on_abstract);
}

proof fn lemma_cast_is_found(
    w: World,
    path: PathView,
    tail: NodeView,
    position: CompositeView,
    directives: Seq<DirectiveView>,
    context: ContextView,
    name: Text,
    ids: Ids,
    budget: nat,
)
    requires
        ends_at_abstract(w, path),
        edge_for_cast(w.graph, path.tail, Some(name)) is Some,
    ensures
        cast_to_object(w, path, tail, position, directives, context, name, ids, budget) matches Ok(
            (Some(found), _),
        ) ==> found.len() > 0,
{
    reveal(cast_to_object);
    reveal(advanced);
    reveal(options_of_path);
    reveal(with_indirect);
    if budget > 0 {
        if let Ok(subgraph) = source_of(w.graph, tail.source) {
            let fragment = made_up_cast(
                subgraph.schema,
                position,
                Some(CompositeView::Object(name)),
                directives,
                ids,
            );
            assert(condition_name(fragment) == Some(name));
            let lazy = lazy_path(path, context);
            let element = ElementView::InlineFragment(fragment);
            let less = (budget - 1) as nat;
            if let Ok(inner) = context_with(lazy.context, element) {
                lemma_with_edge(w, path, fragment, inner, after_cast(ids), less);
                reveal_with_fuel(options_of_paths, 2);
                assert(lazy.paths.paths.len() == 1);
                assert(lazy.paths.paths[0] == path);
                if let Ok((Some(options), _)) = options_of_paths(
                    w,
                    lazy,
                    element,
                    inner,
                    after_cast(ids),
                    less,
                    1,
                ) {
                    assert(options.len() == 1 && options[0].len() > 0);
                    lemma_nonempty(options, 1);
                }
            }
        }
    }
}

proof fn lemma_casts_are_found(
    w: World,
    path: PathView,
    tail: NodeView,
    position: CompositeView,
    fragment: InlineFragmentView,
    context: ContextView,
    names: Seq<Text>,
    ids: Ids,
    budget: nat,
    n: nat,
)
    requires
        n <= names.len(),
        ends_at_abstract(w, path),
        has_casts(w, path, names),
    ensures
        casts_to_objects(w, path, tail, position, fragment, context, names, ids, budget, n)
            matches Ok((Some(options), _)) ==> options.len() == n && forall|i: int|
            0 <= i < n ==> (#[trigger] options[i]).len() > 0,
    decreases n,
{
    reveal(casts_to_objects);
    if n > 0 {
        let last = (n - 1) as nat;
        lemma_casts_are_found(w, path, tail, position, fragment, context, names, ids, budget, last);
        if let Ok((Some(_), before)) = casts_to_objects(
            w,
            path,
            tail,
            position,
            fragment,
            context,
            names,
            ids,
            budget,
            last,
        ) {
            assert(edge_for_cast(w.graph, path.tail, Some(names[n - 1])) is Some);
            lemma_cast_is_found(
                w,
                path,
                tail,
                position,
                fragment.directives,
                context,
                names[n - 1],
                before,
                budget,
            );
            reveal(cast_to_object);
        }
    }
}

proof fn lemma_meets(a: Seq<Text>, b: Seq<Text>, n: nat, name: Text)
    requires
        n <= a.len(),
    ensures
        set_meet(a, b, n).contains(name) == (a.take(n as int).contains(name) && b.contains(name)),
    decreases n,
{
    if n > 0 {
        lemma_meets(a, b, (n - 1) as nat, name);
        let before = set_meet(a, b, (n - 1) as nat);
        let after = set_meet(a, b, n);
        assert(a.take(n as int) =~= a.take(n - 1).push(a[n - 1]));
        let some = a.take(n - 1);
        let all = a.take(n as int);
        if some.contains(name) {
            let i = choose|i: int| 0 <= i < some.len() && some[i] == name;
            assert(all[i] == name);
        }
        assert(all[n - 1] == a[n - 1]);
        if before.contains(name) {
            let i = choose|i: int| 0 <= i < before.len() && before[i] == name;
            assert(after[i] == name);
        }
        if after.contains(name) {
            let i = choose|i: int| 0 <= i < after.len() && after[i] == name;
            if i < before.len() {
                assert(before[i] == name);
            }
        }
        if a[n - 1] == name && b.contains(name) && !before.contains(name) {
            assert(after == before.push(name));
            assert(after[before.len() as int] == name);
        }
    }
}

/// The object types that a path can have and that can be of a type of the supergraph.
proof fn lemma_common(w: World, path: PathView, name: Text, object: Text)
    ensures
        common_types(w, path, name) matches Ok(names) ==> names.contains(object) == (
        path.runtime_types_of_tail.contains(object) && can_be(w.supergraph, object, name)),
{
    let all = path.runtime_types_of_tail;
    law_runtime_types(w.supergraph, name, object);
    assert(all.take(all.len() as int) =~= all);
    if has_key(w.supergraph.types, name) {
        lemma_key_index(w.supergraph.types, name);
    }
    let ty = value_of(w.supergraph.types, name);
    if let Ok(names) = common_types(w, path, name) {
        match ty {
            Some(ExtendedTypeView::Interface(_)) => {
                lemma_meets(
                    all,
                    runtime_types(w.supergraph, CompositeView::Interface(name)),
                    all.len(),
                    object,
                );
            },
            Some(ExtendedTypeView::Union(_)) => {
                lemma_meets(
                    all,
                    runtime_types(w.supergraph, CompositeView::Union(name)),
                    all.len(),
                    object,
                );
            },
            Some(ExtendedTypeView::Object(_)) => {
                lemma_meets(
                    all,
                    runtime_types(w.supergraph, CompositeView::Object(name)),
                    all.len(),
                    object,
                );
            },
            _ => {},
        }
    }
}

/// Whether an object is among the types that a path can have at its end and can be of another
/// type.
pub open spec fn is_common(w: World, path: PathView, name: Text, object: Text) -> bool {
    path.runtime_types_of_tail.contains(object) && can_be(w.supergraph, object, name)
}

/// A fragment leads nowhere from a path that ends at an abstract type exactly if no object that
/// can be there can be of the type that it asks for, unless the graph has a cast to that type or
/// it is the type at the end: then there is one option.
pub proof fn law_fragment_on_abstract_type_leads_to_common_objects(
    w: World,
    path: PathView,
    tail: NodeView,
    position: PositionView,
    fragment: InlineFragmentView,
    name: Text,
    context: ContextView,
    ids: Ids,
    budget: nat,
)
    requires
        node_weight(w.graph, path.tail) == Ok::<NodeView, ErrorView>(tail),
        tail.type_ == NodeTypeView::SchemaType(position),
        position is Interface || position is Union,
        can_be_taken_apart(w, path),
        asks_for_type(fragment, name),
    ensures
        advanced_path(w, path, ElementView::InlineFragment(fragment), context, ids, budget)
            matches Ok(((Some(options), _), _)) ==> if name == position_name(position)
            || edge_for_cast(w.graph, path.tail, Some(name)) is Some {
            options.len() == 1
        } else {
            options.len() == 0 <==> forall|object: Text| !#[trigger] is_common(w, path, name, object)
        },
{
    if name != position_name(position) && edge_for_cast(w.graph, path.tail, Some(name)) is None {
        let composite = match position {
            PositionView::Interface(interface) => CompositeView::Interface(interface),
            PositionView::Union(union) => CompositeView::Union(union),
            _ => CompositeView::Object(name),
        };
        assert(ends_at_abstract(w, path));
        match common_types(w, path, name) {
            Err(_) => {},
            Ok(names) => {
                assert forall|object: Text|
                    #[trigger] is_common(w, path, name, object) == names.contains(object) by {
                    lemma_common(w, path, name, object);
                }
                if names.len() > 0 {
                    assert(names.contains(names[0]));
                    assert(is_common(w, path, name, names[0]));
                }
                assert(has_casts(w, path, names)) by {
                    assert forall|i: int| 0 <= i < names.len() implies edge_for_cast(
                        w.graph,
                        path.tail,
                        Some(#[trigger] names[i]),
                    ) is Some by {
                        assert(names.contains(names[i]));
                        assert(is_common(w, path, name, names[i]));
                        let all = path.runtime_types_of_tail;
                        let k = choose|k: int| 0 <= k < all.len() && all[k] == names[i];
                        assert(edge_for_cast(w.graph, path.tail, Some(all[k])) is Some);
                    }
                }
                lemma_casts_are_found(
                    w,
                    path,
                    tail,
                    composite,
                    fragment,
                    context,
                    names,
                    ids,
                    budget,
                    names.len(),
                );
                if let Ok((Some(options), _)) = casts_to_objects(
                    w,
                    path,
                    tail,
                    composite,
                    fragment,
                    context,
                    names,
                    ids,
                    budget,
                    names.len(),
                ) {
                    lemma_nonempty(options, options.len());
                }
            },
        }
    }
    reveal(advanced_path);
    reveal(advanced_with_fragment);
    reveal(fragment_on_abstract);
    reveal(casts_to_objects);
}

} // verus!
