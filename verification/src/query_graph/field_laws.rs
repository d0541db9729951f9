//! Where fields lead.

use crate::collections::value_of;
use crate::error::ErrorView;
use crate::operation::field_is_leaf;
use crate::operation::FieldElementView;
use crate::query_graph::advance::advanced_path;
use crate::query_graph::advance::advanced_with_field;
use crate::query_graph::advance::fields_of_objects;
use crate::query_graph::advance::field_on_interface;
use crate::query_graph::advance::field_on_object;
use crate::query_graph::advance::interface_start;
use crate::query_graph::advance::with_direct;
use crate::query_graph::advance::Ids;
use crate::query_graph::advance::World;
use crate::query_graph::condition_resolver::ExcludedConditionsView;
use crate::query_graph::condition_resolver::ExcludedDestinationsView;
use crate::query_graph::condition_resolver::ResolutionView;
use crate::query_graph::edge_casts;
use crate::query_graph::edge_collects;
use crate::query_graph::edge_fakes;
use crate::query_graph::edge_for_cast;
use crate::query_graph::edge_for_fake_cast;
use crate::query_graph::edge_for_field;
use crate::query_graph::elements::ContextView;
use crate::query_graph::elements::ElementView;
use crate::query_graph::elements::TriggerView;
use crate::query_graph::first_edge;
use crate::query_graph::fragment_laws::ends_at_object;
use crate::query_graph::graph_path::PathView;
use crate::query_graph::nesting_laws::interface_at;
use crate::query_graph::path_checks::overridden;
use crate::query_graph::path_checks::overriding;
use crate::query_graph::EdgeView;
use crate::query_graph::GraphView;
use crate::query_graph::OverrideConditionsView;
use crate::schema::position::composite_name;
use crate::text::Text;
use vstd::prelude::*;

verus! {

// Edges.

proof fn lemma_first_edge(edges: Seq<EdgeView>, wanted: spec_fn(EdgeView) -> bool, from: nat)
    requires
        edges.len() <= usize::MAX,
    ensures
        match first_edge(edges, wanted, from) {
            Some(found) => from <= found < edges.len() && wanted(edges[found as int]) && forall|
                i: int,
            |
                from <= i < found ==> !wanted(#[trigger] edges[i]),
            None => forall|i: int| from <= i < edges.len() ==> !wanted(#[trigger] edges[i]),
        },
    decreases edges.len() - from,
{
    if from < edges.len() && !wanted(edges[from as int]) {
        lemma_first_edge(edges, wanted, from + 1);
    }
}

/// Whether an edge leaves a node by a field, and its override, if it has one, is in force.
pub open spec fn leaves_by_field(
    edge: EdgeView,
    node: usize,
    field: Text,
    overrides: OverrideConditionsView,
) -> bool {
    &&& edge.head == node
    &&& edge.transition is FieldCollection
    &&& edge.transition->field_definition_position.field_name == field
    &&& edge.override_condition matches Some(wanted) ==> value_of(overrides.values, wanted.label)
        == Some(wanted.condition)
}

/// Whether an edge leaves a node by a cast.
pub open spec fn leaves_by_cast(edge: EdgeView, node: usize, to: Text) -> bool {
    &&& edge.head == node
    &&& edge.transition is Downcast
    &&& composite_name(edge.transition->to_type_position) == to
}

/// Whether an edge leaves the node of an interface object by a cast to an implementation.
pub open spec fn leaves_by_fake_cast(edge: EdgeView, node: usize, to: Text) -> bool {
    &&& edge.head == node
    &&& edge.transition is InterfaceObjectFakeDownCast
    &&& edge.transition->to_type_name == to
}

/// The edge of a field is the first one that leaves the node by the field and whose override is in
/// force; there is none only if no edge does.
pub proof fn law_edge_of_a_field(
    graph: GraphView,
    node: usize,
    field: Text,
    overrides: OverrideConditionsView,
)
    requires
        graph.edges.len() <= usize::MAX,
    ensures
        match edge_for_field(graph, node, field, overrides) {
            Some(found) => found < graph.edges.len() && leaves_by_field(
                graph.edges[found as int],
                node,
                field,
                overrides,
            ) && forall|i: int|
                0 <= i < found ==> !leaves_by_field(
                    #[trigger] graph.edges[i],
                    node,
                    field,
                    overrides,
                ),
            None => forall|i: int|
                0 <= i < graph.edges.len() ==> !leaves_by_field(
                    #[trigger] graph.edges[i],
                    node,
                    field,
                    overrides,
                ),
        },
{
    lemma_first_edge(graph.edges, |e: EdgeView| edge_collects(e, node, field, overrides), 0);
}

/// The edge of a cast is the first one that leaves the node by a cast to the type; there is none
/// only if no edge does.
pub proof fn law_edge_of_a_cast(graph: GraphView, node: usize, to: Text)
    requires
        graph.edges.len() <= usize::MAX,
    ensures
        match edge_for_cast(graph, node, Some(to)) {
            Some(found) => found < graph.edges.len() && leaves_by_cast(
                graph.edges[found as int],
                node,
                to,
            ) && forall|i: int|
                0 <= i < found ==> !leaves_by_cast(#[trigger] graph.edges[i], node, to),
            None => forall|i: int|
                0 <= i < graph.edges.len() ==> !leaves_by_cast(#[trigger] graph.edges[i], node, to),
        },
        match edge_for_fake_cast(graph, node, to) {
            Some(found) => found < graph.edges.len() && leaves_by_fake_cast(
                graph.edges[found as int],
                node,
                to,
            ) && forall|i: int|
                0 <= i < found ==> !leaves_by_fake_cast(#[trigger] graph.edges[i], node, to),
            None => forall|i: int|
                0 <= i < graph.edges.len() ==> !leaves_by_fake_cast(
                    #[trigger] graph.edges[i],
                    node,
                    to,
                ),
        },
{
    lemma_first_edge(
        graph.edges,
        |e: EdgeView| edge_casts(e, node, to),
        0,
    );
    lemma_first_edge(
        graph.edges,
        |e: EdgeView| edge_fakes(e, node, to),
        0,
    );
}

// Objects.

/// Whether a field is another one, on this or on another type.
pub open spec fn is_same_field(a: FieldElementView, b: FieldElementView) -> bool {
    &&& a.field_position.field_name == b.field_position.field_name
    &&& a.alias == b.alias
    &&& a.arguments == b.arguments
    &&& a.directives == b.directives
    &&& a.sibling_typename == b.sibling_typename
}

/// Whether a path is another one lengthened by a field along an edge whose conditions can be
/// satisfied.
pub open spec fn is_lengthened_by(
    w: World,
    longer: PathView,
    path: PathView,
    field: FieldElementView,
    edge: usize,
    context: ContextView,
) -> bool {
    exists|own: FieldElementView, resolution: ResolutionView|
        {
            &&& is_same_field(own, field)
            &&& resolution is Satisfied
            &&& exists|
                destinations: ExcludedDestinationsView,
                conditions: ExcludedConditionsView,
            |
                #[trigger] (w.steps.satisfy)(
                    w.graph,
                    path,
                    edge,
                    context,
                    destinations,
                    conditions,
                ) == Ok::<ResolutionView, ErrorView>(resolution)
            &&& #[trigger] (w.steps.add)(
                w.graph,
                path,
                TriggerView::OpPathElement(ElementView::Field(own)),
                Some(edge),
                resolution,
                None,
            ) == Ok::<PathView, ErrorView>(longer)
        }
}

/// A path that ends at an object is advanced with a field along the edge of the field: there is one
/// option, the path with that edge, or no way if the object has no such edge in the graph.
pub proof fn law_fields_are_collected_from_objects(
    w: World,
    path: PathView,
    object: Text,
    field: FieldElementView,
    context: ContextView,
    ids: Ids,
    budget: nat,
)
    requires
        ends_at_object(w, path, object),
    ensures
        advanced_path(w, path, ElementView::Field(field), context, ids, budget) matches Ok(
            ((options, _), after),
        ) ==> after == ids && match edge_for_field(
            w.graph,
            path.tail,
            field.field_position.field_name,
            w.overrides,
        ) {
            None => options is None,
            Some(edge) => options matches Some(found) ==> found.len() == 1 && found[0].paths.len()
                == 1 && is_lengthened_by(w, found[0].paths[0], path, field, edge, context),
        },
{
    reveal(advanced_path);
    reveal(advanced_with_field);
    reveal(field_on_object);
}

// Interfaces.

/// Whether a path is another one, whatever the numbers of the paths that it overrides.
pub open spec fn is_path_but_for_ids(a: PathView, b: PathView) -> bool {
    a == (PathView {
        own_path_ids: a.own_path_ids,
        overriding_path_ids: a.overriding_path_ids,
        ..b
    })
}

/// Where a path ends at an interface that has a field itself, the first option for the field is the
/// path along that edge, which is never given up for the implementations. For `__typename` it is
/// the only one.
pub proof fn law_fields_of_an_interface_come_first(
    w: World,
    path: PathView,
    field: FieldElementView,
    edge: usize,
    context: ContextView,
    ids: Ids,
    budget: nat,
)
    requires
        interface_at(w, path) matches Some((_, interface)) && composite_name(
            field.field_position.parent,
        ) == interface,
        edge_for_field(w.graph, path.tail, field.field_position.field_name, w.overrides) == Some(
            edge,
        ),
    ensures
        advanced_path(w, path, ElementView::Field(field), context, ids, budget) matches Ok(
            ((options, _), _),
        ) ==> (options matches Some(found) && found.len() > 0 && found[0].paths.len() == 1 && exists|
            direct: PathView,
        |
            #[trigger] is_lengthened_by(w, direct, path, field, edge, context)
                && is_path_but_for_ids(found[0].paths[0], direct)),
        field.field_position.field_name == "__typename"@ && field_is_leaf(field) == Ok::<
            bool,
            ErrorView,
        >(true) ==> (advanced_path(w, path, ElementView::Field(field), context, ids, budget)
            matches Ok(((options, _), _)) ==> options matches Some(found) && found.len() == 1),
{
    let (tail, interface) = interface_at(w, path)->0;
    reveal(advanced_path);
    reveal(advanced_with_field);
    reveal(field_on_interface);
    reveal(fields_of_objects);
    reveal(interface_start);
    reveal(with_direct);
    if let Ok(start) = interface_start(w, path, tail, interface, field, context) {
        assert(start.direct is Some);
        let direct = start.direct->0;
        assert(is_lengthened_by(w, direct, path, field, edge, context));
        assert(is_path_but_for_ids(direct, direct));
        assert(is_path_but_for_ids(overriding(direct, ids.overriding), direct));
    }
}

// Numbers of paths.

/// A path that overrides others has a number of its own that the others know, and nothing else of
/// them changes.
pub proof fn law_overriding_is_known(path: PathView, other: PathView, id: usize)
    ensures
        overriding(path, id).own_path_ids.contains(id),
        overridden(other, id).overriding_path_ids.contains(id),
        is_path_but_for_ids(overriding(path, id), path),
        is_path_but_for_ids(overridden(other, id), other),
        overriding(path, id).overriding_path_ids == path.overriding_path_ids,
        overridden(other, id).own_path_ids == other.own_path_ids,
        forall|known: usize|
            other.overriding_path_ids.contains(known) ==> #[trigger] overridden(
                other,
                id,
            ).overriding_path_ids.contains(known),
{
    let a = path.overriding_path_ids;
    let b = other.overriding_path_ids;
    if !a.contains(id) {
        assert(a.push(id)[a.len() as int] == id);
    }
    if !b.contains(id) {
        assert(b.push(id)[b.len() as int] == id);
        assert forall|known: usize| b.contains(known) implies #[trigger] overridden(
            other,
            id,
        ).overriding_path_ids.contains(known) by {
            let i = choose|i: int| 0 <= i < b.len() && b[i] == known;
            assert(b.push(id)[i] == known);
        }
    }
}

} // verus!
