//! Advancing paths through the query graph with the elements of an operation.

use crate::ast::DirectiveView;
use crate::error::internal_error;
use crate::error::ErrorKind;
use crate::error::ErrorView;
use crate::operation::condition_name;
use crate::operation::field_is_leaf;
use crate::operation::fragment_defer;
use crate::operation::next_id;
use crate::operation::typename_field;
use crate::operation::Field;
use crate::operation::FieldElementView;
use crate::operation::InlineFragment;
use crate::operation::InlineFragmentView;
use crate::operation::SelectionId;
use crate::query_graph::condition_resolver::no_conditions;
use crate::query_graph::condition_resolver::ExcludedConditionsView;
use crate::query_graph::condition_resolver::ExcludedDestinationsView;
use crate::query_graph::condition_resolver::ResolutionView;
use crate::query_graph::edge_for_cast;
use crate::query_graph::edge_for_fake_cast;
use crate::query_graph::edge_for_field;
use crate::query_graph::edge_weight;
use crate::query_graph::elements::context_with;
use crate::query_graph::elements::element_is_terminal;
use crate::query_graph::elements::ContextView;
use crate::query_graph::elements::ElementView;
use crate::query_graph::elements::OpPathElement;
use crate::query_graph::elements::TriggerView;
use crate::query_graph::graph_path::PathView;
use crate::query_graph::graph_path::SimultaneousView;
use crate::query_graph::implementation_provides;
use crate::query_graph::is_interface_object;
use crate::query_graph::node_weight;
use crate::query_graph::options::bounded_combinations;
use crate::query_graph::path_checks::entity_with_shareable_field;
use crate::query_graph::path_checks::explodes_to;
use crate::query_graph::path_checks::option_overridden;
use crate::query_graph::path_checks::overriding;
use crate::query_graph::path_checks::paths_for_field;
use crate::query_graph::set_meet;
use crate::query_graph::source_of;
use crate::query_graph::steps::field_step;
use crate::query_graph::steps::no_destinations;
use crate::query_graph::steps::no_excluded_conditions;
use crate::query_graph::steps::StepsModel;
use crate::query_graph::texts::empty_options_for;
use crate::query_graph::texts::field_on_leaf;
use crate::query_graph::texts::fragment_on_leaf;
use crate::query_graph::texts::missing_field;
use crate::query_graph::texts::unsatisfiable_after;
use crate::query_graph::texts::wrong_parent;
use crate::query_graph::GraphView;
use crate::query_graph::NodeTypeView;
use crate::query_graph::NodeView;
use crate::query_graph::OverrideConditionsView;
use crate::query_graph::TransitionView;
use crate::schema::position::as_composite;
use crate::schema::position::composite_name;
use crate::schema::position::field_definition;
use crate::schema::position::get_type;
use crate::schema::position::position_name;
use crate::schema::position::runtime_types;
use crate::schema::position::CompositeView;
use crate::schema::position::FieldPositionView;
use crate::schema::position::PositionView;
use crate::schema::SchemaView;
use crate::text::Text;
use vstd::prelude::*;

verus! {

/// What advancing depends on besides the path and the element.
pub struct World {
    pub graph: GraphView,
    pub supergraph: SchemaView,
    pub overrides: OverrideConditionsView,
    pub disabled: Seq<Text>,
    pub steps: StepsModel,
}

/// The next numbers of made-up fragments and of paths that override others.
pub struct Ids {
    pub selection: usize,
    pub overriding: usize,
}

/// Options together with what finding them later needs.
#[verifier::ext_equal]
pub struct LazyView {
    pub paths: SimultaneousView,
    pub context: ContextView,
    pub excluded_destinations: ExcludedDestinationsView,
    pub excluded_conditions: ExcludedConditionsView,
}

/// The options of a path for an element. None means that there is no way to advance, and an empty
/// list that the element never has a result.
pub type PathOptions = Option<Seq<SimultaneousView>>;

/// A path on its own, with nothing left out.
pub open spec fn lazy_path(path: PathView, context: ContextView) -> LazyView {
    LazyView {
        paths: SimultaneousView { paths: seq![path] },
        context,
        excluded_destinations: no_destinations(),
        excluded_conditions: no_excluded_conditions(),
    }
}

/// The option that is a single path.
pub open spec fn single(path: PathView) -> Seq<SimultaneousView> {
    seq![SimultaneousView { paths: seq![path] }]
}

/// The option that is a single path, if there is one.
pub open spec fn single_if(path: Option<PathView>) -> PathOptions {
    match path {
        Some(p) => Some(single(p)),
        None => None,
    }
}

/// The paths of lazy options.
pub open spec fn paths_of(options: Seq<LazyView>) -> Seq<SimultaneousView> {
    options.map_values(|o: LazyView| o.paths)
}

/// The error for casts that nest deeper than allowed.
pub open spec fn nested_too_deep() -> ErrorView {
    ErrorView {
        kind: ErrorKind::NestingTooDeep,
        message: "Type conditions nest deeper than allowed"@,
    }
}

/// A field as the node at the end of a path knows it: a field of an implementation is one of the
/// interface object itself.
pub open spec fn field_for_object(
    w: World,
    path: PathView,
    tail: NodeView,
    object: Text,
    field: FieldElementView,
) -> Result<FieldElementView, ErrorView> {
    match is_interface_object(w.graph, path.tail) {
        Err(error) => Err(error),
        Ok(is) => if is && composite_name(field.field_position.parent) != object {
            match source_of(w.graph, tail.source) {
                Err(error) => Err(error),
                Ok(subgraph) => match field_definition(
                    subgraph.schema,
                    object,
                    field.field_position.field_name,
                ) {
                    None => Err(missing_field(field)),
                    Some(_) => Ok(
                        FieldElementView {
                            schema: subgraph.schema,
                            field_position: FieldPositionView {
                                parent: CompositeView::Object(object),
                                field_name: field.field_position.field_name,
                            },
                            ..field
                        },
                    ),
                },
            }
        } else {
            Ok(field)
        },
    }
}

/// A path that ends at an object, advanced with a field.
#[verifier::opaque]
pub open spec fn field_on_object(
    w: World,
    path: PathView,
    tail: NodeView,
    object: Text,
    field: FieldElementView,
    context: ContextView,
) -> Result<Option<PathView>, ErrorView> {
    match edge_for_field(w.graph, path.tail, field.field_position.field_name, w.overrides) {
        None => Ok(None),
        Some(edge) => match field_for_object(w, path, tail, object, field) {
            Err(error) => Err(error),
            Ok(own) => field_step(w.steps, w.graph, path, own, edge, context),
        },
    }
}

/// A path that ends at a union, advanced with a field, which can only be `__typename`.
pub open spec fn field_on_union(
    w: World,
    path: PathView,
    field: FieldElementView,
    context: ContextView,
) -> Result<Option<PathView>, ErrorView> {
    match edge_for_field(w.graph, path.tail, field.field_position.field_name, w.overrides) {
        None => Err(internal_error("Should always have an edge for __typename edge on an union"@)),
        Some(edge) => field_step(w.steps, w.graph, path, field, edge, context),
    }
}

/// Whether a field is one of an implementation of the interface rather than of the interface.
pub open spec fn of_implementation(field: FieldElementView, interface: Text) -> bool {
    composite_name(field.field_position.parent) != interface
}

/// The edge by which an interface has a field itself.
pub open spec fn interface_edge(w: World, path: PathView, interface: Text, field: FieldElementView) -> Option<
    usize,
> {
    if of_implementation(field, interface) {
        None
    } else {
        edge_for_field(w.graph, path.tail, field.field_position.field_name, w.overrides)
    }
}

/// A path that ends at an interface, advanced with a field of the interface itself.
pub open spec fn interface_path(
    w: World,
    path: PathView,
    field: FieldElementView,
    edge: Option<usize>,
    context: ContextView,
) -> Result<Option<PathView>, ErrorView> {
    match edge {
        None => Ok(None),
        Some(index) => match field_step(w.steps, w.graph, path, field, index, context) {
            Err(error) => Err(error),
            Ok(None) => Err(internal_error("Interface edge unexpectedly had conditions"@)),
            Ok(Some(longer)) => Ok(Some(longer)),
        },
    }
}

/// Whether an edge is there because of `@provides`.
pub open spec fn is_provides_edge(transition: TransitionView) -> bool {
    match transition {
        TransitionView::FieldCollection {
            source,
            field_definition_position,
            is_part_of_provides,
        } => is_part_of_provides,
        _ => false,
    }
}

/// Whether taking the field of the interface makes going through its implementations needless if
/// it works out: no `@provides` is involved.
pub open spec fn direct_overrides(
    w: World,
    tail: NodeView,
    interface: Text,
    field: FieldElementView,
    edge: Option<usize>,
) -> Result<bool, ErrorView> {
    match edge {
        None => Ok(false),
        Some(index) => if field.field_position.field_name == typename_field() {
            Ok(true)
        } else {
            match edge_weight(w.graph, index) {
                Err(error) => Err(error),
                Ok(weight) => if is_provides_edge(weight.transition) {
                    Ok(false)
                } else {
                    match source_of(w.graph, tail.source) {
                        Err(error) => Err(error),
                        Ok(subgraph) => Ok(
                            !implementation_provides(
                                subgraph,
                                interface,
                                field.field_position.field_name,
                            ),
                        ),
                    }
                },
            }
        },
    }
}

/// Whether taking the field of the interface is the only option: it overrides, and it is a leaf or
/// no implementation can reach more.
pub open spec fn direct_only(
    w: World,
    path: PathView,
    tail: NodeView,
    interface: Text,
    field: FieldElementView,
    overrides: bool,
) -> Result<bool, ErrorView> {
    if !overrides {
        Ok(false)
    } else {
        match field_is_leaf(field) {
            Err(error) => Err(error),
            Ok(true) => Ok(true),
            Ok(false) => match entity_with_shareable_field(
                w.graph,
                path.tail,
                tail.source,
                interface,
                field.field_position.field_name,
            ) {
                Err(error) => Err(error),
                Ok(more) => Ok(!more),
            },
        }
    }
}

/// The object types that an interface is taken apart into for a field.
pub open spec fn implementations(path: PathView, interface: Text, field: FieldElementView) -> Result<
    Seq<Text>,
    ErrorView,
> {
    if of_implementation(field, interface) {
        match field.field_position.parent {
            CompositeView::Object(parent) => if path.runtime_types_of_tail.contains(parent) {
                Ok(seq![parent])
            } else {
                Err(wrong_parent(field, interface, " is not an implementation type"@))
            },
            _ => Err(wrong_parent(field, interface, " is not an object type"@)),
        }
    } else {
        Ok(path.runtime_types_of_tail)
    }
}

/// What is known of a field on an interface before the interface is taken apart.
#[verifier::ext_equal]
pub struct InterfaceStart {
    /// The path with the field of the interface itself.
    pub direct: Option<PathView>,
    /// Whether that path overrides those through the implementations.
    pub overrides: bool,
    /// Whether that path is the only option.
    pub done: bool,
    /// The object types to go through.
    pub names: Seq<Text>,
}

/// Starts advancing with a field on an interface.
#[verifier::opaque]
pub open spec fn interface_start(
    w: World,
    path: PathView,
    tail: NodeView,
    interface: Text,
    field: FieldElementView,
    context: ContextView,
) -> Result<InterfaceStart, ErrorView> {
    let edge = interface_edge(w, path, interface, field);
    match interface_path(w, path, field, edge, context) {
        Err(error) => Err(error),
        Ok(direct) => match direct_overrides(w, tail, interface, field, edge) {
            Err(error) => Err(error),
            Ok(overrides) => match direct_only(w, path, tail, interface, field, overrides) {
                Err(error) => Err(error),
                Ok(true) => Ok(
                    InterfaceStart { direct, overrides, done: true, names: Seq::empty() },
                ),
                Ok(false) => match implementations(path, interface, field) {
                    Err(error) => Err(error),
                    Ok(names) => Ok(InterfaceStart { direct, overrides, done: false, names }),
                },
            },
        },
    }
}

/// A path lengthened by a fragment.
pub open spec fn fragment_step(
    w: World,
    path: PathView,
    fragment: InlineFragmentView,
    edge: Option<usize>,
    resolution: ResolutionView,
) -> Result<PathView, ErrorView> {
    match fragment_defer(fragment) {
        Err(error) => Err(error),
        Ok(defer) => (w.steps.add)(
            w.graph,
            path,
            TriggerView::OpPathElement(ElementView::InlineFragment(fragment)),
            edge,
            resolution,
            defer,
        ),
    }
}

/// The path alone where the fragment says nothing but its type, else the path lengthened by it.
pub open spec fn kept_fragment(w: World, path: PathView, fragment: InlineFragmentView) -> Result<
    PathView,
    ErrorView,
> {
    if fragment.directives.len() == 0 {
        Ok(path)
    } else {
        fragment_step(w, path, fragment, None, no_conditions())
    }
}

/// A path that takes the cast of a fragment.
pub open spec fn cast_step(w: World, path: PathView, fragment: InlineFragmentView, edge: usize) -> Result<
    PathView,
    ErrorView,
> {
    match edge_weight(w.graph, edge) {
        Err(error) => Err(error),
        Ok(weight) => if weight.conditions is Some {
            Err(internal_error("Unexpectedly found condition on inline fragment collecting edge"@))
        } else {
            fragment_step(w, path, fragment, Some(edge), no_conditions())
        },
    }
}

/// The object types that a path can have and a type of the supergraph too.
pub open spec fn common_types(w: World, path: PathView, name: Text) -> Result<Seq<Text>, ErrorView> {
    match get_type(w.supergraph, name) {
        Err(error) => Err(error),
        Ok(position) => match as_composite(position) {
            None => Err(internal_error("Type condition is not composite"@)),
            Some(composite) => Ok(
                set_meet(
                    path.runtime_types_of_tail,
                    runtime_types(w.supergraph, composite),
                    path.runtime_types_of_tail.len(),
                ),
            ),
        },
    }
}

/// A cast to an object that nobody wrote.
pub open spec fn made_up_cast(
    schema: SchemaView,
    parent: CompositeView,
    condition: Option<CompositeView>,
    directives: Seq<DirectiveView>,
    ids: Ids,
) -> InlineFragmentView {
    InlineFragmentView {
        schema,
        parent_type_position: parent,
        type_condition_position: condition,
        directives,
        selection_id: SelectionId(ids.selection),
    }
}

/// The numbers after one more made-up fragment.
pub open spec fn after_cast(ids: Ids) -> Ids {
    Ids { selection: next_id(ids.selection), ..ids }
}

/// The numbers after one more path that overrides others.
pub open spec fn after_overriding(ids: Ids) -> Ids {
    Ids { overriding: next_id(ids.overriding), ..ids }
}

/// Whether the type condition is an abstract type of the supergraph with the given object.
pub open spec fn condition_covers(w: World, position: PositionView, object: Text) -> bool {
    match position {
        PositionView::Interface(name) => runtime_types(
            w.supergraph,
            CompositeView::Interface(name),
        ).contains(object),
        PositionView::Union(name) => runtime_types(w.supergraph, CompositeView::Union(name)).contains(
            object,
        ),
        _ => false,
    }
}

/// A path that ends at an object, advanced with a fragment on another type. The fragment is left
/// out where it always holds; an interface object may know its type; else there is never a result.
#[verifier::opaque]
pub open spec fn fragment_on_object(
    w: World,
    path: PathView,
    tail: NodeView,
    object: Text,
    fragment: InlineFragmentView,
    condition: Text,
    context: ContextView,
    ids: Ids,
) -> Result<(PathOptions, Ids), ErrorView> {
    match get_type(w.supergraph, condition) {
        Err(error) => Err(error),
        Ok(position) => if condition_covers(w, position, object) {
            if fragment.directives.len() == 0 {
                Ok((Some(single(path)), ids))
            } else {
                match source_of(w.graph, tail.source) {
                    Err(error) => Err(error),
                    Ok(subgraph) => match fragment_step(
                        w,
                        path,
                        made_up_cast(
                            subgraph.schema,
                            CompositeView::Object(object),
                            None,
                            fragment.directives,
                            ids,
                        ),
                        None,
                        no_conditions(),
                    ) {
                        Err(error) => Err(error),
                        Ok(longer) => Ok((Some(single(longer)), after_cast(ids))),
                    },
                }
            }
        } else {
            match is_interface_object(w.graph, path.tail) {
                Err(error) => Err(error),
                Ok(false) => Ok((Some(Seq::empty()), ids)),
                Ok(true) => match edge_for_fake_cast(w.graph, path.tail, position_name(position)) {
                    None => Ok((Some(Seq::empty()), ids)),
                    Some(edge) => match (w.steps.satisfy)(
                        w.graph,
                        path,
                        edge,
                        context,
                        no_destinations(),
                        no_excluded_conditions(),
                    ) {
                        Err(error) => Err(error),
                        Ok(resolution) => if resolution is Unsatisfied {
                            Ok((None, ids))
                        } else {
                            match fragment_step(w, path, fragment, Some(edge), resolution) {
                                Err(error) => Err(error),
                                Ok(longer) => Ok((Some(single(longer)), ids)),
                            }
                        },
                    },
                },
            }
        },
    }
}

/// The type that a fragment asks for at the end of a path.
pub open spec fn wanted_type(fragment: InlineFragmentView, position: PositionView) -> Text {
    match condition_name(fragment) {
        Some(name) => name,
        None => position_name(position),
    }
}

/// The options that a single path does not make needless.
pub open spec fn not_subsumed(
    graph: GraphView,
    options: Seq<SimultaneousView>,
    path: PathView,
    n: nat,
) -> Result<Seq<SimultaneousView>, ErrorView>
    decreases n,
{
    if n == 0 {
        Ok(Seq::empty())
    } else {
        match not_subsumed(graph, options, path, (n - 1) as nat) {
            Err(error) => Err(error),
            Ok(before) => match subsumed(graph, options[n - 1].paths, path, options[n - 1].paths.len()) {
                Err(error) => Err(error),
                Ok(true) => Ok(before),
                Ok(false) => Ok(before.push(options[n - 1])),
            },
        }
    }
}

/// Whether a path does without the casts that all of the first `n` paths have. The paths behind
/// the first that differs are not looked at.
pub open spec fn subsumed(graph: GraphView, paths: Seq<PathView>, path: PathView, n: nat) -> Result<
    bool,
    ErrorView,
>
    decreases n,
{
    if n == 0 {
        Ok(true)
    } else {
        match subsumed(graph, paths, path, (n - 1) as nat) {
            Err(error) => Err(error),
            Ok(false) => Ok(false),
            Ok(true) => explodes_to(graph, path, paths[n - 1]),
        }
    }
}

/// The options that the first `n` new ones do not make needless.
pub open spec fn pruned(
    graph: GraphView,
    options: Seq<SimultaneousView>,
    new: Seq<SimultaneousView>,
    n: nat,
) -> Result<Seq<SimultaneousView>, ErrorView>
    decreases n,
{
    if n == 0 {
        Ok(options)
    } else {
        match pruned(graph, options, new, (n - 1) as nat) {
            Err(error) => Err(error),
            Ok(before) => if new[n - 1].paths.len() == 1 {
                not_subsumed(graph, before, new[n - 1].paths[0], before.len())
            } else {
                Ok(before)
            },
        }
    }
}

/// The options with those of an indirect path.
#[verifier::opaque]
pub open spec fn with_new_options(
    graph: GraphView,
    options: Seq<SimultaneousView>,
    path: PathView,
    element: ElementView,
    new: Seq<SimultaneousView>,
) -> Result<Seq<SimultaneousView>, ErrorView> {
    if new.len() == 0 {
        Err(empty_options_for(element))
    } else {
        match is_interface_object(graph, path.tail) {
            Err(error) => Err(error),
            Ok(false) => Ok(options + new),
            Ok(true) => match pruned(graph, options, new, new.len()) {
                Err(error) => Err(error),
                Ok(kept) => Ok(kept + new),
            },
        }
    }
}

/// The ways to lengthen a path that collect nothing.
pub open spec fn indirect_of(w: World, lazy: LazyView, path: PathView) -> Result<
    Seq<PathView>,
    ErrorView,
> {
    (w.steps.indirect)(
        w.graph,
        path,
        lazy.context,
        lazy.excluded_destinations,
        lazy.excluded_conditions,
        w.overrides,
        w.disabled,
    )
}

/// The ways to lengthen a path that collect nothing and are gone on with for a field.
pub open spec fn indirect_for(w: World, lazy: LazyView, path: PathView, field: FieldElementView) -> Result<
    Seq<PathView>,
    ErrorView,
> {
    match indirect_of(w, lazy, path) {
        Err(error) => Err(error),
        Ok(paths) => paths_for_field(w.graph, paths, field),
    }
}

/// Whether the options of a path are final: nothing indirect could be better.
pub open spec fn is_final(
    options: Seq<SimultaneousView>,
    element: ElementView,
    only_exploded: Option<bool>,
) -> Result<bool, ErrorView> {
    if options.len() == 0 {
        Ok(true)
    } else {
        match element_is_terminal(element) {
            Err(error) => Err(error),
            Ok(terminal) => Ok(
                terminal && only_exploded != Some(true) || element is InlineFragment,
            ),
        }
    }
}

/// Whether a path has to enter its subgraph anew for the element, since it ends in a `@defer`.
pub open spec fn must_reenter(path: PathView, element: ElementView) -> bool {
    path.defer_on_tail is Some && element is Field
}

/// Options with the context behind an element.
pub open spec fn lazy_options(
    options: Seq<SimultaneousView>,
    context: ContextView,
    from: LazyView,
) -> Seq<LazyView> {
    options.map_values(|paths: SimultaneousView| LazyView { paths, context, ..from })
}

// What follows is defined by mutual recursion. The budget goes down by one with each cast that is
// made up to take an abstract type apart.

/// The options behind an element, for all paths at the same time. None means that one of them
/// cannot be advanced.
#[verifier::opaque]
pub open spec fn advanced(
    w: World,
    lazy: LazyView,
    element: ElementView,
    ids: Ids,
    budget: nat,
) -> Result<(Option<Seq<LazyView>>, Ids), ErrorView>
    decreases budget, 9nat, 0nat,
{
    match context_with(lazy.context, element) {
        Err(error) => Err(error),
        Ok(context) => match options_of_paths(
            w,
            lazy,
            element,
            context,
            ids,
            budget,
            lazy.paths.paths.len(),
        ) {
            Err(error) => Err(error),
            Ok((None, after)) => Ok((None, after)),
            Ok((Some(options), after)) => match bounded_combinations(options) {
                Err(error) => Err(error),
                Ok(all) => Ok((Some(lazy_options(all, context, lazy)), after)),
            },
        },
    }
}

/// The options of each of the first `n` paths; those for which there is never a result are left
/// out.
#[verifier::opaque]
pub open spec fn options_of_paths(
    w: World,
    lazy: LazyView,
    element: ElementView,
    context: ContextView,
    ids: Ids,
    budget: nat,
    n: nat,
) -> Result<(Option<Seq<Seq<SimultaneousView>>>, Ids), ErrorView>
    decreases budget, 8nat, n,
{
    if n == 0 {
        Ok((Some(Seq::empty()), ids))
    } else {
        match options_of_paths(w, lazy, element, context, ids, budget, (n - 1) as nat) {
            Err(error) => Err(error),
            Ok((None, before)) => Ok((None, before)),
            Ok((Some(options), before)) => match options_of_path(
                w,
                lazy,
                lazy.paths.paths[n - 1],
                element,
                context,
                before,
                budget,
            ) {
                Err(error) => Err(error),
                Ok((None, after)) => Ok((None, after)),
                Ok((Some(found), after)) => Ok(
                    (
                        Some(
                            if found.len() == 0 {
                                options
                            } else {
                                options.push(found)
                            },
                        ),
                        after,
                    ),
                ),
            },
        }
    }
}

/// The options of one path, direct ones first.
#[verifier::opaque]
pub open spec fn options_of_path(
    w: World,
    lazy: LazyView,
    path: PathView,
    element: ElementView,
    context: ContextView,
    ids: Ids,
    budget: nat,
) -> Result<(PathOptions, Ids), ErrorView>
    decreases budget, 7nat, 0nat,
{
    if must_reenter(path, element) {
        with_indirect(w, lazy, path, element, context, ids, budget, Seq::empty())
    } else {
        match advanced_path(w, path, element, context, ids, budget) {
            Err(error) => Err(error),
            Ok(((None, _), after)) => with_indirect(
                w,
                lazy,
                path,
                element,
                context,
                after,
                budget,
                Seq::empty(),
            ),
            Ok(((Some(options), only_exploded), after)) => match is_final(
                options,
                element,
                only_exploded,
            ) {
                Err(error) => Err(error),
                Ok(true) => Ok((Some(options), after)),
                Ok(false) => with_indirect(w, lazy, path, element, context, after, budget, options),
            },
        }
    }
}

/// The options of one path with those of its indirect paths. A path that cannot enter its subgraph
/// anew goes on directly.
#[verifier::opaque]
pub open spec fn with_indirect(
    w: World,
    lazy: LazyView,
    path: PathView,
    element: ElementView,
    context: ContextView,
    ids: Ids,
    budget: nat,
    direct: Seq<SimultaneousView>,
) -> Result<(PathOptions, Ids), ErrorView>
    decreases budget, 6nat, 0nat,
{
    match element {
        ElementView::InlineFragment(_) => Ok(
            (
                if direct.len() == 0 {
                    None
                } else {
                    Some(direct)
                },
                ids,
            ),
        ),
        ElementView::Field(field) => match indirect_for(w, lazy, path, field) {
            Err(error) => Err(error),
            Ok(paths) => match indirect_options(
                w,
                paths,
                element,
                context,
                ids,
                budget,
                direct,
                paths.len(),
            ) {
                Err(error) => Err(error),
                Ok((options, after)) => if options.len() > 0 {
                    Ok((Some(options), after))
                } else if !must_reenter(path, element) {
                    Ok((None, after))
                } else {
                    match advanced_path(w, path, element, context, after, budget) {
                        Err(error) => Err(error),
                        Ok(((Some(found), _), last)) => Ok(
                            (
                                if found.len() == 0 {
                                    None
                                } else {
                                    Some(found)
                                },
                                last,
                            ),
                        ),
                        Ok(((None, _), last)) => Ok((None, last)),
                    }
                },
            },
        },
    }
}

/// The options with those of the first `n` indirect paths.
#[verifier::opaque]
pub open spec fn indirect_options(
    w: World,
    paths: Seq<PathView>,
    element: ElementView,
    context: ContextView,
    ids: Ids,
    budget: nat,
    direct: Seq<SimultaneousView>,
    n: nat,
) -> Result<(Seq<SimultaneousView>, Ids), ErrorView>
    decreases budget, 5nat, n,
{
    if n == 0 {
        Ok((direct, ids))
    } else {
        match indirect_options(w, paths, element, context, ids, budget, direct, (n - 1) as nat) {
            Err(error) => Err(error),
            Ok((options, before)) => match advanced_path(
                w,
                paths[n - 1],
                element,
                context,
                before,
                budget,
            ) {
                Err(error) => Err(error),
                Ok(((None, _), after)) => Ok((options, after)),
                Ok(((Some(new), _), after)) => match with_new_options(
                    w.graph,
                    options,
                    paths[n - 1],
                    element,
                    new,
                ) {
                    Err(error) => Err(error),
                    Ok(all) => Ok((all, after)),
                },
            },
        }
    }
}

/// The direct options of a path for an element, and whether all of them come from taking an
/// interface apart.
#[verifier::opaque]
pub open spec fn advanced_path(
    w: World,
    path: PathView,
    element: ElementView,
    context: ContextView,
    ids: Ids,
    budget: nat,
) -> Result<((PathOptions, Option<bool>), Ids), ErrorView>
    decreases budget, 4nat, 0nat,
{
    match node_weight(w.graph, path.tail) {
        Err(error) => Err(error),
        Ok(tail) => match tail.type_ {
            NodeTypeView::FederatedRootType(_) => Ok(((None, None), ids)),
            NodeTypeView::SchemaType(position) => match element {
                ElementView::Field(field) => advanced_with_field(
                    w,
                    path,
                    tail,
                    position,
                    field,
                    context,
                    ids,
                    budget,
                ),
                ElementView::InlineFragment(fragment) => advanced_with_fragment(
                    w,
                    path,
                    tail,
                    position,
                    fragment,
                    context,
                    ids,
                    budget,
                ),
            },
        },
    }
}

/// The direct options of a path for a field.
#[verifier::opaque]
pub open spec fn advanced_with_field(
    w: World,
    path: PathView,
    tail: NodeView,
    position: PositionView,
    field: FieldElementView,
    context: ContextView,
    ids: Ids,
    budget: nat,
) -> Result<((PathOptions, Option<bool>), Ids), ErrorView>
    decreases budget, 3nat, 1nat,
{
    match position {
        PositionView::Object(object) => match field_on_object(
            w,
            path,
            tail,
            object,
            field,
            context,
        ) {
            Err(error) => Err(error),
            Ok(longer) => Ok(((single_if(longer), None), ids)),
        },
        PositionView::Interface(interface) => field_on_interface(
            w,
            path,
            tail,
            interface,
            field,
            context,
            ids,
            budget,
        ),
        PositionView::Union(_) => match field_on_union(w, path, field, context) {
            Err(error) => Err(error),
            Ok(longer) => Ok(((single_if(longer), None), ids)),
        },
        _ => Err(field_on_leaf(field, position_name(position))),
    }
}

/// The direct options of a path that ends at an interface for a field.
#[verifier::opaque]
pub open spec fn field_on_interface(
    w: World,
    path: PathView,
    tail: NodeView,
    interface: Text,
    field: FieldElementView,
    context: ContextView,
    ids: Ids,
    budget: nat,
) -> Result<((PathOptions, Option<bool>), Ids), ErrorView>
    decreases budget, 3nat, 0nat,
{
    match interface_start(w, path, tail, interface, field, context) {
        Err(error) => Err(error),
        Ok(start) => if start.done {
            Ok(((single_if(start.direct), None), ids))
        } else {
            match fields_of_objects(
                w,
                path,
                tail,
                interface,
                ElementView::Field(field),
                context,
                start.names,
                ids,
                budget,
                start.names.len(),
            ) {
                Err(error) => Err(error),
                Ok((None, after)) => Ok(((single_if(start.direct), None), after)),
                Ok((Some(options), after)) => with_direct(start, options, after),
            }
        },
    }
}

/// The direct options of a path for a fragment.
#[verifier::opaque]
pub open spec fn advanced_with_fragment(
    w: World,
    path: PathView,
    tail: NodeView,
    position: PositionView,
    fragment: InlineFragmentView,
    context: ContextView,
    ids: Ids,
    budget: nat,
) -> Result<((PathOptions, Option<bool>), Ids), ErrorView>
    decreases budget, 3nat, 1nat,
{
    let wanted = wanted_type(fragment, position);
    if wanted == position_name(position) {
        match kept_fragment(w, path, fragment) {
            Err(error) => Err(error),
            Ok(longer) => Ok(((Some(single(longer)), None), ids)),
        }
    } else {
        match position {
            PositionView::Object(object) => match fragment_on_object(
                w,
                path,
                tail,
                object,
                fragment,
                wanted,
                context,
                ids,
            ) {
                Err(error) => Err(error),
                Ok((options, after)) => Ok(((options, None), after)),
            },
            PositionView::Interface(interface) => fragment_on_abstract(
                w,
                path,
                tail,
                CompositeView::Interface(interface),
                fragment,
                wanted,
                context,
                ids,
                budget,
            ),
            PositionView::Union(union) => fragment_on_abstract(
                w,
                path,
                tail,
                CompositeView::Union(union),
                fragment,
                wanted,
                context,
                ids,
                budget,
            ),
            _ => Err(fragment_on_leaf(fragment, position_name(position))),
        }
    }
}

/// The options through the implementations of an interface, behind the one with the field of the
/// interface itself.
#[verifier::opaque]
pub open spec fn with_direct(
    start: InterfaceStart,
    options: Seq<Seq<SimultaneousView>>,
    ids: Ids,
) -> Result<((PathOptions, Option<bool>), Ids), ErrorView> {
    match bounded_combinations(options) {
        Err(error) => Err(error),
        Ok(all) => match start.direct {
            None => Ok(((Some(all), Some(true)), ids)),
            Some(direct) => if start.overrides {
                Ok(
                    (
                        (
                            Some(
                                single(overriding(direct, ids.overriding)) + all.map_values(
                                    |o: SimultaneousView| option_overridden(o, ids.overriding),
                                ),
                            ),
                            None,
                        ),
                        after_overriding(ids),
                    ),
                )
            } else {
                Ok(((Some(single(direct) + all), None), ids))
            },
        },
    }
}

/// A path that ends at an abstract type, advanced with a fragment on another type: by its edge if
/// there is one, else through all the object types that both have.
#[verifier::opaque]
pub open spec fn fragment_on_abstract(
    w: World,
    path: PathView,
    tail: NodeView,
    position: CompositeView,
    fragment: InlineFragmentView,
    wanted: Text,
    context: ContextView,
    ids: Ids,
    budget: nat,
) -> Result<((PathOptions, Option<bool>), Ids), ErrorView>
    decreases budget, 2nat, 0nat,
{
    match edge_for_cast(w.graph, path.tail, condition_name(fragment)) {
        Some(edge) => match cast_step(w, path, fragment, edge) {
            Err(error) => Err(error),
            Ok(longer) => Ok(((Some(single(longer)), None), ids)),
        },
        None => match common_types(w, path, wanted) {
            Err(error) => Err(error),
            Ok(names) => match casts_to_objects(
                w,
                path,
                tail,
                position,
                fragment,
                context,
                names,
                ids,
                budget,
                names.len(),
            ) {
                Err(error) => Err(error),
                Ok((None, after)) => Ok(((None, None), after)),
                Ok((Some(options), after)) => match bounded_combinations(options) {
                    Err(error) => Err(error),
                    Ok(all) => Ok(((Some(all), None), after)),
                },
            },
        },
    }
}

/// The options for each of the first `n` object types that a fragment is taken apart into.
#[verifier::opaque]
pub open spec fn casts_to_objects(
    w: World,
    path: PathView,
    tail: NodeView,
    position: CompositeView,
    fragment: InlineFragmentView,
    context: ContextView,
    names: Seq<Text>,
    ids: Ids,
    budget: nat,
    n: nat,
) -> Result<(Option<Seq<Seq<SimultaneousView>>>, Ids), ErrorView>
    decreases budget, 1nat, n,
{
    if n == 0 {
        Ok((Some(Seq::empty()), ids))
    } else {
        match casts_to_objects(
            w,
            path,
            tail,
            position,
            fragment,
            context,
            names,
            ids,
            budget,
            (n - 1) as nat,
        ) {
            Err(error) => Err(error),
            Ok((None, before)) => Ok((None, before)),
            Ok((Some(options), before)) => match cast_to_object(
                w,
                path,
                tail,
                position,
                fragment.directives,
                context,
                names[n - 1],
                before,
                budget,
            ) {
                Err(error) => Err(error),
                Ok((None, after)) => Ok((None, after)),
                Ok((Some(found), after)) => Ok(
                    (
                        Some(
                            if found.len() == 0 {
                                options
                            } else {
                                options.push(paths_of(found))
                            },
                        ),
                        after,
                    ),
                ),
            },
        }
    }
}

/// The options of a path for a made-up cast to an object type.
#[verifier::opaque]
pub open spec fn cast_to_object(
    w: World,
    path: PathView,
    tail: NodeView,
    position: CompositeView,
    directives: Seq<DirectiveView>,
    context: ContextView,
    name: Text,
    ids: Ids,
    budget: nat,
) -> Result<(Option<Seq<LazyView>>, Ids), ErrorView>
    decreases budget, 0nat, 0nat,
{
    match source_of(w.graph, tail.source) {
        Err(error) => Err(error),
        Ok(subgraph) => if budget == 0 {
            Err(nested_too_deep())
        } else {
            advanced(
                w,
                lazy_path(path, context),
                ElementView::InlineFragment(
                    made_up_cast(
                        subgraph.schema,
                        position,
                        Some(CompositeView::Object(name)),
                        directives,
                        ids,
                    ),
                ),
                after_cast(ids),
                (budget - 1) as nat,
            )
        },
    }
}

/// The options for a field through each of the first `n` object types of an interface.
#[verifier::opaque]
pub open spec fn fields_of_objects(
    w: World,
    path: PathView,
    tail: NodeView,
    interface: Text,
    element: ElementView,
    context: ContextView,
    names: Seq<Text>,
    ids: Ids,
    budget: nat,
    n: nat,
) -> Result<(Option<Seq<Seq<SimultaneousView>>>, Ids), ErrorView>
    decreases budget, 2nat, n,
{
    if n == 0 {
        Ok((Some(Seq::empty()), ids))
    } else {
        match fields_of_objects(
            w,
            path,
            tail,
            interface,
            element,
            context,
            names,
            ids,
            budget,
            (n - 1) as nat,
        ) {
            Err(error) => Err(error),
            Ok((None, before)) => Ok((None, before)),
            Ok((Some(options), before)) => match field_of_object(
                w,
                path,
                tail,
                interface,
                element,
                context,
                names[n - 1],
                before,
                budget,
            ) {
                Err(error) => Err(error),
                Ok((None, after)) => Ok((None, after)),
                Ok((Some(found), after)) => Ok(
                    (
                        Some(
                            if found.len() == 0 {
                                options
                            } else {
                                options.push(found)
                            },
                        ),
                        after,
                    ),
                ),
            },
        }
    }
}

/// The options for a field through an object type of an interface. An empty list means that the
/// type never occurs here.
#[verifier::opaque]
pub open spec fn field_of_object(
    w: World,
    path: PathView,
    tail: NodeView,
    interface: Text,
    element: ElementView,
    context: ContextView,
    name: Text,
    ids: Ids,
    budget: nat,
) -> Result<(PathOptions, Ids), ErrorView>
    decreases budget, 1nat, 0nat,
{
    match cast_to_object(
        w,
        path,
        tail,
        CompositeView::Interface(interface),
        Seq::empty(),
        context,
        name,
        ids,
        budget,
    ) {
        Err(error) => Err(error),
        Ok((None, after)) => Ok((None, after)),
        Ok((Some(casts), after)) => if casts.len() == 0 {
            Ok((Some(Seq::empty()), after))
        } else {
            match collected(w, casts, element, after, budget, casts.len()) {
                Err(error) => Err(error),
                Ok((found, last)) => Ok(
                    (
                        if found.len() == 0 {
                            None
                        } else {
                            Some(found)
                        },
                        last,
                    ),
                ),
            }
        },
    }
}

/// The options for a field behind the first `n` of some options.
#[verifier::opaque]
pub open spec fn collected(
    w: World,
    casts: Seq<LazyView>,
    element: ElementView,
    ids: Ids,
    budget: nat,
    n: nat,
) -> Result<(Seq<SimultaneousView>, Ids), ErrorView>
    decreases budget, 0nat, n,
{
    if n == 0 {
        Ok((Seq::empty(), ids))
    } else {
        match collected(w, casts, element, ids, budget, (n - 1) as nat) {
            Err(error) => Err(error),
            Ok((options, before)) => if budget == 0 {
                Err(nested_too_deep())
            } else {
                match advanced(w, casts[n - 1], element, before, (budget - 1) as nat) {
                    Err(error) => Err(error),
                    Ok((None, after)) => Ok((options, after)),
                    Ok((Some(found), after)) => if found.len() == 0 {
                        Err(unsatisfiable_after(element))
                    } else {
                        Ok((options + paths_of(found), after))
                    },
                }
            },
        }
    }
}

} // verus!
