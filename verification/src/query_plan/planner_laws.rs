//! What a planner goes by.

use crate::collections::has_key;
use crate::collections::lemma_value_of_put;
use crate::collections::set_with;
use crate::collections::value_of;
use crate::collections::Entries;
use crate::error::ErrorKind;
use crate::merge::directives::has_directive;
use crate::operation::executable::ExecutableOperationView;
use crate::query_graph::fragment_laws::can_be;
use crate::query_graph::fragment_laws::law_runtime_types;
use crate::query_graph::EdgeView;
use crate::query_graph::NodeTypeView;
use crate::query_graph::NodeView;
use crate::query_graph::SchemaRootDefinitionKind;
use crate::query_graph::SourceView;
use crate::query_plan::order_laws::steps_of;
use crate::query_plan::order_laws::steps_of_node;
use crate::query_plan::order_laws::steps_of_nodes;
use crate::query_plan::planner::agree_on;
use crate::query_plan::planner::disabled_sources;
use crate::query_plan::planner::federated_root;
use crate::query_plan::planner::first_named;
use crate::query_plan::planner::has_interface_object;
use crate::query_plan::planner::inconsistent_types;
use crate::query_plan::planner::interfaces_with_objects;
use crate::query_plan::planner::is_consistent;
use crate::query_plan::planner::objects_in;
use crate::query_plan::planner::override_values;
use crate::query_plan::planner::selected_operation;
use crate::query_plan::planner::stands_for_interface;
use crate::query_plan::planner::top_level;
use crate::query_plan::PlanView;
use crate::query_plan::TopLevelView;
use crate::schema::ExtendedTypeView;
use crate::text::Text;
use vstd::prelude::*;

verus! {

proof fn lemma_one_more(names: Seq<Text>, new: Text, name: Text)
    ensures
        set_with(names, new).contains(name) == (names.contains(name) || new == name),
{
    let after = set_with(names, new);
    if names.contains(name) {
        let i = choose|i: int| 0 <= i < names.len() && names[i] == name;
        assert(after[i] == name);
    }
    if !names.contains(new) {
        assert(after[names.len() as int] == new);
        if after.contains(name) {
            let i = choose|i: int| 0 <= i < after.len() && after[i] == name;
            if i < names.len() {
                assert(names[i] == name);
            }
        }
    }
}

// Operations.

proof fn lemma_first_named(operations: Seq<ExecutableOperationView>, name: Text, from: nat)
    ensures
        match first_named(operations, name, from) {
            Some(found) => from <= found < operations.len() && operations[found as int].name
                == Some(name) && forall|i: int|
                from <= i < found ==> (#[trigger] operations[i]).name != Some(name),
            None => forall|i: int|
                from <= i < operations.len() ==> (#[trigger] operations[i]).name != Some(name),
        },
    decreases operations.len() - from,
{
    if from < operations.len() && operations[from as int].name != Some(name) {
        lemma_first_named(operations, name, from + 1);
    }
}

/// An operation is found by its name: the first one that has it, or none if no one has. Without a
/// name it is the only one of the document, or none if there are several.
pub proof fn law_operations_are_found_by_name(
    operations: Seq<ExecutableOperationView>,
    name: Option<Text>,
)
    ensures
        match (selected_operation(operations, name), name) {
            (Ok(found), Some(wanted)) => exists|k: int|
                0 <= k < operations.len() && #[trigger] operations[k] == found && found.name
                    == Some(wanted) && forall|i: int|
                    0 <= i < k ==> (#[trigger] operations[i]).name != Some(wanted),
            (Err(error), Some(wanted)) => error.kind == ErrorKind::UnknownOperation && forall|
                i: int,
            |
                0 <= i < operations.len() ==> (#[trigger] operations[i]).name != Some(wanted),
            (Ok(found), None) => operations == seq![found],
            (Err(error), None) => error.kind == ErrorKind::OperationNameNotProvided
                && operations.len() != 1,
        },
{
    match name {
        Some(wanted) => {
            lemma_first_named(operations, wanted, 0);
            if let Some(k) = first_named(operations, wanted, 0) {
                assert(operations[k as int].name == Some(wanted));
            }
        },
        None => {
            if operations.len() == 1 {
                assert(operations =~= seq![operations[0]]);
            }
        },
    }
}

// Overrides.

/// Whether one of the first `n` edges depends on a label.
pub open spec fn depends_on(edges: Seq<EdgeView>, label: Text, n: nat) -> bool {
    exists|i: int|
        0 <= i < n && ((#[trigger] edges[i]).override_condition matches Some(condition)
            && condition.label == label)
}

/// Every label that an edge of the query graph depends on has a value, which says whether it is
/// enabled; no other label has one.
pub proof fn law_labels_have_their_values(
    edges: Seq<EdgeView>,
    enabled: Seq<Text>,
    n: nat,
    label: Text,
)
    requires
        n <= edges.len(),
    ensures
        value_of(override_values(edges, enabled, n), label) == (if depends_on(edges, label, n) {
            Some(enabled.contains(label))
        } else {
            None
        }),
    decreases n,
{
    if n > 0 {
        let last = (n - 1) as nat;
        law_labels_have_their_values(edges, enabled, last, label);
        let before = override_values(edges, enabled, last);
        if depends_on(edges, label, last) {
            let i = choose|i: int|
                0 <= i < last && ((#[trigger] edges[i]).override_condition matches Some(condition)
                    && condition.label == label);
            assert(edges[i].override_condition is Some);
            assert(depends_on(edges, label, n));
        }
        match edges[n - 1].override_condition {
            Some(condition) => {
                lemma_value_of_put(
                    before,
                    condition.label,
                    enabled.contains(condition.label),
                    label,
                );
                if condition.label == label {
                    assert(depends_on(edges, label, n));
                }
            },
            None => {},
        }
    } else {
        assert(!has_key(override_values(edges, enabled, 0), label));
    }
}

// Subgraphs.

/// A subgraph is disabled exactly if it is one of the subgraphs and is named as disabled.
pub proof fn law_named_subgraphs_are_disabled(
    sources: Entries<SourceView>,
    names: Seq<Text>,
    n: nat,
    name: Text,
)
    requires
        n <= sources.len(),
    ensures
        disabled_sources(sources, names, n).contains(name) == (names.contains(name) && exists|
            i: int,
        |
            0 <= i < n && (#[trigger] sources[i]).0 == name),
    decreases n,
{
    if n > 0 {
        law_named_subgraphs_are_disabled(sources, names, (n - 1) as nat, name);
        let before = disabled_sources(sources, names, (n - 1) as nat);
        lemma_one_more(before, sources[n - 1].0, name);
        assert(sources[n - 1].0 == sources[n - 1].0);
    }
}

/// Whether a type of a subgraph is an object with the directive by which it stands for an
/// interface.
pub open spec fn has_object_for(source: SourceView, name: Text) -> bool {
    value_of(source.schema.types, name) matches Some(ExtendedTypeView::Object(o)) && exists|i: int|
        0 <= i < o.directives.len() && (#[trigger] o.directives[i]).name == source.interface_object
}

/// Whether some subgraph has an object that stands for an interface.
pub open spec fn some_has_object_for(sources: Entries<SourceView>, name: Text) -> bool {
    exists|i: int| 0 <= i < sources.len() && has_object_for((#[trigger] sources[i]).1, name)
}

/// An interface of the supergraph is known to have interface objects exactly if some subgraph has
/// one for it.
pub proof fn law_interfaces_with_objects_are_known(
    types: Entries<ExtendedTypeView>,
    sources: Entries<SourceView>,
    n: nat,
    name: Text,
)
    requires
        n <= types.len(),
    ensures
        interfaces_with_objects(types, sources, n).contains(name) == (some_has_object_for(
            sources,
            name,
        ) && exists|i: int|
            0 <= i < n && (#[trigger] types[i]).0 == name && types[i].1 is Interface),
    decreases n,
{
    if n > 0 {
        law_interfaces_with_objects_are_known(types, sources, (n - 1) as nat, name);
        let before = interfaces_with_objects(types, sources, (n - 1) as nat);
        let last = types[n - 1].0;
        lemma_one_more(before, last, name);
        assert(has_interface_object(sources, last)
            == some_has_object_for(sources, last)) by {
            assert forall|i: int| 0 <= i < sources.len() implies has_object_for(
                (#[trigger] sources[i]).1,
                last,
            ) == stands_for_interface(sources[i].1, last) by {
                let source = sources[i].1;
                if let Some(ExtendedTypeView::Object(o)) = value_of(source.schema.types, last) {
                    assert(has_directive(o.directives, source.interface_object)
                        == has_object_for(source, last));
                }
            }
            if some_has_object_for(sources, last) {
                let i = choose|i: int|
                    0 <= i < sources.len() && has_object_for((#[trigger] sources[i]).1, last);
                assert(stands_for_interface(sources[i].1, last));
            }
            if has_interface_object(sources, last) {
                let i = choose|i: int|
                    0 <= i < sources.len() && stands_for_interface(
                        (#[trigger] sources[i]).1,
                        last,
                    );
                assert(has_object_for(sources[i].1, last));
            }
        }
        assert(types[n - 1].0 == last);
    }
}

/// Whether a type is abstract in a subgraph.
pub open spec fn is_abstract_in(source: SourceView, name: Text) -> bool {
    value_of(source.schema.types, name) matches Some(ty) && (ty is Interface || ty is Union)
}

/// Whether an abstract type can be an object in one subgraph and not in another that has the type.
pub open spec fn differs_between(a: SourceView, b: SourceView, name: Text) -> bool {
    is_abstract_in(a, name) && is_abstract_in(b, name) && exists|object: Text|
        #[trigger] can_be(a.schema, object, name) && !can_be(b.schema, object, name)
}

proof fn lemma_agree(a: SourceView, b: SourceView, name: Text)
    ensures
        agree_on(a, b, name) == !(differs_between(a, b, name) || differs_between(b, a, name)),
{
    match (objects_in(a, name), objects_in(b, name)) {
        (Some(x), Some(y)) => {
            assert forall|object: Text|
                x.to_set().contains(object) == #[trigger] can_be(a.schema, object, name) by {
                law_runtime_types(a.schema, name, object);
            }
            assert forall|object: Text|
                y.to_set().contains(object) == #[trigger] can_be(b.schema, object, name) by {
                law_runtime_types(b.schema, name, object);
            }
            if !(differs_between(a, b, name) || differs_between(b, a, name)) {
                assert forall|object: Text| x.to_set().contains(object) == y.to_set().contains(
                    object,
                ) by {
                    assert(can_be(a.schema, object, name) == can_be(b.schema, object, name));
                }
                assert(x.to_set() =~= y.to_set());
            }
        },
        _ => {},
    }
}

/// An abstract type of the supergraph is known to be inconsistent exactly if it can be an object in
/// one subgraph and not in another one that has it.
pub proof fn law_inconsistent_types_are_known(
    types: Entries<ExtendedTypeView>,
    sources: Entries<SourceView>,
    n: nat,
    name: Text,
)
    requires
        n <= types.len(),
    ensures
        inconsistent_types(types, sources, n).contains(name) == ((exists|i: int, j: int|
            0 <= i < sources.len() && 0 <= j < sources.len() && differs_between(
                (#[trigger] sources[i]).1,
                (#[trigger] sources[j]).1,
                name,
            )) && exists|i: int|
            0 <= i < n && (#[trigger] types[i]).0 == name && (types[i].1 is Interface
                || types[i].1 is Union)),
    decreases n,
{
    if n > 0 {
        law_inconsistent_types_are_known(types, sources, (n - 1) as nat, name);
        let before = inconsistent_types(types, sources, (n - 1) as nat);
        let last = types[n - 1].0;
        lemma_one_more(before, last, name);
        assert forall|i: int, j: int|
            0 <= i < sources.len() && 0 <= j < sources.len() implies agree_on(
            (#[trigger] sources[i]).1,
            (#[trigger] sources[j]).1,
            last,
        ) == !(differs_between(sources[i].1, sources[j].1, last) || differs_between(
            sources[j].1,
            sources[i].1,
            last,
        )) by {
            lemma_agree(sources[i].1, sources[j].1, last);
        }
        if !is_consistent(sources, last) {
            let (i, j) = choose|i: int, j: int|
                0 <= i < sources.len() && 0 <= j < sources.len() && !agree_on(
                    (#[trigger] sources[i]).1,
                    (#[trigger] sources[j]).1,
                    last,
                );
            assert(differs_between(sources[i].1, sources[j].1, last) || differs_between(
                sources[j].1,
                sources[i].1,
                last,
            ));
        }
        assert(types[n - 1].0 == last);
    }
}

// Roots.

/// The root of the query graph for a kind of operations is the first node that is one, if any is.
pub proof fn law_roots_are_found(nodes: Seq<NodeView>, kind: SchemaRootDefinitionKind, from: nat)
    requires
        nodes.len() <= usize::MAX,
    ensures
        match federated_root(nodes, kind, from) {
            Some(found) => from <= found < nodes.len() && nodes[found as int].type_
                == NodeTypeView::FederatedRootType(kind) && forall|i: int|
                from <= i < found ==> (#[trigger] nodes[i]).type_
                    != NodeTypeView::FederatedRootType(kind),
            None => forall|i: int|
                from <= i < nodes.len() ==> (#[trigger] nodes[i]).type_
                    != NodeTypeView::FederatedRootType(kind),
        },
    decreases nodes.len() - from,
{
    if from < nodes.len() && nodes[from as int].type_ != NodeTypeView::FederatedRootType(kind) {
        law_roots_are_found(nodes, kind, from + 1);
    }
}

// Subscriptions.

proof fn lemma_steps_behind_the_first(nodes: Seq<PlanView>, n: nat)
    requires
        0 < n <= nodes.len(),
    ensures
        steps_of_nodes(nodes, n) == steps_of_node(nodes[0]) + steps_of_nodes(
            nodes.subrange(1, nodes.len() as int),
            (n - 1) as nat,
        ),
    decreases n,
{
    let rest = nodes.subrange(1, nodes.len() as int);
    if n == 1 {
        assert(steps_of_nodes(nodes, 0) =~= Seq::empty());
        assert(steps_of_nodes(nodes, 1) =~= steps_of_node(nodes[0]));
        assert(steps_of_node(nodes[0]) + steps_of_nodes(rest, 0) =~= steps_of_node(nodes[0]));
    } else {
        lemma_steps_behind_the_first(nodes, (n - 1) as nat);
        assert(rest[n - 2] == nodes[n - 1]);
        assert(steps_of_nodes(nodes, n) =~= steps_of_node(nodes[0]) + steps_of_nodes(
            rest,
            (n - 1) as nat,
        ));
    }
}

/// A subscription does what its plan does: it subscribes with the first fetch, and the rest is
/// what comes after that. Any other plan stays as it is.
pub proof fn law_subscriptions_do_the_rest_afterwards(node: Option<PlanView>, is_subscription: bool)
    ensures
        top_level(node, is_subscription) matches Ok(Some(top)) ==> match top {
            TopLevelView::Subscription { primary, rest } => is_subscription && steps_of(node)
                == seq![PlanView::Fetch(primary)] + steps_of(rest),
            TopLevelView::Node(plan) => !is_subscription && node == Some(plan),
        },
{
    if is_subscription {
        match node {
            Some(PlanView::Fetch(primary)) => {
                let one = seq![PlanView::Fetch(primary)];
                assert(one + steps_of(None) =~= one);
            },
            Some(PlanView::Sequence(nodes)) => {
                if nodes.len() > 0 {
                    lemma_steps_behind_the_first(nodes, nodes.len());
                }
            },
            _ => {},
        }
    }
}

} // verus!
