//! What the types of the supergraph are made of.

use crate::ast::DirectiveDefinitionView;
use crate::ast::DirectiveView;
use crate::ast::FieldView;
use crate::ast::InputValueView;
use crate::collections::has_key;
use crate::collections::key_index;
use crate::collections::lemma_key_index;
use crate::collections::lemma_value_of_put;
use crate::collections::put;
use crate::collections::put_if_absent;
use crate::collections::set_with;
use crate::collections::value_of;
use crate::collections::value_or;
use crate::collections::Entries;
use crate::merge::choose_values;
use crate::merge::core_features::with_join_feature;
use crate::merge::core_features::with_link_feature;
use crate::merge::directives::DirectiveNamesView;
use crate::merge::executable_definition;
use crate::merge::interface_object_field;
use crate::merge::merged_definitions;
use crate::merge::merged_schema_definition;
use crate::merge::merged_subgraphs;
use crate::merge::merger::after_description;
use crate::merge::merger::after_inaccessible;
use crate::merge::merger::argument_position;
use crate::merge::merger::field_stub;
use crate::merge::merger::merged_arguments;
use crate::merge::merger::merged_implements;
use crate::merge::merger::merged_interface_field;
use crate::merge::merger::merged_members;
use crate::merge::merger::merged_object_field;
use crate::merge::merger::merged_object_fields;
use crate::merge::merger::MergerView;
use crate::merge::merger::TypeEntries;
use crate::merge::merge_result;
use crate::merge::new_merger;
use crate::merge::sorted_by_name;
use crate::merge::with_implementer_fields;
use crate::merge::with_interface_fields;
use crate::merge::with_interface_object_fields;
use crate::merge::MergeOutcome;
use crate::merge::SubgraphView;
use crate::schema::implementers_of;
use crate::schema::noted_implementer;
use crate::schema::no_implementers;
use crate::schema::with_implementer;
use crate::schema::ExtendedTypeView;
use crate::schema::ImplementersView;
use crate::schema::ObjectView;
use crate::schema::SchemaDefinitionView;
use crate::schema::SchemaView;
use crate::text::Text;
use vstd::prelude::*;

verus! {

// Arguments.

/// Whether an argument is another one, but for its directives.
pub open spec fn is_argument(a: InputValueView, b: InputValueView) -> bool {
    a == (InputValueView { directives: a.directives, ..b })
}

/// Whether one of some arguments has the given name.
pub open spec fn has_argument(arguments: Seq<InputValueView>, name: Text) -> bool {
    exists|i: int| 0 <= i < arguments.len() && (#[trigger] arguments[i]).name == name
}

proof fn lemma_argument_position(arguments: Seq<InputValueView>, name: Text)
    ensures
        match argument_position(arguments, name) {
            Some(i) => 0 <= i < arguments.len() && arguments[i].name == name,
            None => !has_argument(arguments, name),
        },
    decreases arguments.len(),
{
    if arguments.len() > 0 && arguments[0].name != name {
        let rest = arguments.drop_first();
        lemma_argument_position(rest, name);
        match argument_position(rest, name) {
            Some(i) => {
                assert(arguments[i + 1] == rest[i]);
            },
            None => {
                if has_argument(arguments, name) {
                    let i = choose|i: int|
                        0 <= i < arguments.len() && (#[trigger] arguments[i]).name == name;
                    assert(rest[i - 1].name == name);
                }
            },
        }
    }
}

/// The arguments of a field of the supergraph stay, in their order and with their types, and those
/// of a subgraph that it lacks are added; no others are there.
pub proof fn law_arguments_are_united(
    m: MergerView,
    names: DirectiveNamesView,
    arguments: Seq<InputValueView>,
    new: Seq<InputValueView>,
    n: nat,
)
    requires
        n <= new.len(),
    ensures
        ({
            let after = merged_arguments(m, names, arguments, new, n).1;
            &&& arguments.len() <= after.len()
            &&& forall|i: int|
                0 <= i < arguments.len() ==> is_argument(#[trigger] after[i], arguments[i])
            &&& forall|j: int| 0 <= j < n ==> has_argument(after, (#[trigger] new[j]).name)
            &&& forall|i: int|
                arguments.len() <= i < after.len() ==> exists|j: int|
                    0 <= j < n && is_argument(#[trigger] after[i], #[trigger] new[j])
                        && !has_argument(arguments, new[j].name)
        }),
    decreases n,
{
    if n > 0 {
        law_arguments_are_united(m, names, arguments, new, (n - 1) as nat);
        let before = merged_arguments(m, names, arguments, new, (n - 1) as nat).1;
        let after = merged_arguments(m, names, arguments, new, n).1;
        let last = new[n - 1];
        lemma_argument_position(before, last.name);
        assert forall|i: int| 0 <= i < before.len() implies is_argument(
            #[trigger] after[i],
            before[i],
        ) by {}
        assert forall|i: int| 0 <= i < arguments.len() implies is_argument(
            #[trigger] after[i],
            arguments[i],
        ) by {
            assert(is_argument(before[i], arguments[i]));
        }
        assert forall|j: int| 0 <= j < n implies has_argument(after, (#[trigger] new[j]).name) by {
            if j < n - 1 {
                let i = choose|i: int|
                    0 <= i < before.len() && (#[trigger] before[i]).name == new[j].name;
                assert(is_argument(after[i], before[i]));
                assert(after[i].name == new[j].name);
            } else {
                match argument_position(before, last.name) {
                    Some(i) => {
                        assert(is_argument(after[i], before[i]));
                        assert(after[i].name == last.name);
                    },
                    None => {
                        assert(after[before.len() as int].name == last.name);
                    },
                }
            }
        }
        assert forall|i: int| arguments.len() <= i < after.len() implies exists|j: int|
            0 <= j < n && is_argument(#[trigger] after[i], #[trigger] new[j]) && !has_argument(
                arguments,
                new[j].name,
            ) by {
            if i < before.len() {
                assert(is_argument(after[i], before[i]));
                let j = choose|j: int|
                    0 <= j < n - 1 && is_argument(before[i], #[trigger] new[j]) && !has_argument(
                        arguments,
                        new[j].name,
                    );
                assert(is_argument(after[i], new[j]));
            } else {
                assert(is_argument(after[i], new[n - 1]));
                if has_argument(arguments, last.name) {
                    let k = choose|k: int|
                        0 <= k < arguments.len() && (#[trigger] arguments[k]).name == last.name;
                    assert(is_argument(before[k], arguments[k]));
                    assert(before[k].name == last.name);
                }
            }
        }
    }
}

// Interfaces and members.

/// A type of the supergraph implements what it implemented, and what it implements in the
/// subgraph.
pub proof fn law_interfaces_are_united(
    graph: Text,
    interfaces: Seq<Text>,
    directives: Seq<DirectiveView>,
    new: Seq<Text>,
    n: nat,
    name: Text,
)
    requires
        n <= new.len(),
    ensures
        merged_implements(graph, interfaces, directives, new, n).0.contains(name) == (
        interfaces.contains(name) || new.take(n as int).contains(name)),
    decreases n,
{
    if n > 0 {
        law_interfaces_are_united(graph, interfaces, directives, new, (n - 1) as nat, name);
        let before = merged_implements(graph, interfaces, directives, new, (n - 1) as nat).0;
        lemma_one_more(before, new[n - 1], name);
        lemma_one_more_taken(new, n as int, name);
    }
}

/// A union of the supergraph has the members that it had, and those of the subgraph.
pub proof fn law_members_are_united(
    graph: Text,
    members: Seq<Text>,
    directives: Seq<DirectiveView>,
    new: Seq<Text>,
    n: nat,
    name: Text,
)
    requires
        n <= new.len(),
    ensures
        merged_members(graph, members, directives, new, n).0.contains(name) == (members.contains(
            name,
        ) || new.take(n as int).contains(name)),
    decreases n,
{
    if n > 0 {
        law_members_are_united(graph, members, directives, new, (n - 1) as nat, name);
        let before = merged_members(graph, members, directives, new, (n - 1) as nat).0;
        lemma_one_more(before, new[n - 1], name);
        lemma_one_more_taken(new, n as int, name);
    }
}

proof fn lemma_one_more(names: Seq<Text>, new: Text, name: Text)
    ensures
        set_with(names, new).contains(name) == (names.contains(name) || new == name),
{
    let after = set_with(names, new);
    if names.contains(name) {
        let i = choose|i: int| 0 <= i < names.len() && names[i] == name;
        assert(after[i] == name);
    }
    if !names.contains(new) {
        assert(after[names.len() as int] == new);
        if after.contains(name) {
            let i = choose|i: int| 0 <= i < after.len() && after[i] == name;
            if i < names.len() {
                assert(names[i] == name);
            }
        }
    }
}

proof fn lemma_one_more_taken(names: Seq<Text>, n: int, name: Text)
    requires
        0 < n <= names.len(),
    ensures
        names.take(n).contains(name) == (names.take(n - 1).contains(name) || names[n - 1] == name),
{
    let all = names.take(n);
    let some = names.take(n - 1);
    if all.contains(name) {
        let i = choose|i: int| 0 <= i < all.len() && all[i] == name;
        if i < n - 1 {
            assert(some[i] == name);
        }
    }
    if some.contains(name) {
        let i = choose|i: int| 0 <= i < some.len() && some[i] == name;
        assert(all[i] == name);
    }
    assert(all[n - 1] == names[n - 1]);
}

// Fields.

/// Whether a field is of the type that another one is of, under its name.
pub open spec fn is_of_type(a: FieldView, b: FieldView) -> bool {
    a.name == b.name && a.ty == b.ty
}

/// A field of an object of the supergraph keeps its type and its description. One that the
/// supergraph lacks is of the type that it is of in the subgraph, where it stands first there, and
/// no field comes from elsewhere.
pub proof fn law_fields_are_united(
    m: MergerView,
    names: DirectiveNamesView,
    graph: Text,
    merged: Entries<FieldView>,
    new: Entries<FieldView>,
    n: nat,
    name: Text,
)
    requires
        n <= new.len(),
    ensures
        ({
            let after = value_of(merged_object_fields(m, names, graph, merged, new, n).1, name);
            &&& value_of(merged, name) matches Some(field) ==> (after matches Some(found)
                && is_of_type(found, field) && (field.description is Some ==> found.description
                == field.description))
            &&& value_of(merged, name) is None ==> match value_of(new.take(n as int), name) {
                Some(field) => if name == "_service"@ || name == "_entities"@ {
                    after is None
                } else {
                    after matches Some(found) && is_of_type(found, field) && (
                    field.description is Some ==> found.description == field.description)
                },
                None => after is None,
            }
        }),
    decreases n,
{
    if n > 0 {
        law_fields_are_united(m, names, graph, merged, new, (n - 1) as nat, name);
        let (m1, before) = merged_object_fields(m, names, graph, merged, new, (n - 1) as nat);
        let (key, field) = new[n - 1];
        lemma_first_taken(new, n as int, name);
        if !(key == "_service"@ || key == "_entities"@) {
            let start = value_or(before, key, field_stub(field));
            let result = merged_object_field(m1, names, graph, start, field).1;
            lemma_value_of_put(before, key, result, name);
        }
    } else {
        assert(!has_key(new.take(0), name));
    }
}

proof fn lemma_first_taken<T>(entries: Entries<T>, n: int, name: Text)
    requires
        0 < n <= entries.len(),
    ensures
        value_of(entries.take(n), name) == (match value_of(entries.take(n - 1), name) {
            Some(value) => Some(value),
            None => if entries[n - 1].0 == name {
                Some(entries[n - 1].1)
            } else {
                None
            },
        }),
{
    let all = entries.take(n);
    let some = entries.take(n - 1);
    if has_key(some, name) {
        lemma_key_index(some, name);
        let i = key_index(some, name);
        assert(all[i] == some[i]);
        assert(has_key(all, name));
        lemma_key_index(all, name);
        assert forall|j: int| 0 <= j < i implies (#[trigger] all[j]).0 != name by {
            assert(some[j] == all[j]);
        }
        assert(key_index(all, name) == i);
    } else {
        if entries[n - 1].0 == name {
            assert(all[n - 1].0 == name);
            assert(has_key(all, name));
            lemma_key_index(all, name);
            assert forall|j: int| 0 <= j < n - 1 implies (#[trigger] all[j]).0 != name by {
                assert(some[j] == all[j]);
            }
            assert(key_index(all, name) == n - 1);
        } else if has_key(all, name) {
            let i = choose|i: int| 0 <= i < all.len() && (#[trigger] all[i]).0 == name;
            assert(some[i].0 == name);
        }
    }
}

/// The description of a field is the first one, and a hint is given exactly if the subgraph has
/// another one. The arguments are those of `merged_arguments`.
pub proof fn law_first_description_stays(
    m: MergerView,
    names: DirectiveNamesView,
    graph: Text,
    merged: FieldView,
    new: FieldView,
)
    ensures
        ({
            let (after, field) = merged_object_field(m, names, graph, merged, new);
            let plain = merged_interface_field(m, names, graph, merged, new).1;
            let conflict = merged.description is Some && new.description is Some
                && merged.description != new.description;
            &&& merged.description is Some ==> field.description == merged.description
            &&& merged.description is None ==> field.description == new.description
            &&& plain.description == field.description
            &&& is_of_type(field, merged)
            &&& is_of_type(plain, merged)
            &&& conflict ==> after.composition_hints.len() == m.composition_hints.len() + 1
            &&& !conflict ==> after.composition_hints == m.composition_hints
            &&& after.errors == m.errors
            &&& after.interface_objects == m.interface_objects
        }),
{
    lemma_arguments_give_no_hints(m, names, merged.arguments, new.arguments, new.arguments.len());
    let m1 = after_description(m, merged.description, new.description);
    let m2 = after_inaccessible(
        m1,
        names,
        merged.directives,
        new.directives,
    );
    lemma_arguments_give_no_hints(m2, names, merged.arguments, new.arguments, new.arguments.len());
}

proof fn lemma_arguments_give_no_hints(
    m: MergerView,
    names: DirectiveNamesView,
    arguments: Seq<InputValueView>,
    new: Seq<InputValueView>,
    n: nat,
)
    ensures
        ({
            let after = merged_arguments(m, names, arguments, new, n).0;
            &&& after.composition_hints == m.composition_hints
            &&& after.errors == m.errors
            &&& after.interface_objects == m.interface_objects
        }),
    decreases n,
{
    if n > 0 {
        lemma_arguments_give_no_hints(m, names, arguments, new, (n - 1) as nat);
    }
}

// Root types.

/// A root type of the supergraph is the one that the subgraph has, if it has one, and otherwise the
/// one from before; of descriptions the first one stays.
pub proof fn law_roots_are_united(merged: SchemaDefinitionView, new: SchemaDefinitionView)
    ensures
        ({
            let after = merged_schema_definition(merged, new);
            &&& after.query == (if new.query is Some {
                new.query
            } else {
                merged.query
            })
            &&& after.mutation == (if new.mutation is Some {
                new.mutation
            } else {
                merged.mutation
            })
            &&& after.subscription == (if new.subscription is Some {
                new.subscription
            } else {
                merged.subscription
            })
            &&& merged.description is Some ==> after.description == merged.description
            &&& merged.description is None ==> after.description == new.description
            &&& after.directives == merged.directives
        }),
{
}

// Definitions of directives.

/// The supergraph keeps its definitions of directives, and gets those of a subgraph that can be
/// applied in operations under names that it lacks; it gets no others.
pub proof fn law_definitions_are_united(
    merged: Entries<DirectiveDefinitionView>,
    new: Entries<DirectiveDefinitionView>,
    n: nat,
    name: Text,
)
    requires
        n <= new.len(),
    ensures
        ({
            let after = value_of(merged_definitions(merged, new, n), name);
            &&& value_of(merged, name) is Some ==> after == value_of(merged, name)
            &&& forall|j: int|
                0 <= j < n && executable_definition((#[trigger] new[j]).1) && new[j].1.name == name
                    ==> after is Some
            &&& value_of(merged, name) is None ==> (after matches Some(found) ==> exists|j: int|
                0 <= j < n && (#[trigger] new[j]).1 == found && found.name == name
                    && executable_definition(found))
        }),
    decreases n,
{
    if n > 0 {
        law_definitions_are_united(merged, new, (n - 1) as nat, name);
        let before = merged_definitions(merged, new, (n - 1) as nat);
        let definition = new[n - 1].1;
        if executable_definition(definition) && !has_key(before, definition.name) {
            lemma_value_of_put(before, definition.name, definition, name);
            assert(put(before, definition.name, definition) == put_if_absent(
                before,
                definition.name,
                definition,
            ));
        }
        let after = value_of(merged_definitions(merged, new, n), name);
        if value_of(merged, name) is None && after is Some {
            if value_of(before, name) is Some {
                let j = choose|j: int|
                    0 <= j < n - 1 && (#[trigger] new[j]).1 == after->0 && after->0.name == name
                        && executable_definition(after->0);
                assert(new[j].1 == after->0);
            } else {
                assert(new[n - 1].1 == after->0);
            }
        }
    }
}

// Interface objects.

/// Whether a field is one of an interface that no particular subgraph has: it has a `@join__field`
/// without arguments, and no other one.
pub open spec fn is_of_no_graph(field: FieldView, of: FieldView) -> bool {
    &&& field == (FieldView { directives: field.directives, ..of })
    &&& forall|i: int|
        0 <= i < field.directives.len() && (#[trigger] field.directives[i]).name == "join__field"@
            ==> field.directives[i].arguments.len() == 0
    &&& exists|i: int|
        0 <= i < field.directives.len() && (#[trigger] field.directives[i]).name
            == "join__field"@
}

proof fn lemma_of_no_graph(field: FieldView)
    ensures
        is_of_no_graph(interface_object_field(field), field),
{
    let others = |d: DirectiveView| d.name != "join__field"@;
    let kept = field.directives.filter(others);
    let after = interface_object_field(field).directives;
    assert forall|i: int| 0 <= i < after.len() && (#[trigger] after[i]).name
        == "join__field"@ implies after[i].arguments.len() == 0 by {
        if i < kept.len() {
            field.directives.lemma_filter_pred(others, i);
            assert(others(kept[i]));
        }
    }
    assert(after[kept.len() as int].name == "join__field"@);
}

/// An object gets the fields of an interface that it lacks, as fields of no particular subgraph,
/// and keeps its own.
pub proof fn law_fields_of_interfaces_are_added(
    fields: Entries<FieldView>,
    more: Entries<FieldView>,
    n: nat,
    name: Text,
)
    requires
        n <= more.len(),
    ensures
        ({
            let after = value_of(with_interface_fields(fields, more, n), name);
            &&& value_of(fields, name) is Some ==> after == value_of(fields, name)
            &&& value_of(fields, name) is None ==> match value_of(more.take(n as int), name) {
                Some(field) => after matches Some(found) && is_of_no_graph(found, field),
                None => after is None,
            }
        }),
    decreases n,
{
    if n > 0 {
        law_fields_of_interfaces_are_added(fields, more, (n - 1) as nat, name);
        let before = with_interface_fields(fields, more, (n - 1) as nat);
        let (key, field) = more[n - 1];
        lemma_first_taken(more, n as int, name);
        lemma_of_no_graph(field);
        if !has_key(before, key) {
            lemma_value_of_put(before, key, interface_object_field(field), name);
        }
    } else {
        assert(!has_key(more.take(0), name));
    }
}

/// Whether the object of the given name has all fields of an interface.
spec fn has_all(types: TypeEntries, object: Text, fields: Entries<FieldView>) -> bool {
    value_of(types, object) matches Some(ExtendedTypeView::Object(o)) && forall|name: Text|
        has_key(fields, name) ==> #[trigger] has_key(o.fields, name)
}

/// What giving fields to objects leaves: interfaces, the objects and what they have and implement.
spec fn only_adds_fields(after: TypeEntries, before: TypeEntries, k: Text) -> bool {
    match value_of(before, k) {
        Some(ExtendedTypeView::Object(o)) => value_of(after, k) matches Some(
            ExtendedTypeView::Object(p),
        ) && p == (ObjectView { fields: p.fields, ..o }) && forall|name: Text|
            has_key(o.fields, name) ==> #[trigger] has_key(p.fields, name),
        other => value_of(after, k) == other,
    }
}

proof fn lemma_implementers_get(
    types: TypeEntries,
    implementers: Seq<Text>,
    fields: Entries<FieldView>,
    n: nat,
    k: Text,
)
    requires
        n <= implementers.len(),
    ensures
        ({
            let after = with_implementer_fields(types, implementers, fields, n);
            &&& only_adds_fields(after, types, k)
            &&& implementers.take(n as int).contains(k) && (value_of(types, k) matches Some(
                ExtendedTypeView::Object(_),
            )) ==> has_all(after, k, fields)
        }),
    decreases n,
{
    if n > 0 {
        lemma_implementers_get(types, implementers, fields, (n - 1) as nat, k);
        let before = with_implementer_fields(types, implementers, fields, (n - 1) as nat);
        let after = with_implementer_fields(types, implementers, fields, n);
        let name = implementers[n - 1];
        lemma_one_more_taken(implementers, n as int, k);
        match value_of(before, name) {
            Some(ExtendedTypeView::Object(o)) => {
                let all = with_interface_fields(o.fields, fields, fields.len());
                let extended = ExtendedTypeView::Object(ObjectView { fields: all, ..o });
                lemma_value_of_put(before, name, extended, k);
                assert forall|f: Text| has_key(o.fields, f) || has_key(
                    fields,
                    f,
                ) implies #[trigger] has_key(all, f) by {
                    law_fields_of_interfaces_are_added(o.fields, fields, fields.len(), f);
                    assert(fields.take(fields.len() as int) =~= fields);
                }
                if k == name {
                    assert(has_all(after, k, fields));
                }
            },
            _ => {},
        }
    }
}

proof fn lemma_interface_objects_get(
    types: TypeEntries,
    map: Entries<ImplementersView>,
    interface_objects: Seq<Text>,
    n: nat,
    i: int,
    object: Text,
    k: Text,
)
    requires
        n <= interface_objects.len(),
    ensures
        ({
            let (error, after) = with_interface_object_fields(types, map, interface_objects, n);
            &&& only_adds_fields(after, types, k)
            &&& error is None && 0 <= i < n ==> {
                &&& value_of(types, interface_objects[i]) matches Some(
                    ExtendedTypeView::Interface(interface),
                ) && ((value_of(map, interface_objects[i]) matches Some(implementers)
                    && implementers.objects.contains(object)) && (value_of(types, object) matches Some(
                    ExtendedTypeView::Object(_),
                )) ==> has_all(after, object, interface.fields))
            }
        }),
    decreases n,
{
    if n > 0 {
        lemma_interface_objects_get(types, map, interface_objects, (n - 1) as nat, i, object, k);
        let name = interface_objects[n - 1];
        lemma_interface_objects_get(
            types,
            map,
            interface_objects,
            (n - 1) as nat,
            i,
            object,
            name,
        );
        lemma_interface_objects_get(
            types,
            map,
            interface_objects,
            (n - 1) as nat,
            i,
            object,
            object,
        );
        let (error, before) = with_interface_object_fields(
            types,
            map,
            interface_objects,
            (n - 1) as nat,
        );
        if error is None {
            match (value_of(before, name), value_of(map, name)) {
                (Some(ExtendedTypeView::Interface(interface)), Some(implementers)) => {
                    let all = implementers.objects + implementers.interfaces;
                    lemma_implementers_get(before, all, interface.fields, all.len(), k);
                    lemma_implementers_get(before, all, interface.fields, all.len(), object);
                    assert(all.take(all.len() as int) =~= all);
                    if implementers.objects.contains(object) {
                        let j = choose|j: int|
                            0 <= j < implementers.objects.len() && implementers.objects[j]
                                == object;
                        assert(all[j] == object);
                    }
                },
                _ => {},
            }
        }
    }
}

/// Whether an object is noted among the implementers of an interface.
spec fn is_implementer(map: Entries<ImplementersView>, interface: Text, object: Text) -> bool {
    value_of(map, interface) matches Some(implementers) && implementers.objects.contains(object)
}

proof fn lemma_noted(
    map: Entries<ImplementersView>,
    name: Text,
    is_object: bool,
    interfaces: Seq<Text>,
    n: nat,
    interface: Text,
    object: Text,
)
    requires
        n <= interfaces.len(),
    ensures
        ({
            let after = noted_implementer(map, name, is_object, interfaces, n);
            &&& is_implementer(map, interface, object) ==> is_implementer(after, interface, object)
            &&& is_object && name == object && interfaces.take(n as int).contains(interface)
                ==> is_implementer(after, interface, object)
        }),
    decreases n,
{
    if n > 0 {
        lemma_noted(map, name, is_object, interfaces, (n - 1) as nat, interface, object);
        let before = noted_implementer(map, name, is_object, interfaces, (n - 1) as nat);
        let last = interfaces[n - 1];
        let known = value_or(before, last, no_implementers());
        lemma_one_more_taken(interfaces, n as int, interface);
        lemma_one_more(known.objects, name, object);
        lemma_value_of_put(before, last, with_implementer(known, name, is_object), interface);
    }
}

proof fn lemma_implementers(
    types: TypeEntries,
    n: nat,
    i: int,
    interface: Text,
    object: Text,
)
    requires
        n <= types.len(),
    ensures
        0 <= i < n && types[i].0 == object && (types[i].1 matches ExtendedTypeView::Object(o)
            && o.implements_interfaces.contains(interface)) ==> is_implementer(
            implementers_of(types, n),
            interface,
            object,
        ),
    decreases n,
{
    if n > 0 {
        lemma_implementers(types, (n - 1) as nat, i, interface, object);
        let before = implementers_of(types, (n - 1) as nat);
        let (name, ty) = types[n - 1];
        match ty {
            ExtendedTypeView::Object(o) => {
                let all = o.implements_interfaces;
                lemma_noted(before, name, true, all, all.len(), interface, object);
                assert(all.take(all.len() as int) =~= all);
            },
            ExtendedTypeView::Interface(t) => {
                let all = t.implements_interfaces;
                lemma_noted(before, name, false, all, all.len(), interface, object);
            },
            _ => {},
        }
    }
}

/// Where some subgraph has an object in the place of an interface, every object of the supergraph
/// that implements the interface has all its fields.
pub proof fn law_objects_have_the_fields_of_interface_objects(
    base: SchemaView,
    subgraphs: Seq<SubgraphView>,
    i: int,
    object: Text,
)
    ensures
        ({
            let (merger, outcome) = merge_result(new_merger(), base, subgraphs);
            outcome matches MergeOutcome::Success { schema, hints } ==> (0 <= i
                < merger.interface_objects.len() ==> (value_of(
                schema.types,
                merger.interface_objects[i],
            ) matches Some(ExtendedTypeView::Interface(interface)) && (value_of(
                schema.types,
                object,
            ) matches Some(ExtendedTypeView::Object(o)) ==> (o.implements_interfaces.contains(
                merger.interface_objects[i],
            ) ==> forall|name: Text|
                has_key(interface.fields, name) ==> #[trigger] has_key(o.fields, name)))))
        }),
{
    let m = new_merger();
    let sorted = sorted_by_name(subgraphs);
    let chosen = choose_values(Seq::empty(), sorted, sorted.len()).chosen;
    let start = with_join_feature(with_link_feature(base), chosen);
    assert(MergerView { errors: Seq::empty(), ..m } == m);
    assert(m.errors =~= Seq::empty());
    let (merged, stubs) = merged_subgraphs(m, start, chosen, chosen.len());
    let types = stubs.types;
    let map = implementers_of(types, types.len());
    let all = merged.interface_objects;
    if 0 <= i < all.len() {
        let interface = all[i];
        lemma_interface_objects_get(types, map, all, all.len(), i, object, object);
        lemma_interface_objects_get(types, map, all, all.len(), i, object, interface);
        if has_key(types, object) {
            lemma_key_index(types, object);
            lemma_implementers(types, types.len(), key_index(types, object), interface, object);
        }
    }
}

} // verus!
