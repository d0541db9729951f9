//! Merging the types of one subgraph into those of the supergraph.

use crate::ast::clone_text;
use crate::ast::Argument;
use crate::ast::Directive;
use crate::ast::DirectiveView;
use crate::ast::EnumValueDefinition;
use crate::ast::EnumValueDefinitionView;
use crate::ast::FieldDefinition;
use crate::ast::FieldView;
use crate::ast::InputValueDefinition;
use crate::ast::InputValueView;
use crate::ast::Name;
use crate::collections::put;
use crate::collections::set_with;
use crate::collections::value_or;
use crate::collections::Entries;
use crate::collections::NameMap;
use crate::collections::NameSet;
use crate::merge::copies::copied_enum;
use crate::merge::copies::copied_input;
use crate::merge::copies::copied_input_object;
use crate::merge::copies::copied_interface;
use crate::merge::copies::copied_object;
use crate::merge::copies::copied_scalar;
use crate::merge::copies::copied_union;
use crate::merge::copies::copy_enum_type;
use crate::merge::copies::copy_input;
use crate::merge::copies::copy_input_object_type;
use crate::merge::copies::copy_interface_type;
use crate::merge::copies::copy_object_type_stub;
use crate::merge::copies::copy_scalar_type;
use crate::merge::copies::copy_union_type;
use crate::merge::copies::federation_field;
use crate::merge::copies::is_federation_field;
use crate::merge::directives::directives_named;
use crate::merge::directives::directive_string_arg_value;
use crate::merge::directives::first;
use crate::merge::directives::first_directive;
use crate::merge::directives::get_all;
use crate::merge::directives::has_directive;
use crate::merge::directives::is_applied;
use crate::merge::directives::join_enum_value;
use crate::merge::directives::join_enum_value_applied_directive;
use crate::merge::directives::join_field;
use crate::merge::directives::join_field_applied_directive;
use crate::merge::directives::join_implements;
use crate::merge::directives::join_implements_applied_directive;
use crate::merge::directives::join_types;
use crate::merge::directives::join_type_applied_directive;
use crate::merge::directives::join_union_member;
use crate::merge::directives::join_union_member_applied_directive;
use crate::merge::directives::keys_have_fields;
use crate::merge::directives::string_value;
use crate::merge::directives::DirectiveNames;
use crate::merge::directives::DirectiveNamesView;
use crate::merge::enum_value::EnumValue;
use crate::schema::EnumType;
use crate::schema::EnumView;
use crate::schema::ExtendedType;
use crate::schema::ExtendedTypeView;
use crate::schema::InputObjectType;
use crate::schema::InputObjectView;
use crate::schema::InterfaceType;
use crate::schema::InterfaceView;
use crate::schema::ObjectType;
use crate::schema::ObjectView;
use crate::schema::ScalarType;
use crate::schema::ScalarView;
use crate::schema::UnionType;
use crate::schema::UnionView;
use crate::text::same;
use crate::text::Text;
use vstd::prelude::*;

verus! {

/// What a merge has collected so far.
pub struct Merger {
    pub errors: Vec<String>,
    pub composition_hints: Vec<String>,
    /// Whether the supergraph needs the inaccessible feature.
    pub needs_inaccessible: bool,
    /// The interfaces that some subgraph has as an object.
    pub interface_objects: NameSet,
}

/// The mathematical content of a [`Merger`].
#[verifier::ext_equal]
pub struct MergerView {
    pub errors: Seq<Text>,
    pub composition_hints: Seq<Text>,
    pub needs_inaccessible: bool,
    pub interface_objects: Seq<Text>,
}

impl DeepView for Merger {
    type V = MergerView;

    open spec fn deep_view(&self) -> MergerView {
        MergerView {
            errors: self.errors.deep_view(),
            composition_hints: self.composition_hints.deep_view(),
            needs_inaccessible: self.needs_inaccessible,
            interface_objects: self.interface_objects.deep_view(),
        }
    }
}

/// The types of a schema under their names.
pub type TypeEntries = Entries<ExtendedTypeView>;

/// The description after a merge: the first one that a subgraph has.
pub open spec fn merged_description(merged: Option<Text>, new: Option<Text>) -> Option<Text> {
    if merged is Some {
        merged
    } else {
        new
    }
}

/// The merger after a description was merged: with a hint where the two differ.
pub open spec fn after_description(
    m: MergerView,
    merged: Option<Text>,
    new: Option<Text>,
) -> MergerView {
    if merged is Some && new is Some && merged != new {
        MergerView {
            composition_hints: m.composition_hints.push("conflicting descriptions"@),
            ..m
        }
    } else {
        m
    }
}

/// Whether a merge has to mark a definition as inaccessible: a subgraph does, and no earlier one
/// did.
pub open spec fn newly_inaccessible(
    names: DirectiveNamesView,
    merged: Seq<DirectiveView>,
    original: Seq<DirectiveView>,
) -> bool {
    has_directive(original, names.inaccessible) && !has_directive(merged, "inaccessible"@)
}

/// The directives after the mark of a subgraph was merged.
pub open spec fn with_inaccessible(
    names: DirectiveNamesView,
    merged: Seq<DirectiveView>,
    original: Seq<DirectiveView>,
) -> Seq<DirectiveView> {
    if newly_inaccessible(names, merged, original) {
        merged.push(DirectiveView { name: "inaccessible"@, arguments: Seq::empty() })
    } else {
        merged
    }
}

/// The merger after the mark of a subgraph was merged.
pub open spec fn after_inaccessible(
    m: MergerView,
    names: DirectiveNamesView,
    merged: Seq<DirectiveView>,
    original: Seq<DirectiveView>,
) -> MergerView {
    MergerView {
        needs_inaccessible: m.needs_inaccessible || newly_inaccessible(names, merged, original),
        ..m
    }
}

/// Where the first argument of the given name is, if there is one.
pub open spec fn argument_position(arguments: Seq<InputValueView>, name: Text) -> Option<int>
    decreases arguments.len(),
{
    if arguments.len() == 0 {
        None
    } else if arguments[0].name == name {
        Some(0)
    } else {
        match argument_position(arguments.drop_first(), name) {
            Some(i) => Some(i + 1),
            None => None,
        }
    }
}

/// Merging one argument: one of the same name keeps its place and takes the mark, another one is
/// added without directives but the mark.
pub open spec fn merged_argument(
    m: MergerView,
    names: DirectiveNamesView,
    arguments: Seq<InputValueView>,
    new: InputValueView,
) -> (MergerView, Seq<InputValueView>) {
    match argument_position(arguments, new.name) {
        Some(i) => (
            after_inaccessible(m, names, arguments[i].directives, new.directives),
            arguments.update(
                i,
                InputValueView {
                    directives: with_inaccessible(
                        names,
                        arguments[i].directives,
                        new.directives,
                    ),
                    ..arguments[i]
                },
            ),
        ),
        None => (
            after_inaccessible(m, names, Seq::empty(), new.directives),
            arguments.push(
                InputValueView {
                    directives: with_inaccessible(names, Seq::empty(), new.directives),
                    ..new
                },
            ),
        ),
    }
}

/// Merging the first `n` arguments.
pub open spec fn merged_arguments(
    m: MergerView,
    names: DirectiveNamesView,
    arguments: Seq<InputValueView>,
    new: Seq<InputValueView>,
    n: nat,
) -> (MergerView, Seq<InputValueView>)
    decreases n,
{
    if n == 0 {
        (m, arguments)
    } else {
        let (m1, arguments1) = merged_arguments(m, names, arguments, new, (n - 1) as nat);
        merged_argument(m1, names, arguments1, new[n - 1])
    }
}

/// Merging the first `n` interfaces that a type implements: the set of interfaces and the
/// directives of the type.
pub open spec fn merged_implements(
    graph: Text,
    interfaces: Seq<Text>,
    directives: Seq<DirectiveView>,
    new: Seq<Text>,
    n: nat,
) -> (Seq<Text>, Seq<DirectiveView>)
    decreases n,
{
    if n == 0 {
        (interfaces, directives)
    } else {
        let (i1, d1) = merged_implements(graph, interfaces, directives, new, (n - 1) as nat);
        (set_with(i1, new[n - 1]), d1.push(join_implements(graph, new[n - 1])))
    }
}

/// Merging an enum value into that of the supergraph.
pub open spec fn merged_enum_value(
    m: MergerView,
    names: DirectiveNamesView,
    graph: Text,
    merged: EnumValueDefinitionView,
    new: EnumValueDefinitionView,
) -> (MergerView, EnumValueDefinitionView) {
    let m1 = after_description(m, merged.description, new.description);
    (
        after_inaccessible(m1, names, merged.directives, new.directives),
        EnumValueDefinitionView {
            value: merged.value,
            description: merged_description(merged.description, new.description),
            directives: with_inaccessible(names, merged.directives, new.directives).push(
                join_enum_value(graph),
            ),
        },
    )
}

/// Merging the first `n` values of an enum.
pub open spec fn merged_enum_values(
    m: MergerView,
    names: DirectiveNamesView,
    graph: Text,
    merged: Entries<EnumValueDefinitionView>,
    new: Entries<EnumValueDefinitionView>,
    n: nat,
) -> (MergerView, Entries<EnumValueDefinitionView>)
    decreases n,
{
    if n == 0 {
        (m, merged)
    } else {
        let (m1, values) = merged_enum_values(m, names, graph, merged, new, (n - 1) as nat);
        let (name, value) = new[n - 1];
        let stub = EnumValueDefinitionView {
            value: value.value,
            description: None,
            directives: Seq::empty(),
        };
        let (m2, result) = merged_enum_value(m1, names, graph, value_or(values, name, stub), value);
        (m2, put(values, name, result))
    }
}

/// Merging an enum into that of the supergraph.
pub open spec fn merged_enum(
    m: MergerView,
    names: DirectiveNamesView,
    graph: Text,
    merged: EnumView,
    new: EnumView,
) -> (MergerView, EnumView) {
    let joined = merged.directives + join_types(graph, Seq::empty(), false);
    let m1 = after_inaccessible(m, names, joined, new.directives);
    let m2 = after_description(m1, merged.description, new.description);
    let (m3, values) = merged_enum_values(
        m2,
        names,
        graph,
        merged.values,
        new.values,
        new.values.len(),
    );
    (
        m3,
        EnumView {
            description: merged_description(merged.description, new.description),
            directives: with_inaccessible(names, joined, new.directives),
            values,
            ..merged
        },
    )
}

/// Merging an enum type into the types of the supergraph.
pub open spec fn merged_enum_type(
    m: MergerView,
    types: TypeEntries,
    names: DirectiveNamesView,
    graph: Text,
    name: Text,
    new: EnumView,
) -> (MergerView, TypeEntries) {
    match value_or(types, name, copied_enum(name, new)) {
        ExtendedTypeView::Enum(e) => {
            let (m1, merged) = merged_enum(m, names, graph, e, new);
            (m1, put(types, name, ExtendedTypeView::Enum(merged)))
        },
        other => (m, put(types, name, other)),
    }
}

/// Merging a field of an input object.
pub open spec fn merged_input_field(
    m: MergerView,
    names: DirectiveNamesView,
    graph: Text,
    merged: InputValueView,
    new: InputValueView,
) -> (MergerView, InputValueView) {
    (
        after_inaccessible(m, names, merged.directives, new.directives),
        InputValueView {
            directives: with_inaccessible(names, merged.directives, new.directives).push(
                join_field(graph, None, None, false, None, Some(new.ty)),
            ),
            ..merged
        },
    )
}

/// Merging the first `n` fields of an input object.
pub open spec fn merged_input_fields(
    m: MergerView,
    names: DirectiveNamesView,
    graph: Text,
    merged: Entries<InputValueView>,
    new: Entries<InputValueView>,
    n: nat,
) -> (MergerView, Entries<InputValueView>)
    decreases n,
{
    if n == 0 {
        (m, merged)
    } else {
        let (m1, fields) = merged_input_fields(m, names, graph, merged, new, (n - 1) as nat);
        let (name, field) = new[n - 1];
        let (m2, result) = merged_input_field(
            m1,
            names,
            graph,
            value_or(fields, name, copied_input(field)),
            field,
        );
        (m2, put(fields, name, result))
    }
}

/// Merging an input object into that of the supergraph.
pub open spec fn merged_input_object(
    m: MergerView,
    names: DirectiveNamesView,
    graph: Text,
    merged: InputObjectView,
    new: InputObjectView,
) -> (MergerView, InputObjectView) {
    let joined = merged.directives + join_types(graph, Seq::empty(), false);
    let m1 = after_inaccessible(m, names, joined, new.directives);
    let (m2, fields) = merged_input_fields(
        m1,
        names,
        graph,
        merged.fields,
        new.fields,
        new.fields.len(),
    );
    (
        m2,
        InputObjectView {
            directives: with_inaccessible(names, joined, new.directives),
            fields,
            ..merged
        },
    )
}

/// Merging an input object type into the types of the supergraph.
pub open spec fn merged_input_object_type(
    m: MergerView,
    types: TypeEntries,
    names: DirectiveNamesView,
    graph: Text,
    name: Text,
    new: InputObjectView,
) -> (MergerView, TypeEntries) {
    match value_or(types, name, copied_input_object(name, new)) {
        ExtendedTypeView::InputObject(o) => {
            let (m1, merged) = merged_input_object(m, names, graph, o, new);
            (m1, put(types, name, ExtendedTypeView::InputObject(merged)))
        },
        other => (m, put(types, name, other)),
    }
}

/// The field that the supergraph starts from where it has none: without arguments and directives.
pub open spec fn field_stub(field: FieldView) -> FieldView {
    FieldView { arguments: Seq::empty(), directives: Seq::empty(), ..field }
}

/// Merging a field of an interface.
pub open spec fn merged_interface_field(
    m: MergerView,
    names: DirectiveNamesView,
    graph: Text,
    merged: FieldView,
    new: FieldView,
) -> (MergerView, FieldView) {
    let (m1, arguments) = merged_arguments(
        m,
        names,
        merged.arguments,
        new.arguments,
        new.arguments.len(),
    );
    let m2 = after_description(m1, merged.description, new.description);
    (
        after_inaccessible(m2, names, merged.directives, new.directives),
        FieldView {
            arguments,
            description: merged_description(merged.description, new.description),
            directives: with_inaccessible(names, merged.directives, new.directives).push(
                join_field(graph, None, None, false, None, Some(new.ty)),
            ),
            ..merged
        },
    )
}

/// Merging the first `n` fields of an interface.
pub open spec fn merged_interface_fields(
    m: MergerView,
    names: DirectiveNamesView,
    graph: Text,
    merged: Entries<FieldView>,
    new: Entries<FieldView>,
    n: nat,
) -> (MergerView, Entries<FieldView>)
    decreases n,
{
    if n == 0 {
        (m, merged)
    } else {
        let (m1, fields) = merged_interface_fields(m, names, graph, merged, new, (n - 1) as nat);
        let (name, field) = new[n - 1];
        let (m2, result) = merged_interface_field(
            m1,
            names,
            graph,
            value_or(fields, name, field_stub(field)),
            field,
        );
        (m2, put(fields, name, result))
    }
}

/// Merging an interface into that of the supergraph.
pub open spec fn merged_interface(
    m: MergerView,
    names: DirectiveNamesView,
    graph: Text,
    merged: InterfaceView,
    new: InterfaceView,
) -> (MergerView, InterfaceView) {
    let joined = merged.directives + join_types(
        graph,
        directives_named(new.directives, names.key),
        false,
    );
    let m1 = after_inaccessible(m, names, joined, new.directives);
    let (interfaces, directives) = merged_implements(
        graph,
        merged.implements_interfaces,
        with_inaccessible(names, joined, new.directives),
        new.implements_interfaces,
        new.implements_interfaces.len(),
    );
    let (m2, fields) = merged_interface_fields(
        m1,
        names,
        graph,
        merged.fields,
        new.fields,
        new.fields.len(),
    );
    (m2, InterfaceView { implements_interfaces: interfaces, directives, fields, ..merged })
}

/// Merging an interface type into the types of the supergraph.
pub open spec fn merged_interface_type(
    m: MergerView,
    types: TypeEntries,
    names: DirectiveNamesView,
    graph: Text,
    name: Text,
    new: InterfaceView,
) -> (MergerView, TypeEntries) {
    match value_or(types, name, copied_interface(name, new)) {
        ExtendedTypeView::Interface(i) => {
            let (m1, merged) = merged_interface(m, names, graph, i, new);
            (m1, put(types, name, ExtendedTypeView::Interface(merged)))
        },
        other => (m, put(types, name, other)),
    }
}

/// The string argument of the first directive of the given name.
pub open spec fn directive_text(
    directives: Seq<DirectiveView>,
    directive: Text,
    argument: Text,
) -> Option<Text> {
    match first_directive(directives, directive) {
        Some(d) => string_value(d, argument),
        None => None,
    }
}

/// What a field is overridden from, with the label of the override.
pub open spec fn field_override(names: DirectiveNamesView, field: FieldView) -> Option<
    (Text, Option<Text>),
> {
    match directive_text(field.directives, names.override_, "from"@) {
        Some(from) => Some((from, directive_text(field.directives, names.override_, "label"@))),
        None => None,
    }
}

/// The `@join__field` of an object's field.
pub open spec fn object_join_field(
    names: DirectiveNamesView,
    graph: Text,
    field: FieldView,
) -> DirectiveView {
    join_field(
        graph,
        directive_text(field.directives, names.requires_, "fields"@),
        directive_text(field.directives, names.provides, "fields"@),
        first_directive(field.directives, names.external) is Some,
        field_override(names, field),
        Some(field.ty),
    )
}

/// Merging a field of an object.
pub open spec fn merged_object_field(
    m: MergerView,
    names: DirectiveNamesView,
    graph: Text,
    merged: FieldView,
    new: FieldView,
) -> (MergerView, FieldView) {
    let m1 = after_description(m, merged.description, new.description);
    let m2 = after_inaccessible(m1, names, merged.directives, new.directives);
    let (m3, arguments) = merged_arguments(
        m2,
        names,
        merged.arguments,
        new.arguments,
        new.arguments.len(),
    );
    (
        m3,
        FieldView {
            arguments,
            description: merged_description(merged.description, new.description),
            directives: with_inaccessible(names, merged.directives, new.directives).push(
                object_join_field(names, graph, new),
            ),
            ..merged
        },
    )
}

/// Merging the first `n` fields of an object, but for those of the federation machinery.
pub open spec fn merged_object_fields(
    m: MergerView,
    names: DirectiveNamesView,
    graph: Text,
    merged: Entries<FieldView>,
    new: Entries<FieldView>,
    n: nat,
) -> (MergerView, Entries<FieldView>)
    decreases n,
{
    if n == 0 {
        (m, merged)
    } else {
        let (m1, fields) = merged_object_fields(m, names, graph, merged, new, (n - 1) as nat);
        let (name, field) = new[n - 1];
        if is_federation_field(name) {
            (m1, fields)
        } else {
            let (m2, result) = merged_object_field(
                m1,
                names,
                graph,
                value_or(fields, name, field_stub(field)),
                field,
            );
            (m2, put(fields, name, result))
        }
    }
}

/// Merging an object into that of the supergraph.
pub open spec fn merged_object(
    m: MergerView,
    names: DirectiveNamesView,
    graph: Text,
    merged: ObjectView,
    new: ObjectView,
) -> (MergerView, ObjectView) {
    let joined = merged.directives + join_types(
        graph,
        directives_named(new.directives, names.key),
        false,
    );
    let m1 = after_description(m, merged.description, new.description);
    let m2 = after_inaccessible(m1, names, joined, new.directives);
    let (interfaces, directives) = merged_implements(
        graph,
        merged.implements_interfaces,
        with_inaccessible(names, joined, new.directives),
        new.implements_interfaces,
        new.implements_interfaces.len(),
    );
    let (m3, fields) = merged_object_fields(
        m2,
        names,
        graph,
        merged.fields,
        new.fields,
        new.fields.len(),
    );
    (
        m3,
        ObjectView {
            description: merged_description(merged.description, new.description),
            implements_interfaces: interfaces,
            directives,
            fields,
            ..merged
        },
    )
}

/// Merging an object that stands for an interface into the interface of the supergraph.
pub open spec fn merged_interface_object(
    m: MergerView,
    names: DirectiveNamesView,
    graph: Text,
    merged: InterfaceView,
    new: ObjectView,
) -> (MergerView, InterfaceView) {
    let joined = merged.directives + join_types(
        graph,
        directives_named(new.directives, names.key),
        true,
    );
    let m0 = MergerView {
        interface_objects: set_with(m.interface_objects, merged.name),
        ..m
    };
    let m1 = after_description(m0, merged.description, new.description);
    let m2 = after_inaccessible(m1, names, joined, new.directives);
    let (m3, fields) = merged_object_fields(
        m2,
        names,
        graph,
        merged.fields,
        new.fields,
        new.fields.len(),
    );
    (
        m3,
        InterfaceView {
            description: merged_description(merged.description, new.description),
            directives: with_inaccessible(names, joined, new.directives),
            fields,
            ..merged
        },
    )
}

/// Merging an object type into the types of the supergraph.
pub open spec fn merged_object_type(
    m: MergerView,
    types: TypeEntries,
    names: DirectiveNamesView,
    graph: Text,
    name: Text,
    new: ObjectView,
) -> (MergerView, TypeEntries) {
    let stub = copied_object(name, new, has_directive(new.directives, names.interface_object));
    match value_or(types, name, stub) {
        ExtendedTypeView::Object(o) => {
            let (m1, merged) = merged_object(m, names, graph, o, new);
            (m1, put(types, name, ExtendedTypeView::Object(merged)))
        },
        ExtendedTypeView::Interface(i) => {
            let (m1, merged) = merged_interface_object(m, names, graph, i, new);
            (m1, put(types, name, ExtendedTypeView::Interface(merged)))
        },
        other => (m, put(types, name, other)),
    }
}

/// Merging the first `n` members of a union: its members and its directives.
pub open spec fn merged_members(
    graph: Text,
    members: Seq<Text>,
    directives: Seq<DirectiveView>,
    new: Seq<Text>,
    n: nat,
) -> (Seq<Text>, Seq<DirectiveView>)
    decreases n,
{
    if n == 0 {
        (members, directives)
    } else {
        let (m1, d1) = merged_members(graph, members, directives, new, (n - 1) as nat);
        (set_with(m1, new[n - 1]), d1.push(join_union_member(graph, new[n - 1])))
    }
}

/// Merging a union into that of the supergraph.
pub open spec fn merged_union(
    m: MergerView,
    names: DirectiveNamesView,
    graph: Text,
    merged: UnionView,
    new: UnionView,
) -> (MergerView, UnionView) {
    let joined = merged.directives + join_types(graph, Seq::empty(), false);
    let (members, directives) = merged_members(
        graph,
        merged.members,
        with_inaccessible(names, joined, new.directives),
        new.members,
        new.members.len(),
    );
    (
        after_inaccessible(m, names, joined, new.directives),
        UnionView { members, directives, ..merged },
    )
}

/// Merging a union type into the types of the supergraph.
pub open spec fn merged_union_type(
    m: MergerView,
    types: TypeEntries,
    names: DirectiveNamesView,
    graph: Text,
    name: Text,
    new: UnionView,
) -> (MergerView, TypeEntries) {
    match value_or(types, name, copied_union(name, new.description)) {
        ExtendedTypeView::Union(u) => {
            let (m1, merged) = merged_union(m, names, graph, u, new);
            (m1, put(types, name, ExtendedTypeView::Union(merged)))
        },
        other => (m, put(types, name, other)),
    }
}

/// Merging a scalar type into the types of the supergraph.
pub open spec fn merged_scalar_type(
    m: MergerView,
    types: TypeEntries,
    names: DirectiveNamesView,
    graph: Text,
    name: Text,
    new: ScalarView,
) -> (MergerView, TypeEntries) {
    match value_or(types, name, copied_scalar(name, new)) {
        ExtendedTypeView::Scalar(s) => {
            let joined = s.directives + join_types(graph, Seq::empty(), false);
            (
                after_inaccessible(m, names, joined, new.directives),
                put(
                    types,
                    name,
                    ExtendedTypeView::Scalar(
                        ScalarView {
                            directives: with_inaccessible(names, joined, new.directives),
                            ..s
                        },
                    ),
                ),
            )
        },
        other => (m, put(types, name, other)),
    }
}

fn push_directive(directives: &mut Vec<Directive>, directive: Directive)
    ensures
        final(directives).deep_view() == old(directives).deep_view().push(directive.deep_view()),
{
    directives.push(directive);
    assert(directives.deep_view() =~= old(directives).deep_view().push(directive.deep_view()));
}

fn extend_directives(directives: &mut Vec<Directive>, more: Vec<Directive>)
    ensures
        final(directives).deep_view() == old(directives).deep_view() + more.deep_view(),
{
    let mut more = more;
    let ghost added = more.deep_view();
    directives.append(&mut more);
    assert(directives.deep_view() =~= old(directives).deep_view() + added);
}

fn new_field_stub(field: &FieldDefinition) -> (r: FieldDefinition)
    ensures
        r.deep_view() == field_stub(field.deep_view()),
{
    let r = FieldDefinition {
        name: field.name.clone(),
        description: clone_text(&field.description),
        arguments: Vec::new(),
        ty: field.ty.clone(),
        directives: Vec::new(),
    };
    assert(r.arguments.deep_view() =~= Seq::empty());
    assert(r.directives.deep_view() =~= Seq::empty());
    r
}

fn first_text<'a>(directives: &'a Vec<Directive>, directive: &str, argument: &str) -> (r: Option<
    &'a str,
>)
    ensures
        r.deep_view() == directive_text(directives.deep_view(), directive@, argument@),
{
    match first(directives, directive) {
        Some(d) => directive_string_arg_value(d, argument),
        None => None,
    }
}

fn find_argument(arguments: &Vec<InputValueDefinition>, name: &str) -> (r: Option<usize>)
    ensures
        match r {
            Some(i) => i < arguments.len() && argument_position(arguments.deep_view(), name@)
                == Some(i as int),
            None => argument_position(arguments.deep_view(), name@) is None,
        },
{
    let ghost all = arguments.deep_view();
    let mut i: usize = 0;
    assert(all.skip(0) =~= all);
    while i < arguments.len()
        invariant
            i <= arguments.len(),
            all == arguments.deep_view(),
            argument_position(all, name@) == (match argument_position(
                all.skip(i as int),
                name@,
            ) {
                Some(k) => Some(k + i),
                None => None,
            }),
        decreases arguments.len() - i,
    {
        assert(all.skip(i as int)[0] == arguments@[i as int].deep_view());
        assert(all.skip(i as int).drop_first() =~= all.skip(i + 1));
        if same(&arguments[i].name, name) {
            return Some(i);
        }
        i += 1;
    }
    assert(all.skip(i as int).len() == 0);
    None
}

/// Merges the interfaces that a type implements in a subgraph.
fn merge_implements(
    subgraph_name: &EnumValue,
    interfaces: &mut NameSet,
    directives: &mut Vec<Directive>,
    new: &NameSet,
)
    ensures
        (final(interfaces).deep_view(), final(directives).deep_view()) == merged_implements(
            subgraph_name.deep_view(),
            old(interfaces).deep_view(),
            old(directives).deep_view(),
            new.deep_view(),
            new.deep_view().len(),
        ),
{
    let mut i: usize = 0;
    while i < new.len()
        invariant
            i <= new.deep_view().len(),
            (interfaces.deep_view(), directives.deep_view()) == merged_implements(
                subgraph_name.deep_view(),
                old(interfaces).deep_view(),
                old(directives).deep_view(),
                new.deep_view(),
                i as nat,
            ),
        decreases new.deep_view().len() - i,
    {
        let intf_name = new.at(i);
        interfaces.insert(intf_name.clone());
        push_directive(directives, join_implements_applied_directive(subgraph_name, intf_name));
        i += 1;
    }
}

impl Merger {
    /// A merger that has collected nothing.
    pub fn new() -> (r: Self)
        ensures
            r.deep_view() == (MergerView {
                errors: Seq::empty(),
                composition_hints: Seq::empty(),
                needs_inaccessible: false,
                interface_objects: Seq::empty(),
            }),
    {
        let r = Merger {
            errors: Vec::new(),
            composition_hints: Vec::new(),
            needs_inaccessible: false,
            interface_objects: NameSet::new(),
        };
        assert(r.errors.deep_view() =~= Seq::empty());
        assert(r.composition_hints.deep_view() =~= Seq::empty());
        r
    }

    /// Merges a description: the supergraph takes the first one, and a different later one gives a
    /// hint.
    pub fn merge_descriptions(&mut self, merged: &mut Option<String>, new: &Option<String>)
        ensures
            final(merged).deep_view() == merged_description(
                old(merged).deep_view(),
                new.deep_view(),
            ),
            final(self).deep_view() == after_description(
                old(self).deep_view(),
                old(merged).deep_view(),
                new.deep_view(),
            ),
    {
        let conflict = match (&*merged, new) {
            (Some(a), Some(b)) => *a != *b,
            _ => false,
        };
        if conflict {
            self.composition_hints.push("conflicting descriptions".to_owned());
            assert(self.composition_hints.deep_view() =~= old(
                self,
            ).composition_hints.deep_view().push("conflicting descriptions"@));
        } else if merged.is_none() {
            *merged = clone_text(new);
        }
    }

    /// Marks a definition as inaccessible where the subgraph does, unless it is marked already.
    pub fn add_inaccessible(
        &mut self,
        directive_names: &DirectiveNames,
        new_directives: &mut Vec<Directive>,
        original_directives: &Vec<Directive>,
    )
        ensures
            final(new_directives).deep_view() == with_inaccessible(
                directive_names.deep_view(),
                old(new_directives).deep_view(),
                original_directives.deep_view(),
            ),
            final(self).deep_view() == after_inaccessible(
                old(self).deep_view(),
                directive_names.deep_view(),
                old(new_directives).deep_view(),
                original_directives.deep_view(),
            ),
    {
        if is_applied(original_directives, &directive_names.inaccessible) && !is_applied(
            new_directives,
            "inaccessible",
        ) {
            self.needs_inaccessible = true;
            let arguments: Vec<Argument> = Vec::new();
            assert(arguments.deep_view() =~= Seq::empty());
            push_directive(
                new_directives,
                Directive { name: "inaccessible".to_owned(), arguments },
            );
        }
    }

    /// Merges the arguments of a field.
    pub fn merge_arguments(
        &mut self,
        arguments: &Vec<InputValueDefinition>,
        arguments_to_merge: &mut Vec<InputValueDefinition>,
        directive_names: &DirectiveNames,
    )
        ensures
            (final(self).deep_view(), final(arguments_to_merge).deep_view()) == merged_arguments(
                old(self).deep_view(),
                directive_names.deep_view(),
                old(arguments_to_merge).deep_view(),
                arguments.deep_view(),
                arguments.deep_view().len(),
            ),
    {
        let ghost names = directive_names.deep_view();
        let mut i: usize = 0;
        while i < arguments.len()
            invariant
                i <= arguments.len(),
                names == directive_names.deep_view(),
                (self.deep_view(), arguments_to_merge.deep_view()) == merged_arguments(
                    old(self).deep_view(),
                    names,
                    old(arguments_to_merge).deep_view(),
                    arguments.deep_view(),
                    i as nat,
                ),
            decreases arguments.len() - i,
        {
            let argument = &arguments[i];
            let ghost before = arguments_to_merge.deep_view();
            let ghost m = self.deep_view();
            assert(arguments.deep_view()[i as int] == argument.deep_view());
            match find_argument(arguments_to_merge, &argument.name) {
                Some(k) => {
                    assert(before[k as int] == arguments_to_merge@[k as int].deep_view());
                    let mut directives = Vec::new();
                    std::mem::swap(&mut directives, &mut arguments_to_merge[k].directives);
                    self.add_inaccessible(directive_names, &mut directives, &argument.directives);
                    std::mem::swap(&mut directives, &mut arguments_to_merge[k].directives);
                },
                None => {
                    let mut copy = copy_input(argument);
                    self.add_inaccessible(
                        directive_names,
                        &mut copy.directives,
                        &argument.directives,
                    );
                    arguments_to_merge.push(copy);
                },
            }
            assert(arguments_to_merge.deep_view() =~= merged_argument(
                m,
                names,
                before,
                argument.deep_view(),
            ).1);
            i += 1;
        }
    }

    fn merge_enum_value(
        &mut self,
        metadata: &DirectiveNames,
        subgraph_name: &EnumValue,
        merged: &mut EnumValueDefinition,
        enum_value: &EnumValueDefinition,
    )
        ensures
            (final(self).deep_view(), final(merged).deep_view()) == merged_enum_value(
                old(self).deep_view(),
                metadata.deep_view(),
                subgraph_name.deep_view(),
                old(merged).deep_view(),
                enum_value.deep_view(),
            ),
    {
        self.merge_descriptions(&mut merged.description, &enum_value.description);
        self.add_inaccessible(metadata, &mut merged.directives, &enum_value.directives);
        push_directive(&mut merged.directives, join_enum_value_applied_directive(subgraph_name));
    }

    fn merge_enum(
        &mut self,
        metadata: &DirectiveNames,
        subgraph_name: &EnumValue,
        merged: &mut EnumType,
        enum_type: &EnumType,
    )
        ensures
            (final(self).deep_view(), final(merged).deep_view()) == merged_enum(
                old(self).deep_view(),
                metadata.deep_view(),
                subgraph_name.deep_view(),
                old(merged).deep_view(),
                enum_type.deep_view(),
            ),
    {
        let keys: Vec<Directive> = Vec::new();
        assert(keys.deep_view() =~= Seq::empty());
        extend_directives(
            &mut merged.directives,
            join_type_applied_directive(subgraph_name, &keys, false),
        );
        self.add_inaccessible(metadata, &mut merged.directives, &enum_type.directives);
        self.merge_descriptions(&mut merged.description, &enum_type.description);
        let ghost m = self.deep_view();
        let ghost start = merged.deep_view();
        let ghost values = enum_type.values.deep_view();
        let mut i: usize = 0;
        while i < enum_type.values.len()
            invariant
                i <= values.len(),
                values == enum_type.values.deep_view(),
                merged.deep_view() == (EnumView { values: merged.deep_view().values, ..start }),
                (self.deep_view(), merged.deep_view().values) == merged_enum_values(
                    m,
                    metadata.deep_view(),
                    subgraph_name.deep_view(),
                    start.values,
                    values,
                    i as nat,
                ),
            decreases values.len() - i,
        {
            let enum_value_name = enum_type.values.key_at(i);
            let enum_value = enum_type.values.value_at(i);
            assert(values[i as int] == (enum_value_name@, enum_value.deep_view()));
            let stub = EnumValueDefinition {
                value: enum_value.value.clone(),
                description: None,
                directives: Vec::new(),
            };
            assert(stub.directives.deep_view() =~= Seq::empty());
            let ev = merged.values.get_or_insert(enum_value_name.clone(), stub);
            self.merge_enum_value(metadata, subgraph_name, ev, enum_value);
            i += 1;
        }
    }

    /// Merges an enum type into the types of the supergraph.
    pub fn merge_enum_type(
        &mut self,
        types: &mut NameMap<ExtendedType>,
        metadata: &DirectiveNames,
        subgraph_name: &EnumValue,
        enum_name: Name,
        enum_type: &EnumType,
    )
        ensures
            (final(self).deep_view(), final(types).deep_view()) == merged_enum_type(
                old(self).deep_view(),
                old(types).deep_view(),
                metadata.deep_view(),
                subgraph_name.deep_view(),
                enum_name@,
                enum_type.deep_view(),
            ),
    {
        let existing_type = types.get_or_insert(
            enum_name.clone(),
            copy_enum_type(enum_name, enum_type),
        );
        if let ExtendedType::Enum(e) = existing_type {
            self.merge_enum(metadata, subgraph_name, e, enum_type);
        }
    }

    fn merge_input_field(
        &mut self,
        directive_names: &DirectiveNames,
        subgraph_name: &EnumValue,
        merged: &mut InputValueDefinition,
        field: &InputValueDefinition,
    )
        ensures
            (final(self).deep_view(), final(merged).deep_view()) == merged_input_field(
                old(self).deep_view(),
                directive_names.deep_view(),
                subgraph_name.deep_view(),
                old(merged).deep_view(),
                field.deep_view(),
            ),
    {
        self.add_inaccessible(directive_names, &mut merged.directives, &field.directives);
        push_directive(
            &mut merged.directives,
            join_field_applied_directive(
                subgraph_name,
                None,
                None,
                false,
                None,
                Some(&field.ty),
            ),
        );
    }

    fn merge_input_object(
        &mut self,
        directive_names: &DirectiveNames,
        subgraph_name: &EnumValue,
        merged: &mut InputObjectType,
        input_object: &InputObjectType,
    )
        ensures
            (final(self).deep_view(), final(merged).deep_view()) == merged_input_object(
                old(self).deep_view(),
                directive_names.deep_view(),
                subgraph_name.deep_view(),
                old(merged).deep_view(),
                input_object.deep_view(),
            ),
    {
        let keys: Vec<Directive> = Vec::new();
        assert(keys.deep_view() =~= Seq::empty());
        extend_directives(
            &mut merged.directives,
            join_type_applied_directive(subgraph_name, &keys, false),
        );
        self.add_inaccessible(directive_names, &mut merged.directives, &input_object.directives);
        let ghost m = self.deep_view();
        let ghost start = merged.deep_view();
        let ghost fields = input_object.fields.deep_view();
        let mut i: usize = 0;
        while i < input_object.fields.len()
            invariant
                i <= fields.len(),
                fields == input_object.fields.deep_view(),
                merged.deep_view() == (InputObjectView {
                    fields: merged.deep_view().fields,
                    ..start
                }),
                (self.deep_view(), merged.deep_view().fields) == merged_input_fields(
                    m,
                    directive_names.deep_view(),
                    subgraph_name.deep_view(),
                    start.fields,
                    fields,
                    i as nat,
                ),
            decreases fields.len() - i,
        {
            let field_name = input_object.fields.key_at(i);
            let field = input_object.fields.value_at(i);
            assert(fields[i as int] == (field_name@, field.deep_view()));
            let supergraph_field = merged.fields.get_or_insert(
                field_name.clone(),
                copy_input(field),
            );
            self.merge_input_field(directive_names, subgraph_name, supergraph_field, field);
            i += 1;
        }
    }

    /// Merges an input object type into the types of the supergraph.
    pub fn merge_input_object_type(
        &mut self,
        types: &mut NameMap<ExtendedType>,
        directive_names: &DirectiveNames,
        subgraph_name: &EnumValue,
        input_object_name: Name,
        input_object: &InputObjectType,
    )
        ensures
            (final(self).deep_view(), final(types).deep_view()) == merged_input_object_type(
                old(self).deep_view(),
                old(types).deep_view(),
                directive_names.deep_view(),
                subgraph_name.deep_view(),
                input_object_name@,
                input_object.deep_view(),
            ),
    {
        let existing_type = types.get_or_insert(
            input_object_name.clone(),
            copy_input_object_type(input_object_name, input_object),
        );
        if let ExtendedType::InputObject(obj) = existing_type {
            self.merge_input_object(directive_names, subgraph_name, obj, input_object);
        }
    }

    fn merge_interface_field(
        &mut self,
        directive_names: &DirectiveNames,
        subgraph_name: &EnumValue,
        merged: &mut FieldDefinition,
        field: &FieldDefinition,
    )
        ensures
            (final(self).deep_view(), final(merged).deep_view()) == merged_interface_field(
                old(self).deep_view(),
                directive_names.deep_view(),
                subgraph_name.deep_view(),
                old(merged).deep_view(),
                field.deep_view(),
            ),
    {
        self.merge_arguments(&field.arguments, &mut merged.arguments, directive_names);
        self.merge_descriptions(&mut merged.description, &field.description);
        self.add_inaccessible(directive_names, &mut merged.directives, &field.directives);
        push_directive(
            &mut merged.directives,
            join_field_applied_directive(
                subgraph_name,
                None,
                None,
                false,
                None,
                Some(&field.ty),
            ),
        );
    }

    fn merge_interface(
        &mut self,
        directive_names: &DirectiveNames,
        subgraph_name: &EnumValue,
        merged: &mut InterfaceType,
        interface: &InterfaceType,
    )
        requires
            keys_have_fields(
                directives_named(
                    interface.deep_view().directives,
                    directive_names.deep_view().key,
                ),
            ),
        ensures
            (final(self).deep_view(), final(merged).deep_view()) == merged_interface(
                old(self).deep_view(),
                directive_names.deep_view(),
                subgraph_name.deep_view(),
                old(merged).deep_view(),
                interface.deep_view(),
            ),
    {
        let key_directives = get_all(&interface.directives, &directive_names.key);
        extend_directives(
            &mut merged.directives,
            join_type_applied_directive(subgraph_name, &key_directives, false),
        );
        self.add_inaccessible(directive_names, &mut merged.directives, &interface.directives);
        merge_implements(
            subgraph_name,
            &mut merged.implements_interfaces,
            &mut merged.directives,
            &interface.implements_interfaces,
        );
        let ghost m = self.deep_view();
        let ghost start = merged.deep_view();
        let ghost fields = interface.fields.deep_view();
        let mut i: usize = 0;
        while i < interface.fields.len()
            invariant
                i <= fields.len(),
                fields == interface.fields.deep_view(),
                merged.deep_view() == (InterfaceView {
                    fields: merged.deep_view().fields,
                    ..start
                }),
                (self.deep_view(), merged.deep_view().fields) == merged_interface_fields(
                    m,
                    directive_names.deep_view(),
                    subgraph_name.deep_view(),
                    start.fields,
                    fields,
                    i as nat,
                ),
            decreases fields.len() - i,
        {
            let field_name = interface.fields.key_at(i);
            let field = interface.fields.value_at(i);
            assert(fields[i as int] == (field_name@, field.deep_view()));
            let supergraph_field = merged.fields.get_or_insert(
                field_name.clone(),
                new_field_stub(field),
            );
            self.merge_interface_field(directive_names, subgraph_name, supergraph_field, field);
            i += 1;
        }
    }

    /// Merges an interface type into the types of the supergraph.
    pub fn merge_interface_type(
        &mut self,
        types: &mut NameMap<ExtendedType>,
        directive_names: &DirectiveNames,
        subgraph_name: &EnumValue,
        interface_name: Name,
        interface: &InterfaceType,
    )
        requires
            keys_have_fields(
                directives_named(
                    interface.deep_view().directives,
                    directive_names.deep_view().key,
                ),
            ),
        ensures
            (final(self).deep_view(), final(types).deep_view()) == merged_interface_type(
                old(self).deep_view(),
                old(types).deep_view(),
                directive_names.deep_view(),
                subgraph_name.deep_view(),
                interface_name@,
                interface.deep_view(),
            ),
    {
        let existing_type = types.get_or_insert(
            interface_name.clone(),
            copy_interface_type(interface_name, interface),
        );
        if let ExtendedType::Interface(intf) = existing_type {
            self.merge_interface(directive_names, subgraph_name, intf, interface);
        }
    }

    fn merge_object_field(
        &mut self,
        directive_names: &DirectiveNames,
        subgraph_name: &EnumValue,
        merged: &mut FieldDefinition,
        field: &FieldDefinition,
    )
        ensures
            (final(self).deep_view(), final(merged).deep_view()) == merged_object_field(
                old(self).deep_view(),
                directive_names.deep_view(),
                subgraph_name.deep_view(),
                old(merged).deep_view(),
                field.deep_view(),
            ),
    {
        self.merge_descriptions(&mut merged.description, &field.description);
        self.add_inaccessible(directive_names, &mut merged.directives, &field.directives);
        self.merge_arguments(&field.arguments, &mut merged.arguments, directive_names);
        let requires_directive_option = first_text(
            &field.directives,
            &directive_names.requires_,
            "fields",
        );
        let provides_directive_option = first_text(
            &field.directives,
            &directive_names.provides,
            "fields",
        );
        let overrides_from = first_text(&field.directives, &directive_names.override_, "from");
        let overrides_label = first_text(&field.directives, &directive_names.override_, "label");
        let overrides_directive_option = match overrides_from {
            Some(from) => Some((from, overrides_label)),
            None => None,
        };
        let external_field = first(&field.directives, &directive_names.external).is_some();
        push_directive(
            &mut merged.directives,
            join_field_applied_directive(
                subgraph_name,
                requires_directive_option,
                provides_directive_option,
                external_field,
                overrides_directive_option,
                Some(&field.ty),
            ),
        );
    }

    fn merge_object_fields(
        &mut self,
        directive_names: &DirectiveNames,
        subgraph_name: &EnumValue,
        merged: &mut NameMap<FieldDefinition>,
        object_fields: &NameMap<FieldDefinition>,
    )
        ensures
            (final(self).deep_view(), final(merged).deep_view()) == merged_object_fields(
                old(self).deep_view(),
                directive_names.deep_view(),
                subgraph_name.deep_view(),
                old(merged).deep_view(),
                object_fields.deep_view(),
                object_fields.deep_view().len(),
            ),
    {
        let ghost fields = object_fields.deep_view();
        let mut i: usize = 0;
        while i < object_fields.len()
            invariant
                i <= fields.len(),
                fields == object_fields.deep_view(),
                (self.deep_view(), merged.deep_view()) == merged_object_fields(
                    old(self).deep_view(),
                    directive_names.deep_view(),
                    subgraph_name.deep_view(),
                    old(merged).deep_view(),
                    fields,
                    i as nat,
                ),
            decreases fields.len() - i,
        {
            let field_name = object_fields.key_at(i);
            let field = object_fields.value_at(i);
            assert(fields[i as int] == (field_name@, field.deep_view()));
            if !federation_field(field_name) {
                let supergraph_field = merged.get_or_insert(
                    field_name.clone(),
                    new_field_stub(field),
                );
                self.merge_object_field(directive_names, subgraph_name, supergraph_field, field);
            }
            i += 1;
        }
    }

    fn merge_object(
        &mut self,
        directive_names: &DirectiveNames,
        subgraph_name: &EnumValue,
        merged: &mut ObjectType,
        object: &ObjectType,
    )
        requires
            keys_have_fields(
                directives_named(object.deep_view().directives, directive_names.deep_view().key),
            ),
        ensures
            (final(self).deep_view(), final(merged).deep_view()) == merged_object(
                old(self).deep_view(),
                directive_names.deep_view(),
                subgraph_name.deep_view(),
                old(merged).deep_view(),
                object.deep_view(),
            ),
    {
        let key_directives = get_all(&object.directives, &directive_names.key);
        extend_directives(
            &mut merged.directives,
            join_type_applied_directive(subgraph_name, &key_directives, false),
        );
        self.merge_descriptions(&mut merged.description, &object.description);
        self.add_inaccessible(directive_names, &mut merged.directives, &object.directives);
        merge_implements(
            subgraph_name,
            &mut merged.implements_interfaces,
            &mut merged.directives,
            &object.implements_interfaces,
        );
        self.merge_object_fields(
            directive_names,
            subgraph_name,
            &mut merged.fields,
            &object.fields,
        );
    }

    fn merge_interface_object(
        &mut self,
        directive_names: &DirectiveNames,
        subgraph_name: &EnumValue,
        merged: &mut InterfaceType,
        object: &ObjectType,
    )
        requires
            keys_have_fields(
                directives_named(object.deep_view().directives, directive_names.deep_view().key),
            ),
        ensures
            (final(self).deep_view(), final(merged).deep_view()) == merged_interface_object(
                old(self).deep_view(),
                directive_names.deep_view(),
                subgraph_name.deep_view(),
                old(merged).deep_view(),
                object.deep_view(),
            ),
    {
        self.interface_objects.insert(merged.name.clone());
        let key_directives = get_all(&object.directives, &directive_names.key);
        extend_directives(
            &mut merged.directives,
            join_type_applied_directive(subgraph_name, &key_directives, true),
        );
        self.merge_descriptions(&mut merged.description, &object.description);
        self.add_inaccessible(directive_names, &mut merged.directives, &object.directives);
        self.merge_object_fields(
            directive_names,
            subgraph_name,
            &mut merged.fields,
            &object.fields,
        );
    }

    /// Merges an object type into the types of the supergraph. An object that stands for an
    /// interface is merged into that interface.
    pub fn merge_object_type(
        &mut self,
        types: &mut NameMap<ExtendedType>,
        directive_names: &DirectiveNames,
        subgraph_name: &EnumValue,
        object_name: Name,
        object: &ObjectType,
    )
        requires
            keys_have_fields(
                directives_named(object.deep_view().directives, directive_names.deep_view().key),
            ),
        ensures
            (final(self).deep_view(), final(types).deep_view()) == merged_object_type(
                old(self).deep_view(),
                old(types).deep_view(),
                directive_names.deep_view(),
                subgraph_name.deep_view(),
                object_name@,
                object.deep_view(),
            ),
    {
        let is_interface_object = is_applied(&object.directives, &directive_names.interface_object);
        let existing_type = types.get_or_insert(
            object_name.clone(),
            copy_object_type_stub(object_name, object, is_interface_object),
        );
        match existing_type {
            ExtendedType::Object(obj) => {
                self.merge_object(directive_names, subgraph_name, obj, object);
            },
            ExtendedType::Interface(intf) => {
                self.merge_interface_object(directive_names, subgraph_name, intf, object);
            },
            _ => {},
        }
    }

    fn merge_union(
        &mut self,
        directive_names: &DirectiveNames,
        subgraph_name: &EnumValue,
        merged: &mut UnionType,
        new: &UnionType,
    )
        ensures
            (final(self).deep_view(), final(merged).deep_view()) == merged_union(
                old(self).deep_view(),
                directive_names.deep_view(),
                subgraph_name.deep_view(),
                old(merged).deep_view(),
                new.deep_view(),
            ),
    {
        let keys: Vec<Directive> = Vec::new();
        assert(keys.deep_view() =~= Seq::empty());
        extend_directives(
            &mut merged.directives,
            join_type_applied_directive(subgraph_name, &keys, false),
        );
        self.add_inaccessible(directive_names, &mut merged.directives, &new.directives);
        let ghost start = merged.deep_view();
        let mut i: usize = 0;
        while i < new.members.len()
            invariant
                i <= new.members.deep_view().len(),
                merged.deep_view() == (UnionView {
                    members: merged.deep_view().members,
                    directives: merged.deep_view().directives,
                    ..start
                }),
                (merged.deep_view().members, merged.deep_view().directives) == merged_members(
                    subgraph_name.deep_view(),
                    start.members,
                    start.directives,
                    new.members.deep_view(),
                    i as nat,
                ),
            decreases new.members.deep_view().len() - i,
        {
            let union_member = new.members.at(i);
            merged.members.insert(union_member.clone());
            push_directive(
                &mut merged.directives,
                join_union_member_applied_directive(subgraph_name, union_member),
            );
            i += 1;
        }
    }

    /// Merges a union type into the types of the supergraph.
    pub fn merge_union_type(
        &mut self,
        types: &mut NameMap<ExtendedType>,
        directive_names: &DirectiveNames,
        subgraph_name: &EnumValue,
        union_name: Name,
        new: &UnionType,
    )
        ensures
            (final(self).deep_view(), final(types).deep_view()) == merged_union_type(
                old(self).deep_view(),
                old(types).deep_view(),
                directive_names.deep_view(),
                subgraph_name.deep_view(),
                union_name@,
                new.deep_view(),
            ),
    {
        let existing_type = types.get_or_insert(
            union_name.clone(),
            copy_union_type(union_name, clone_text(&new.description)),
        );
        if let ExtendedType::Union(u) = existing_type {
            self.merge_union(directive_names, subgraph_name, u, new);
        }
    }

    /// Merges a scalar type into the types of the supergraph.
    pub fn merge_scalar_type(
        &mut self,
        types: &mut NameMap<ExtendedType>,
        directive_names: &DirectiveNames,
        subgraph_name: &EnumValue,
        scalar_name: Name,
        ty: &ScalarType,
    )
        ensures
            (final(self).deep_view(), final(types).deep_view()) == merged_scalar_type(
                old(self).deep_view(),
                old(types).deep_view(),
                directive_names.deep_view(),
                subgraph_name.deep_view(),
                scalar_name@,
                ty.deep_view(),
            ),
    {
        let existing_type = types.get_or_insert(
            scalar_name.clone(),
            copy_scalar_type(scalar_name, ty),
        );
        if let ExtendedType::Scalar(s) = existing_type {
            let keys: Vec<Directive> = Vec::new();
            assert(keys.deep_view() =~= Seq::empty());
            extend_directives(
                &mut s.directives,
                join_type_applied_directive(subgraph_name, &keys, false),
            );
            self.add_inaccessible(directive_names, &mut s.directives, &ty.directives);
        }
    }
}

} // verus!
