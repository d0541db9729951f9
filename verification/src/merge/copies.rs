//! Copies of definitions without their directives, from which the supergraph's types start.

use crate::ast::clone_text;
use crate::ast::clone_value;
use crate::ast::Directive;
use crate::ast::FieldDefinition;
use crate::ast::FieldView;
use crate::ast::InputValueDefinition;
use crate::ast::InputValueView;
use crate::ast::Name;
use crate::collections::put;
use crate::collections::Entries;
use crate::collections::NameMap;
use crate::collections::NameSet;
use crate::schema::EnumType;
use crate::schema::EnumView;
use crate::schema::ExtendedType;
use crate::schema::ExtendedTypeView;
use crate::schema::InputObjectType;
use crate::schema::InputObjectView;
use crate::schema::InterfaceType;
use crate::schema::InterfaceView;
use crate::schema::ObjectType;
use crate::schema::ObjectView;
use crate::schema::ScalarType;
use crate::schema::ScalarView;
use crate::schema::UnionType;
use crate::schema::UnionView;
use crate::text::same;
use crate::text::Text;
use vstd::prelude::*;

verus! {

/// The fields that the federation machinery adds to the query type of a subgraph.
pub open spec fn is_federation_field(name: Text) -> bool {
    name == "_service"@ || name == "_entities"@
}

/// Whether the federation machinery added the field.
pub(crate) fn federation_field(name: &str) -> (r: bool)
    ensures
        r == is_federation_field(name@),
{
    same(name, "_service") || same(name, "_entities")
}

/// An input value without its directives.
pub open spec fn copied_input(input: InputValueView) -> InputValueView {
    InputValueView { directives: Seq::empty(), ..input }
}

/// A field without its directives and those of its arguments.
pub open spec fn copied_field(field: FieldView) -> FieldView {
    FieldView {
        arguments: field.arguments.map_values(|a: InputValueView| copied_input(a)),
        directives: Seq::empty(),
        ..field
    }
}

/// The copies of the first `n` fields, but for those of the federation machinery.
pub open spec fn copied_fields(fields: Entries<FieldView>, n: nat) -> Entries<FieldView>
    decreases n,
{
    if n == 0 {
        Seq::empty()
    } else {
        let copied = copied_fields(fields, (n - 1) as nat);
        let (name, field) = fields[n - 1];
        if is_federation_field(name) {
            copied
        } else {
            put(copied, name, copied_field(field))
        }
    }
}

/// The copies of the first `n` input fields.
pub open spec fn copied_inputs(fields: Entries<InputValueView>, n: nat) -> Entries<InputValueView>
    decreases n,
{
    if n == 0 {
        Seq::empty()
    } else {
        let (name, field) = fields[n - 1];
        put(copied_inputs(fields, (n - 1) as nat), name, copied_input(field))
    }
}

/// The scalar that the supergraph starts from.
pub open spec fn copied_scalar(name: Text, ty: ScalarView) -> ExtendedTypeView {
    ExtendedTypeView::Scalar(
        ScalarView {
            description: ty.description,
            name,
            directives: Seq::empty(),
            built_in: false,
        },
    )
}

/// The enum that the supergraph starts from: without values.
pub open spec fn copied_enum(name: Text, ty: EnumView) -> ExtendedTypeView {
    ExtendedTypeView::Enum(
        EnumView {
            description: ty.description,
            name,
            directives: Seq::empty(),
            values: Seq::empty(),
            built_in: false,
        },
    )
}

/// The input object that the supergraph starts from.
pub open spec fn copied_input_object(name: Text, ty: InputObjectView) -> ExtendedTypeView {
    ExtendedTypeView::InputObject(
        InputObjectView {
            description: ty.description,
            name,
            directives: Seq::empty(),
            fields: copied_inputs(ty.fields, ty.fields.len()),
            built_in: false,
        },
    )
}

/// The interface that the supergraph starts from.
pub open spec fn copied_interface(name: Text, ty: InterfaceView) -> ExtendedTypeView {
    ExtendedTypeView::Interface(
        InterfaceView {
            description: ty.description,
            name,
            implements_interfaces: ty.implements_interfaces,
            directives: Seq::empty(),
            fields: copied_fields(ty.fields, ty.fields.len()),
            built_in: false,
        },
    )
}

/// The type that the supergraph starts from for an object: an interface for an interface object.
pub open spec fn copied_object(
    name: Text,
    ty: ObjectView,
    is_interface_object: bool,
) -> ExtendedTypeView {
    let fields = copied_fields(ty.fields, ty.fields.len());
    if is_interface_object {
        ExtendedTypeView::Interface(
            InterfaceView {
                description: ty.description,
                name,
                implements_interfaces: ty.implements_interfaces,
                directives: Seq::empty(),
                fields,
                built_in: false,
            },
        )
    } else {
        ExtendedTypeView::Object(
            ObjectView {
                description: ty.description,
                name,
                implements_interfaces: ty.implements_interfaces,
                directives: Seq::empty(),
                fields,
                built_in: false,
            },
        )
    }
}

/// The union that the supergraph starts from: without members.
pub open spec fn copied_union(name: Text, description: Option<Text>) -> ExtendedTypeView {
    ExtendedTypeView::Union(
        UnionView {
            description,
            name,
            directives: Seq::empty(),
            members: Seq::empty(),
            built_in: false,
        },
    )
}

/// Copies an input value without its directives.
pub fn copy_input(input: &InputValueDefinition) -> (r: InputValueDefinition)
    ensures
        r.deep_view() == copied_input(input.deep_view()),
{
    let r = InputValueDefinition {
        name: input.name.clone(),
        description: clone_text(&input.description),
        ty: input.ty.clone(),
        default_value: clone_value(&input.default_value),
        directives: Vec::new(),
    };
    assert(r.directives.deep_view() =~= Seq::empty());
    r
}

fn copy_field(field: &FieldDefinition) -> (r: FieldDefinition)
    ensures
        r.deep_view() == copied_field(field.deep_view()),
{
    let mut arguments: Vec<InputValueDefinition> = Vec::new();
    let mut i: usize = 0;
    while i < field.arguments.len()
        invariant
            i <= field.arguments.len(),
            arguments@.len() == i,
            forall|j: int|
                0 <= j < i ==> (#[trigger] arguments@[j]).deep_view() == copied_input(
                    field.arguments@[j].deep_view(),
                ),
        decreases field.arguments.len() - i,
    {
        arguments.push(copy_input(&field.arguments[i]));
        i += 1;
    }
    assert(arguments.deep_view() =~= copied_field(field.deep_view()).arguments);
    let r = FieldDefinition {
        name: field.name.clone(),
        description: clone_text(&field.description),
        arguments,
        ty: field.ty.clone(),
        directives: Vec::new(),
    };
    assert(r.directives.deep_view() =~= Seq::empty());
    r
}

/// Copies fields, but for those of the federation machinery.
pub fn copy_fields(fields_to_copy: &NameMap<FieldDefinition>) -> (r: NameMap<FieldDefinition>)
    ensures
        r.deep_view() == copied_fields(
            fields_to_copy.deep_view(),
            fields_to_copy.deep_view().len(),
        ),
{
    let mut new_fields: NameMap<FieldDefinition> = NameMap::new();
    let ghost fields = fields_to_copy.deep_view();
    let mut i: usize = 0;
    while i < fields_to_copy.len()
        invariant
            i <= fields.len(),
            fields == fields_to_copy.deep_view(),
            new_fields.deep_view() == copied_fields(fields, i as nat),
        decreases fields.len() - i,
    {
        let field_name = fields_to_copy.key_at(i);
        let field = fields_to_copy.value_at(i);
        assert(fields[i as int] == (field_name@, field.deep_view()));
        if !federation_field(field_name) {
            new_fields.insert(field_name.clone(), copy_field(field));
        }
        i += 1;
    }
    new_fields
}

/// Copies a scalar.
pub fn copy_scalar_type(scalar_name: Name, scalar_type: &ScalarType) -> (r: ExtendedType)
    ensures
        r.deep_view() == copied_scalar(scalar_name@, scalar_type.deep_view()),
{
    let r = ScalarType {
        description: clone_text(&scalar_type.description),
        name: scalar_name,
        directives: Vec::new(),
        built_in: false,
    };
    assert(r.directives.deep_view() =~= Seq::empty());
    ExtendedType::Scalar(r)
}

/// Copies an enum, without its values.
pub fn copy_enum_type(enum_name: Name, enum_type: &EnumType) -> (r: ExtendedType)
    ensures
        r.deep_view() == copied_enum(enum_name@, enum_type.deep_view()),
{
    let r = EnumType {
        description: clone_text(&enum_type.description),
        name: enum_name,
        directives: Vec::new(),
        values: NameMap::new(),
        built_in: false,
    };
    assert(r.directives.deep_view() =~= Seq::empty());
    ExtendedType::Enum(r)
}

/// Copies an input object.
pub fn copy_input_object_type(input_object_name: Name, input_object: &InputObjectType) -> (r:
    ExtendedType)
    ensures
        r.deep_view() == copied_input_object(input_object_name@, input_object.deep_view()),
{
    let mut new_fields: NameMap<InputValueDefinition> = NameMap::new();
    let ghost fields = input_object.fields.deep_view();
    let mut i: usize = 0;
    while i < input_object.fields.len()
        invariant
            i <= fields.len(),
            fields == input_object.fields.deep_view(),
            new_fields.deep_view() == copied_inputs(fields, i as nat),
        decreases fields.len() - i,
    {
        let field_name = input_object.fields.key_at(i);
        let field = input_object.fields.value_at(i);
        assert(fields[i as int] == (field_name@, field.deep_view()));
        new_fields.insert(field_name.clone(), copy_input(field));
        i += 1;
    }
    let r = InputObjectType {
        description: clone_text(&input_object.description),
        name: input_object_name,
        directives: Vec::new(),
        fields: new_fields,
        built_in: false,
    };
    assert(r.directives.deep_view() =~= Seq::empty());
    ExtendedType::InputObject(r)
}

/// Copies an interface.
pub fn copy_interface_type(interface_name: Name, interface: &InterfaceType) -> (r: ExtendedType)
    ensures
        r.deep_view() == copied_interface(interface_name@, interface.deep_view()),
{
    let r = InterfaceType {
        description: clone_text(&interface.description),
        name: interface_name,
        implements_interfaces: interface.implements_interfaces.clone(),
        directives: Vec::new(),
        fields: copy_fields(&interface.fields),
        built_in: false,
    };
    assert(r.directives.deep_view() =~= Seq::empty());
    ExtendedType::Interface(r)
}

/// Copies an object; one that stands for an interface becomes that interface.
pub fn copy_object_type_stub(
    object_name: Name,
    object: &ObjectType,
    is_interface_object: bool,
) -> (r: ExtendedType)
    ensures
        r.deep_view() == copied_object(object_name@, object.deep_view(), is_interface_object),
{
    let directives: Vec<Directive> = Vec::new();
    assert(directives.deep_view() =~= Seq::empty());
    if is_interface_object {
        ExtendedType::Interface(
            InterfaceType {
                description: clone_text(&object.description),
                name: object_name,
                implements_interfaces: object.implements_interfaces.clone(),
                directives,
                fields: copy_fields(&object.fields),
                built_in: false,
            },
        )
    } else {
        ExtendedType::Object(
            ObjectType {
                description: clone_text(&object.description),
                name: object_name,
                implements_interfaces: object.implements_interfaces.clone(),
                directives,
                fields: copy_fields(&object.fields),
                built_in: false,
            },
        )
    }
}

/// A union without members.
pub fn copy_union_type(union_name: Name, description: Option<String>) -> (r: ExtendedType)
    ensures
        r.deep_view() == copied_union(union_name@, description.deep_view()),
{
    let r = UnionType {
        description,
        name: union_name,
        directives: Vec::new(),
        members: NameSet::new(),
        built_in: false,
    };
    assert(r.directives.deep_view() =~= Seq::empty());
    ExtendedType::Union(r)
}

} // verus!
