//! Places in a schema: types and fields by their names.

use crate::ast::FieldDefinition;
use crate::ast::FieldView;
use crate::ast::Name;
use crate::ast::Type;
use crate::ast::TypeView;
use crate::collections::set_with;
use crate::collections::value_of;
use crate::collections::Entries;
use crate::collections::NameSet;
use crate::error::internal_error;
use crate::error::result_view;
use crate::error::ErrorView;
use crate::error::FederationError;
use crate::schema::ExtendedType;
use crate::schema::ExtendedTypeView;
use crate::schema::Schema;
use crate::schema::SchemaView;
use crate::text::joined3;
use crate::text::same;
use crate::text::Text;
use vstd::prelude::*;

verus! {

/// A type that has selections.
pub enum CompositeTypeDefinitionPosition {
    Object(Name),
    Interface(Name),
    Union(Name),
}

/// The mathematical content of a [`CompositeTypeDefinitionPosition`].
#[verifier::ext_equal]
pub enum CompositeView {
    Object(Text),
    Interface(Text),
    Union(Text),
}

/// The name of a composite type.
pub open spec fn composite_name(position: CompositeView) -> Text {
    match position {
        CompositeView::Object(name) => name,
        CompositeView::Interface(name) => name,
        CompositeView::Union(name) => name,
    }
}

impl DeepView for CompositeTypeDefinitionPosition {
    type V = CompositeView;

    open spec fn deep_view(&self) -> CompositeView {
        match self {
            CompositeTypeDefinitionPosition::Object(name) => CompositeView::Object(name@),
            CompositeTypeDefinitionPosition::Interface(name) => CompositeView::Interface(name@),
            CompositeTypeDefinitionPosition::Union(name) => CompositeView::Union(name@),
        }
    }
}

impl Clone for CompositeTypeDefinitionPosition {
    fn clone(&self) -> (r: Self)
        ensures
            r.deep_view() == self.deep_view(),
    {
        match self {
            CompositeTypeDefinitionPosition::Object(name) => {
                CompositeTypeDefinitionPosition::Object(name.clone())
            },
            CompositeTypeDefinitionPosition::Interface(name) => {
                CompositeTypeDefinitionPosition::Interface(name.clone())
            },
            CompositeTypeDefinitionPosition::Union(name) => {
                CompositeTypeDefinitionPosition::Union(name.clone())
            },
        }
    }
}

impl CompositeTypeDefinitionPosition {
    /// The name of the type.
    pub fn name(&self) -> (r: &Name)
        ensures
            r@ == composite_name(self.deep_view()),
    {
        match self {
            CompositeTypeDefinitionPosition::Object(name) => name,
            CompositeTypeDefinitionPosition::Interface(name) => name,
            CompositeTypeDefinitionPosition::Union(name) => name,
        }
    }

    /// Whether the two are the same place.
    pub fn same_as(&self, other: &Self) -> (r: bool)
        ensures
            r == (self.deep_view() == other.deep_view()),
    {
        match (self, other) {
            (
                CompositeTypeDefinitionPosition::Object(a),
                CompositeTypeDefinitionPosition::Object(b),
            ) => same(a, b),
            (
                CompositeTypeDefinitionPosition::Interface(a),
                CompositeTypeDefinitionPosition::Interface(b),
            ) => same(a, b),
            (
                CompositeTypeDefinitionPosition::Union(a),
                CompositeTypeDefinitionPosition::Union(b),
            ) => same(a, b),
            _ => false,
        }
    }

    /// Whether the type is an interface or a union.
    pub fn is_abstract(&self) -> (r: bool)
        ensures
            r == !(self.deep_view() is Object),
    {
        match self {
            CompositeTypeDefinitionPosition::Object(_) => false,
            CompositeTypeDefinitionPosition::Interface(_) => true,
            CompositeTypeDefinitionPosition::Union(_) => true,
        }
    }
}

/// The same place, or none.
pub fn clone_position(position: &Option<CompositeTypeDefinitionPosition>) -> (r: Option<
    CompositeTypeDefinitionPosition,
>)
    ensures
        r.deep_view() == position.deep_view(),
{
    match position {
        Some(p) => Some(p.clone()),
        None => None,
    }
}

/// A type of any kind.
pub enum TypeDefinitionPosition {
    Scalar(Name),
    Object(Name),
    Interface(Name),
    Union(Name),
    Enum(Name),
    InputObject(Name),
}

/// The mathematical content of a [`TypeDefinitionPosition`].
#[verifier::ext_equal]
pub enum PositionView {
    Scalar(Text),
    Object(Text),
    Interface(Text),
    Union(Text),
    Enum(Text),
    InputObject(Text),
}

impl DeepView for TypeDefinitionPosition {
    type V = PositionView;

    open spec fn deep_view(&self) -> PositionView {
        match self {
            TypeDefinitionPosition::Scalar(name) => PositionView::Scalar(name@),
            TypeDefinitionPosition::Object(name) => PositionView::Object(name@),
            TypeDefinitionPosition::Interface(name) => PositionView::Interface(name@),
            TypeDefinitionPosition::Union(name) => PositionView::Union(name@),
            TypeDefinitionPosition::Enum(name) => PositionView::Enum(name@),
            TypeDefinitionPosition::InputObject(name) => PositionView::InputObject(name@),
        }
    }
}

impl Clone for TypeDefinitionPosition {
    fn clone(&self) -> (r: Self)
        ensures
            r.deep_view() == self.deep_view(),
    {
        match self {
            TypeDefinitionPosition::Scalar(name) => TypeDefinitionPosition::Scalar(name.clone()),
            TypeDefinitionPosition::Object(name) => TypeDefinitionPosition::Object(name.clone()),
            TypeDefinitionPosition::Interface(name) => {
                TypeDefinitionPosition::Interface(name.clone())
            },
            TypeDefinitionPosition::Union(name) => TypeDefinitionPosition::Union(name.clone()),
            TypeDefinitionPosition::Enum(name) => TypeDefinitionPosition::Enum(name.clone()),
            TypeDefinitionPosition::InputObject(name) => {
                TypeDefinitionPosition::InputObject(name.clone())
            },
        }
    }
}

/// The name of a type.
pub open spec fn position_name(position: PositionView) -> Text {
    match position {
        PositionView::Scalar(name) => name,
        PositionView::Object(name) => name,
        PositionView::Interface(name) => name,
        PositionView::Union(name) => name,
        PositionView::Enum(name) => name,
        PositionView::InputObject(name) => name,
    }
}

/// The type as one that has selections, if it is one.
pub open spec fn as_composite(position: PositionView) -> Option<CompositeView> {
    match position {
        PositionView::Object(name) => Some(CompositeView::Object(name)),
        PositionView::Interface(name) => Some(CompositeView::Interface(name)),
        PositionView::Union(name) => Some(CompositeView::Union(name)),
        _ => None,
    }
}

/// Whether values of the type have no fields.
pub open spec fn is_leaf_position(position: PositionView) -> bool {
    position is Scalar || position is Enum
}

impl TypeDefinitionPosition {
    /// The name of the type.
    pub fn name(&self) -> (r: &Name)
        ensures
            r@ == position_name(self.deep_view()),
    {
        match self {
            TypeDefinitionPosition::Scalar(name) => name,
            TypeDefinitionPosition::Object(name) => name,
            TypeDefinitionPosition::Interface(name) => name,
            TypeDefinitionPosition::Union(name) => name,
            TypeDefinitionPosition::Enum(name) => name,
            TypeDefinitionPosition::InputObject(name) => name,
        }
    }

    /// The type as one that has selections, if it is one.
    pub fn to_composite(&self) -> (r: Option<CompositeTypeDefinitionPosition>)
        ensures
            r.deep_view() == as_composite(self.deep_view()),
    {
        match self {
            TypeDefinitionPosition::Object(name) => Some(
                CompositeTypeDefinitionPosition::Object(name.clone()),
            ),
            TypeDefinitionPosition::Interface(name) => Some(
                CompositeTypeDefinitionPosition::Interface(name.clone()),
            ),
            TypeDefinitionPosition::Union(name) => Some(
                CompositeTypeDefinitionPosition::Union(name.clone()),
            ),
            _ => None,
        }
    }

    /// Whether values of the type have no fields.
    pub fn is_leaf(&self) -> (r: bool)
        ensures
            r == is_leaf_position(self.deep_view()),
    {
        match self {
            TypeDefinitionPosition::Scalar(_) | TypeDefinitionPosition::Enum(_) => true,
            _ => false,
        }
    }
}

/// A field of a composite type.
pub struct FieldDefinitionPosition {
    pub parent: CompositeTypeDefinitionPosition,
    pub field_name: Name,
}

/// The mathematical content of a [`FieldDefinitionPosition`].
#[verifier::ext_equal]
pub struct FieldPositionView {
    pub parent: CompositeView,
    pub field_name: Text,
}

impl DeepView for FieldDefinitionPosition {
    type V = FieldPositionView;

    open spec fn deep_view(&self) -> FieldPositionView {
        FieldPositionView { parent: self.parent.deep_view(), field_name: self.field_name@ }
    }
}

impl Clone for FieldDefinitionPosition {
    fn clone(&self) -> (r: Self)
        ensures
            r.deep_view() == self.deep_view(),
    {
        FieldDefinitionPosition {
            parent: self.parent.clone(),
            field_name: self.field_name.clone(),
        }
    }
}

/// The place of a type of the given name.
pub open spec fn position_of(name: Text, ty: ExtendedTypeView) -> PositionView {
    match ty {
        ExtendedTypeView::Scalar(_) => PositionView::Scalar(name),
        ExtendedTypeView::Object(_) => PositionView::Object(name),
        ExtendedTypeView::Interface(_) => PositionView::Interface(name),
        ExtendedTypeView::Union(_) => PositionView::Union(name),
        ExtendedTypeView::Enum(_) => PositionView::Enum(name),
        ExtendedTypeView::InputObject(_) => PositionView::InputObject(name),
    }
}

/// The place of the type of the given name, if the schema has one.
pub open spec fn type_position(schema: SchemaView, name: Text) -> Option<PositionView> {
    match value_of(schema.types, name) {
        Some(ty) => Some(position_of(name, ty)),
        None => None,
    }
}

/// The error for a type that the schema does not have.
pub open spec fn missing_type(name: Text) -> ErrorView {
    internal_error("Schema has no type \""@ + name + "\""@)
}

/// The place of the type of the given name.
pub open spec fn get_type(schema: SchemaView, name: Text) -> Result<PositionView, ErrorView> {
    match type_position(schema, name) {
        Some(position) => Ok(position),
        None => Err(missing_type(name)),
    }
}

/// The type of `__typename`.
pub open spec fn typename_type() -> TypeView {
    TypeView::NonNullNamed("String"@)
}

/// The fields of an object or interface.
pub open spec fn fields_of(ty: ExtendedTypeView) -> Option<Entries<FieldView>> {
    match ty {
        ExtendedTypeView::Object(o) => Some(o.fields),
        ExtendedTypeView::Interface(i) => Some(i.fields),
        _ => None,
    }
}

/// The definition of a field that is not `__typename`.
pub open spec fn field_definition(schema: SchemaView, parent: Text, field: Text) -> Option<
    FieldView,
> {
    match value_of(schema.types, parent) {
        Some(ty) => match fields_of(ty) {
            Some(fields) => value_of(fields, field),
            None => None,
        },
        None => None,
    }
}

/// The error for a field that its type does not have.
pub open spec fn missing_field(position: FieldPositionView) -> ErrorView {
    internal_error(
        "Schema has no field \""@ + composite_name(position.parent) + "."@ + position.field_name
            + "\""@,
    )
}

/// The type of a field: every composite type has `__typename`, and only objects and interfaces
/// have other fields.
pub open spec fn field_type(schema: SchemaView, position: FieldPositionView) -> Result<
    TypeView,
    ErrorView,
> {
    let parent = composite_name(position.parent);
    if position.field_name == "__typename"@ {
        match type_position(schema, parent) {
            Some(p) => if as_composite(p) is Some {
                Ok(typename_type())
            } else {
                Err(missing_field(position))
            },
            None => Err(missing_field(position)),
        }
    } else {
        match field_definition(schema, parent, position.field_name) {
            Some(definition) => Ok(definition.ty),
            None => Err(missing_field(position)),
        }
    }
}

/// The object types among the first `n` that implement an interface.
pub open spec fn implementing_objects(
    types: Entries<ExtendedTypeView>,
    interface: Text,
    n: nat,
) -> Seq<Text>
    decreases n,
{
    if n == 0 {
        Seq::empty()
    } else {
        let before = implementing_objects(types, interface, (n - 1) as nat);
        match types[n - 1].1 {
            ExtendedTypeView::Object(o) => if o.implements_interfaces.contains(interface) {
                set_with(before, types[n - 1].0)
            } else {
                before
            },
            _ => before,
        }
    }
}

/// The object types that a value of a composite type can have at run time.
pub open spec fn runtime_types(schema: SchemaView, position: CompositeView) -> Seq<Text> {
    match position {
        CompositeView::Object(name) => seq![name],
        CompositeView::Interface(name) => implementing_objects(
            schema.types,
            name,
            schema.types.len(),
        ),
        CompositeView::Union(name) => match value_of(schema.types, name) {
            Some(ExtendedTypeView::Union(u)) => u.members,
            _ => Seq::empty(),
        },
    }
}

/// Whether `sub` implements the interface `abstract_type` or is a member of the union of that
/// name.
pub open spec fn subtype(schema: SchemaView, abstract_type: Text, sub: Text) -> bool {
    match value_of(schema.types, abstract_type) {
        Some(ExtendedTypeView::Interface(_)) => match value_of(schema.types, sub) {
            Some(ExtendedTypeView::Object(o)) => o.implements_interfaces.contains(abstract_type),
            Some(ExtendedTypeView::Interface(i)) => i.implements_interfaces.contains(
                abstract_type,
            ),
            _ => false,
        },
        Some(ExtendedTypeView::Union(u)) => u.members.contains(sub),
        _ => false,
    }
}

impl Schema {
    /// The place of the type of the given name, if there is one.
    pub fn try_get_type(&self, name: &str) -> (r: Option<TypeDefinitionPosition>)
        ensures
            r.deep_view() == type_position(self.deep_view(), name@),
    {
        match self.types.get(name) {
            Some(ty) => Some(
                match ty {
                    ExtendedType::Scalar(_) => TypeDefinitionPosition::Scalar(name.to_owned()),
                    ExtendedType::Object(_) => TypeDefinitionPosition::Object(name.to_owned()),
                    ExtendedType::Interface(_) => {
                        TypeDefinitionPosition::Interface(name.to_owned())
                    },
                    ExtendedType::Union(_) => TypeDefinitionPosition::Union(name.to_owned()),
                    ExtendedType::Enum(_) => TypeDefinitionPosition::Enum(name.to_owned()),
                    ExtendedType::InputObject(_) => {
                        TypeDefinitionPosition::InputObject(name.to_owned())
                    },
                },
            ),
            None => None,
        }
    }

    /// The place of the type of the given name.
    pub fn get_type(&self, name: &str) -> (r: Result<TypeDefinitionPosition, FederationError>)
        ensures
            result_view(r) == get_type(self.deep_view(), name@),
    {
        match self.try_get_type(name) {
            Some(position) => Ok(position),
            None => Err(
                FederationError::internal(&joined3("Schema has no type \"", name, "\"")),
            ),
        }
    }

    /// The definition of a field that is not `__typename`.
    pub fn get_field(&self, parent: &str, field: &str) -> (r: Option<&FieldDefinition>)
        ensures
            r.deep_view() == field_definition(self.deep_view(), parent@, field@),
    {
        match self.types.get(parent) {
            Some(ExtendedType::Object(o)) => o.fields.get(field),
            Some(ExtendedType::Interface(i)) => i.fields.get(field),
            _ => None,
        }
    }

    /// The type of a field.
    pub fn field_type(&self, position: &FieldDefinitionPosition) -> (r: Result<
        Type,
        FederationError,
    >)
        ensures
            result_view(r) == field_type(self.deep_view(), position.deep_view()),
    {
        let parent = position.parent.name();
        if same(&position.field_name, "__typename") {
            if let Some(p) = self.try_get_type(parent) {
                if p.to_composite().is_some() {
                    return Ok(Type::NonNullNamed("String".to_owned()));
                }
            }
        } else if let Some(definition) = self.get_field(parent, &position.field_name) {
            return Ok(definition.ty.clone());
        }
        Err(
            FederationError::internal(
                &joined3(
                    &joined3("Schema has no field \"", parent, "."),
                    &position.field_name,
                    "\"",
                ),
            ),
        )
    }

    /// The object types that implement an interface.
    pub fn implementing_objects(&self, interface: &str) -> (r: NameSet)
        ensures
            r.deep_view() == implementing_objects(
                self.deep_view().types,
                interface@,
                self.deep_view().types.len(),
            ),
    {
        let mut names = NameSet::new();
        let ghost types = self.types.deep_view();
        let mut i: usize = 0;
        while i < self.types.len()
            invariant
                i <= types.len(),
                types == self.types.deep_view(),
                names.deep_view() == implementing_objects(types, interface@, i as nat),
            decreases types.len() - i,
        {
            let ty = self.types.value_at(i);
            let name = self.types.key_at(i);
            assert(types[i as int] == (name@, ty.deep_view()));
            if let ExtendedType::Object(o) = ty {
                if o.implements_interfaces.contains(interface) {
                    names.insert(name.clone());
                }
            }
            i += 1;
        }
        names
    }

    /// The object types that a value of a composite type can have at run time.
    pub fn possible_runtime_types(&self, position: &CompositeTypeDefinitionPosition) -> (r: NameSet)
        ensures
            r.deep_view() == runtime_types(self.deep_view(), position.deep_view()),
    {
        match position {
            CompositeTypeDefinitionPosition::Object(name) => {
                let mut names = NameSet::new();
                names.insert(name.clone());
                assert(names.deep_view() =~= seq![name@]);
                names
            },
            CompositeTypeDefinitionPosition::Interface(name) => self.implementing_objects(name),
            CompositeTypeDefinitionPosition::Union(name) => match self.types.get(name) {
                Some(ExtendedType::Union(u)) => u.members.clone(),
                _ => NameSet::new(),
            },
        }
    }

    /// Whether `sub` implements the interface `abstract_type` or is a member of the union of that
    /// name.
    pub fn is_subtype(&self, abstract_type: &str, sub: &str) -> (r: bool)
        ensures
            r == subtype(self.deep_view(), abstract_type@, sub@),
    {
        match self.types.get(abstract_type) {
            Some(ExtendedType::Interface(_)) => match self.types.get(sub) {
                Some(ExtendedType::Object(o)) => o.implements_interfaces.contains(abstract_type),
                Some(ExtendedType::Interface(i)) => {
                    i.implements_interfaces.contains(abstract_type)
                },
                _ => false,
            },
            Some(ExtendedType::Union(u)) => u.members.contains(sub),
            _ => false,
        }
    }
}

} // verus!
