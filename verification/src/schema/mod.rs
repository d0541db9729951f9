//! Schemas: type definitions, directive definitions and root operations.

pub mod argument_composition_strategies;
pub mod position;

use crate::ast::clone_directives;
use crate::ast::clone_text;
use crate::ast::Directive;
use crate::ast::DirectiveDefinition;
use crate::ast::DirectiveDefinitionView;
use crate::ast::DirectiveView;
use crate::ast::EnumValueDefinition;
use crate::ast::EnumValueDefinitionView;
use crate::ast::FieldDefinition;
use crate::ast::FieldView;
use crate::ast::InputValueDefinition;
use crate::ast::InputValueView;
use crate::ast::Name;
use crate::collections::clone_keeps_view;
use crate::collections::put;
use crate::collections::set_with;
use crate::collections::value_or;
use crate::collections::Entries;
use crate::collections::NameMap;
use crate::collections::NameSet;
use crate::text::Text;
use vstd::prelude::*;

verus! {

/// A scalar type.
pub struct ScalarType {
    pub description: Option<String>,
    pub name: Name,
    pub directives: Vec<Directive>,
    /// Whether the definition is one of those that every schema has.
    pub built_in: bool,
}

/// The mathematical content of a [`ScalarType`].
#[verifier::ext_equal]
pub struct ScalarView {
    pub description: Option<Text>,
    pub name: Text,
    pub directives: Seq<DirectiveView>,
    pub built_in: bool,
}

impl DeepView for ScalarType {
    type V = ScalarView;

    open spec fn deep_view(&self) -> ScalarView {
        ScalarView {
            description: self.description.deep_view(),
            name: self.name@,
            directives: self.directives.deep_view(),
            built_in: self.built_in,
        }
    }
}

impl Clone for ScalarType {
    fn clone(&self) -> (r: Self)
        ensures
            r.deep_view() == self.deep_view(),
    {
        ScalarType {
            description: clone_text(&self.description),
            name: self.name.clone(),
            directives: clone_directives(&self.directives),
            built_in: self.built_in,
        }
    }
}

/// An object type.
pub struct ObjectType {
    pub description: Option<String>,
    pub name: Name,
    pub implements_interfaces: NameSet,
    pub directives: Vec<Directive>,
    pub fields: NameMap<FieldDefinition>,
    /// Whether the definition is one of those that every schema has.
    pub built_in: bool,
}

/// The mathematical content of an [`ObjectType`].
#[verifier::ext_equal]
pub struct ObjectView {
    pub description: Option<Text>,
    pub name: Text,
    pub implements_interfaces: Seq<Text>,
    pub directives: Seq<DirectiveView>,
    pub fields: Entries<FieldView>,
    pub built_in: bool,
}

impl DeepView for ObjectType {
    type V = ObjectView;

    open spec fn deep_view(&self) -> ObjectView {
        ObjectView {
            description: self.description.deep_view(),
            name: self.name@,
            implements_interfaces: self.implements_interfaces.deep_view(),
            directives: self.directives.deep_view(),
            fields: self.fields.deep_view(),
            built_in: self.built_in,
        }
    }
}

impl Clone for ObjectType {
    fn clone(&self) -> (r: Self)
        ensures
            r.deep_view() == self.deep_view(),
    {
        let fields = self.fields.clone();
        assert(clone_keeps_view::<FieldDefinition>());
        ObjectType {
            description: clone_text(&self.description),
            name: self.name.clone(),
            implements_interfaces: self.implements_interfaces.clone(),
            directives: clone_directives(&self.directives),
            fields,
            built_in: self.built_in,
        }
    }
}

/// An interface type.
pub struct InterfaceType {
    pub description: Option<String>,
    pub name: Name,
    pub implements_interfaces: NameSet,
    pub directives: Vec<Directive>,
    pub fields: NameMap<FieldDefinition>,
    /// Whether the definition is one of those that every schema has.
    pub built_in: bool,
}

/// The mathematical content of an [`InterfaceType`].
#[verifier::ext_equal]
pub struct InterfaceView {
    pub description: Option<Text>,
    pub name: Text,
    pub implements_interfaces: Seq<Text>,
    pub directives: Seq<DirectiveView>,
    pub fields: Entries<FieldView>,
    pub built_in: bool,
}

impl DeepView for InterfaceType {
    type V = InterfaceView;

    open spec fn deep_view(&self) -> InterfaceView {
        InterfaceView {
            description: self.description.deep_view(),
            name: self.name@,
            implements_interfaces: self.implements_interfaces.deep_view(),
            directives: self.directives.deep_view(),
            fields: self.fields.deep_view(),
            built_in: self.built_in,
        }
    }
}

impl Clone for InterfaceType {
    fn clone(&self) -> (r: Self)
        ensures
            r.deep_view() == self.deep_view(),
    {
        let fields = self.fields.clone();
        assert(clone_keeps_view::<FieldDefinition>());
        InterfaceType {
            description: clone_text(&self.description),
            name: self.name.clone(),
            implements_interfaces: self.implements_interfaces.clone(),
            directives: clone_directives(&self.directives),
            fields,
            built_in: self.built_in,
        }
    }
}

/// A union type.
pub struct UnionType {
    pub description: Option<String>,
    pub name: Name,
    pub directives: Vec<Directive>,
    pub members: NameSet,
    /// Whether the definition is one of those that every schema has.
    pub built_in: bool,
}

/// The mathematical content of an [`UnionType`].
#[verifier::ext_equal]
pub struct UnionView {
    pub description: Option<Text>,
    pub name: Text,
    pub directives: Seq<DirectiveView>,
    pub members: Seq<Text>,
    pub built_in: bool,
}

impl DeepView for UnionType {
    type V = UnionView;

    open spec fn deep_view(&self) -> UnionView {
        UnionView {
            description: self.description.deep_view(),
            name: self.name@,
            directives: self.directives.deep_view(),
            members: self.members.deep_view(),
            built_in: self.built_in,
        }
    }
}

impl Clone for UnionType {
    fn clone(&self) -> (r: Self)
        ensures
            r.deep_view() == self.deep_view(),
    {
        UnionType {
            description: clone_text(&self.description),
            name: self.name.clone(),
            directives: clone_directives(&self.directives),
            members: self.members.clone(),
            built_in: self.built_in,
        }
    }
}

/// An enum type.
pub struct EnumType {
    pub description: Option<String>,
    pub name: Name,
    pub directives: Vec<Directive>,
    pub values: NameMap<EnumValueDefinition>,
    /// Whether the definition is one of those that every schema has.
    pub built_in: bool,
}

/// The mathematical content of an [`EnumType`].
#[verifier::ext_equal]
pub struct EnumView {
    pub description: Option<Text>,
    pub name: Text,
    pub directives: Seq<DirectiveView>,
    pub values: Entries<EnumValueDefinitionView>,
    pub built_in: bool,
}

impl DeepView for EnumType {
    type V = EnumView;

    open spec fn deep_view(&self) -> EnumView {
        EnumView {
            description: self.description.deep_view(),
            name: self.name@,
            directives: self.directives.deep_view(),
            values: self.values.deep_view(),
            built_in: self.built_in,
        }
    }
}

impl Clone for EnumType {
    fn clone(&self) -> (r: Self)
        ensures
            r.deep_view() == self.deep_view(),
    {
        let values = self.values.clone();
        assert(clone_keeps_view::<EnumValueDefinition>());
        EnumType {
            description: clone_text(&self.description),
            name: self.name.clone(),
            directives: clone_directives(&self.directives),
            values,
            built_in: self.built_in,
        }
    }
}

/// An input object type.
pub struct InputObjectType {
    pub description: Option<String>,
    pub name: Name,
    pub directives: Vec<Directive>,
    pub fields: NameMap<InputValueDefinition>,
    /// Whether the definition is one of those that every schema has.
    pub built_in: bool,
}

/// The mathematical content of an [`InputObjectType`].
#[verifier::ext_equal]
pub struct InputObjectView {
    pub description: Option<Text>,
    pub name: Text,
    pub directives: Seq<DirectiveView>,
    pub fields: Entries<InputValueView>,
    pub built_in: bool,
}

impl DeepView for InputObjectType {
    type V = InputObjectView;

    open spec fn deep_view(&self) -> InputObjectView {
        InputObjectView {
            description: self.description.deep_view(),
            name: self.name@,
            directives: self.directives.deep_view(),
            fields: self.fields.deep_view(),
            built_in: self.built_in,
        }
    }
}

impl Clone for InputObjectType {
    fn clone(&self) -> (r: Self)
        ensures
            r.deep_view() == self.deep_view(),
    {
        let fields = self.fields.clone();
        assert(clone_keeps_view::<InputValueDefinition>());
        InputObjectType {
            description: clone_text(&self.description),
            name: self.name.clone(),
            directives: clone_directives(&self.directives),
            fields,
            built_in: self.built_in,
        }
    }
}

/// A type definition.
pub enum ExtendedType {
    Scalar(ScalarType),
    Object(ObjectType),
    Interface(InterfaceType),
    Union(UnionType),
    Enum(EnumType),
    InputObject(InputObjectType),
}

/// The mathematical content of an [`ExtendedType`].
#[verifier::ext_equal]
pub enum ExtendedTypeView {
    Scalar(ScalarView),
    Object(ObjectView),
    Interface(InterfaceView),
    Union(UnionView),
    Enum(EnumView),
    InputObject(InputObjectView),
}

impl DeepView for ExtendedType {
    type V = ExtendedTypeView;

    open spec fn deep_view(&self) -> ExtendedTypeView {
        match self {
            ExtendedType::Scalar(ty) => ExtendedTypeView::Scalar(ty.deep_view()),
            ExtendedType::Object(ty) => ExtendedTypeView::Object(ty.deep_view()),
            ExtendedType::Interface(ty) => ExtendedTypeView::Interface(ty.deep_view()),
            ExtendedType::Union(ty) => ExtendedTypeView::Union(ty.deep_view()),
            ExtendedType::Enum(ty) => ExtendedTypeView::Enum(ty.deep_view()),
            ExtendedType::InputObject(ty) => ExtendedTypeView::InputObject(ty.deep_view()),
        }
    }
}

impl Clone for ExtendedType {
    fn clone(&self) -> (r: Self)
        ensures
            r.deep_view() == self.deep_view(),
    {
        match self {
            ExtendedType::Scalar(ty) => ExtendedType::Scalar(ty.clone()),
            ExtendedType::Object(ty) => ExtendedType::Object(ty.clone()),
            ExtendedType::Interface(ty) => ExtendedType::Interface(ty.clone()),
            ExtendedType::Union(ty) => ExtendedType::Union(ty.clone()),
            ExtendedType::Enum(ty) => ExtendedType::Enum(ty.clone()),
            ExtendedType::InputObject(ty) => ExtendedType::InputObject(ty.clone()),
        }
    }
}

/// Whether the type is one of those that every schema has.
pub open spec fn type_is_built_in(ty: ExtendedTypeView) -> bool {
    match ty {
        ExtendedTypeView::Scalar(t) => t.built_in,
        ExtendedTypeView::Object(t) => t.built_in,
        ExtendedTypeView::Interface(t) => t.built_in,
        ExtendedTypeView::Union(t) => t.built_in,
        ExtendedTypeView::Enum(t) => t.built_in,
        ExtendedTypeView::InputObject(t) => t.built_in,
    }
}

impl ExtendedType {
    /// Whether the type is one of those that every schema has.
    pub fn is_built_in(&self) -> (r: bool)
        ensures
            r == type_is_built_in(self.deep_view()),
    {
        match self {
            ExtendedType::Scalar(ty) => ty.built_in,
            ExtendedType::Object(ty) => ty.built_in,
            ExtendedType::Interface(ty) => ty.built_in,
            ExtendedType::Union(ty) => ty.built_in,
            ExtendedType::Enum(ty) => ty.built_in,
            ExtendedType::InputObject(ty) => ty.built_in,
        }
    }
}

/// The schema definition: its directives and the types of its root operations.
pub struct SchemaDefinition {
    pub description: Option<String>,
    pub directives: Vec<Directive>,
    pub query: Option<Name>,
    pub mutation: Option<Name>,
    pub subscription: Option<Name>,
}

/// The mathematical content of a [`SchemaDefinition`].
#[verifier::ext_equal]
pub struct SchemaDefinitionView {
    pub description: Option<Text>,
    pub directives: Seq<DirectiveView>,
    pub query: Option<Text>,
    pub mutation: Option<Text>,
    pub subscription: Option<Text>,
}

impl DeepView for SchemaDefinition {
    type V = SchemaDefinitionView;

    open spec fn deep_view(&self) -> SchemaDefinitionView {
        SchemaDefinitionView {
            description: self.description.deep_view(),
            directives: self.directives.deep_view(),
            query: self.query.deep_view(),
            mutation: self.mutation.deep_view(),
            subscription: self.subscription.deep_view(),
        }
    }
}

impl Clone for SchemaDefinition {
    fn clone(&self) -> (r: Self)
        ensures
            r.deep_view() == self.deep_view(),
    {
        SchemaDefinition {
            description: clone_text(&self.description),
            directives: clone_directives(&self.directives),
            query: clone_text(&self.query),
            mutation: clone_text(&self.mutation),
            subscription: clone_text(&self.subscription),
        }
    }
}

/// The number of the file with the definitions that every schema has.
pub const BUILT_IN_FILE: u64 = 1;

/// A file that definitions were read from.
pub struct SourceFile {
    pub id: u64,
    pub text: String,
}

/// The mathematical content of a [`SourceFile`].
#[verifier::ext_equal]
pub struct SourceFileView {
    pub id: u64,
    pub text: Text,
}

impl DeepView for SourceFile {
    type V = SourceFileView;

    open spec fn deep_view(&self) -> SourceFileView {
        SourceFileView {
            id: self.id,
            text: self.text@,
        }
    }
}

impl Clone for SourceFile {
    fn clone(&self) -> (r: Self)
        ensures
            r.deep_view() == self.deep_view(),
    {
        SourceFile {
            id: self.id,
            text: self.text.clone(),
        }
    }
}

/// A schema.
pub struct Schema {
    pub sources: Vec<SourceFile>,
    pub schema_definition: SchemaDefinition,
    pub directive_definitions: NameMap<DirectiveDefinition>,
    pub types: NameMap<ExtendedType>,
}

/// The mathematical content of a [`Schema`].
#[verifier::ext_equal]
pub struct SchemaView {
    pub sources: Seq<SourceFileView>,
    pub schema_definition: SchemaDefinitionView,
    pub directive_definitions: Entries<DirectiveDefinitionView>,
    pub types: Entries<ExtendedTypeView>,
}

impl DeepView for Schema {
    type V = SchemaView;

    open spec fn deep_view(&self) -> SchemaView {
        SchemaView {
            sources: self.sources.deep_view(),
            schema_definition: self.schema_definition.deep_view(),
            directive_definitions: self.directive_definitions.deep_view(),
            types: self.types.deep_view(),
        }
    }
}

impl Clone for Schema {
    fn clone(&self) -> (r: Self)
        ensures
            r.deep_view() == self.deep_view(),
    {
        let sources = self.sources.clone();
        assert(sources.deep_view() =~= self.sources.deep_view());
        let directive_definitions = self.directive_definitions.clone();
        assert(clone_keeps_view::<DirectiveDefinition>());
        let types = self.types.clone();
        assert(clone_keeps_view::<ExtendedType>());
        Schema {
            sources,
            schema_definition: self.schema_definition.clone(),
            directive_definitions,
            types,
        }
    }
}

/// The types that implement an interface.
pub struct Implementers {
    pub objects: NameSet,
    pub interfaces: NameSet,
}

/// The mathematical content of an [`Implementers`].
#[verifier::ext_equal]
pub struct ImplementersView {
    pub objects: Seq<Text>,
    pub interfaces: Seq<Text>,
}

impl DeepView for Implementers {
    type V = ImplementersView;

    open spec fn deep_view(&self) -> ImplementersView {
        ImplementersView {
            objects: self.objects.deep_view(),
            interfaces: self.interfaces.deep_view(),
        }
    }
}

impl Clone for Implementers {
    fn clone(&self) -> (r: Self)
        ensures
            r.deep_view() == self.deep_view(),
    {
        Implementers {
            objects: self.objects.clone(),
            interfaces: self.interfaces.clone(),
        }
    }
}

/// No implementers.
pub open spec fn no_implementers() -> ImplementersView {
    ImplementersView { objects: Seq::empty(), interfaces: Seq::empty() }
}

/// The implementers with one more.
pub open spec fn with_implementer(
    implementers: ImplementersView,
    name: Text,
    is_object: bool,
) -> ImplementersView {
    if is_object {
        ImplementersView { objects: set_with(implementers.objects, name), ..implementers }
    } else {
        ImplementersView { interfaces: set_with(implementers.interfaces, name), ..implementers }
    }
}

/// The implementers of each interface, with a type noted at the first `n` interfaces that it
/// implements.
pub open spec fn noted_implementer(
    map: Entries<ImplementersView>,
    name: Text,
    is_object: bool,
    interfaces: Seq<Text>,
    n: nat,
) -> Entries<ImplementersView>
    decreases n,
{
    if n == 0 {
        map
    } else {
        let before = noted_implementer(map, name, is_object, interfaces, (n - 1) as nat);
        let interface = interfaces[n - 1];
        put(
            before,
            interface,
            with_implementer(value_or(before, interface, no_implementers()), name, is_object),
        )
    }
}

/// The implementers of each interface among the first `n` types.
pub open spec fn implementers_of(types: Entries<ExtendedTypeView>, n: nat) -> Entries<
    ImplementersView,
>
    decreases n,
{
    if n == 0 {
        Seq::empty()
    } else {
        let before = implementers_of(types, (n - 1) as nat);
        let (name, ty) = types[n - 1];
        match ty {
            ExtendedTypeView::Object(o) => noted_implementer(
                before,
                name,
                true,
                o.implements_interfaces,
                o.implements_interfaces.len(),
            ),
            ExtendedTypeView::Interface(i) => noted_implementer(
                before,
                name,
                false,
                i.implements_interfaces,
                i.implements_interfaces.len(),
            ),
            _ => before,
        }
    }
}

fn note_implementer(
    map: &mut NameMap<Implementers>,
    name: &Name,
    is_object: bool,
    interfaces: &NameSet,
)
    ensures
        final(map).deep_view() == noted_implementer(
            old(map).deep_view(),
            name@,
            is_object,
            interfaces.deep_view(),
            interfaces.deep_view().len(),
        ),
{
    let mut i: usize = 0;
    while i < interfaces.len()
        invariant
            i <= interfaces.deep_view().len(),
            map.deep_view() == noted_implementer(
                old(map).deep_view(),
                name@,
                is_object,
                interfaces.deep_view(),
                i as nat,
            ),
        decreases interfaces.deep_view().len() - i,
    {
        let none = Implementers { objects: NameSet::new(), interfaces: NameSet::new() };
        let entry = map.get_or_insert(interfaces.at(i).clone(), none);
        if is_object {
            entry.objects.insert(name.clone());
        } else {
            entry.interfaces.insert(name.clone());
        }
        i += 1;
    }
}

impl Schema {
    /// The implementers of each interface.
    pub fn implementers_map(&self) -> (r: NameMap<Implementers>)
        ensures
            r.deep_view() == implementers_of(
                self.deep_view().types,
                self.deep_view().types.len(),
            ),
    {
        let mut map: NameMap<Implementers> = NameMap::new();
        let ghost types = self.types.deep_view();
        let mut i: usize = 0;
        while i < self.types.len()
            invariant
                i <= types.len(),
                types == self.types.deep_view(),
                map.deep_view() == implementers_of(types, i as nat),
            decreases types.len() - i,
        {
            let name = self.types.key_at(i);
            let ty = self.types.value_at(i);
            assert(types[i as int] == (name@, ty.deep_view()));
            match ty {
                ExtendedType::Object(o) => note_implementer(
                    &mut map,
                    name,
                    true,
                    &o.implements_interfaces,
                ),
                ExtendedType::Interface(o) => note_implementer(
                    &mut map,
                    name,
                    false,
                    &o.implements_interfaces,
                ),
                _ => {},
            }
            i += 1;
        }
        map
    }
}

} // verus!
