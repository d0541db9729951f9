//! Schemas from apollo-compiler: the one that every supergraph starts from, and those that are read
//! from texts, with the conversions from its types, each of which changes the type of a value and
//! nothing else.

use crate::ast::Directive;
use crate::ast::DirectiveDefinition;
use crate::ast::DirectiveLocation;
use crate::ast::EnumValueDefinition;
use crate::ast::FieldDefinition;
use crate::ast::InputValueDefinition;
use crate::collections::NameMap;
use crate::collections::NameSet;
use crate::compiler::from_directives;
use crate::compiler::from_type;
use crate::compiler::from_value;
use crate::compiler::invalid;
use crate::error::ErrorKind;
use crate::error::FederationError;
use crate::schema::EnumType;
use crate::schema::ExtendedType;
use crate::schema::InputObjectType;
use crate::schema::InterfaceType;
use crate::schema::ObjectType;
use crate::schema::ScalarType;
use crate::schema::Schema;
use crate::schema::SchemaDefinition;
use crate::schema::SchemaView;
use crate::schema::SourceFile;
use crate::schema::UnionType;
use crate::text::Text;
use apollo_compiler::ast as compiler;
use apollo_compiler::ast::DirectiveDefinition as ParsedDirectiveDefinition;
use apollo_compiler::ast::DirectiveLocation as ParsedLocation;
use apollo_compiler::ast::FieldDefinition as ParsedFieldDefinition;
use apollo_compiler::ast::InputValueDefinition as ParsedInput;
use apollo_compiler::schema::Component;
use apollo_compiler::schema::DirectiveList as ComponentDirectives;
use apollo_compiler::schema::EnumType as ParsedEnum;
use apollo_compiler::schema::ExtendedType as ParsedExtendedType;
use apollo_compiler::schema::InputObjectType as ParsedInputObject;
use apollo_compiler::schema::InterfaceType as ParsedInterface;
use apollo_compiler::schema::ObjectType as ParsedObject;
use apollo_compiler::schema::Schema as ParsedSchema;
use apollo_compiler::schema::UnionType as ParsedUnion;
use vstd::prelude::*;

verus! {

// The types of apollo-compiler that a schema is made of.

/// `apollo_compiler::Schema`, a schema.
#[verifier::external_type_specification]
#[verifier::external_body]
pub struct ExSchema(ParsedSchema);

/// `apollo_compiler::schema::Component`, a part of a definition or of an extension of it.
#[verifier::external_type_specification]
#[verifier::external_body]
#[verifier::reject_recursive_types(T)]
pub struct ExComponent<T: ?Sized>(Component<T>);

/// `apollo_compiler::schema::DirectiveList`, the directives of a type.
#[verifier::external_type_specification]
#[verifier::external_body]
pub struct ExComponentDirectives(ComponentDirectives);

/// `apollo_compiler::ast::DirectiveDefinition`, the definition of a directive.
#[verifier::external_type_specification]
#[verifier::external_body]
pub struct ExDirectiveDefinition(ParsedDirectiveDefinition);

/// `apollo_compiler::schema::ExtendedType`, a type.
#[verifier::external_type_specification]
#[verifier::external_body]
pub struct ExExtendedType(ParsedExtendedType);

/// `apollo_compiler::schema::ObjectType`, an object.
#[verifier::external_type_specification]
#[verifier::external_body]
pub struct ExObject(ParsedObject);

/// `apollo_compiler::schema::InterfaceType`, an interface.
#[verifier::external_type_specification]
#[verifier::external_body]
pub struct ExInterface(ParsedInterface);

/// `apollo_compiler::schema::UnionType`, a union.
#[verifier::external_type_specification]
#[verifier::external_body]
pub struct ExUnion(ParsedUnion);

/// `apollo_compiler::schema::EnumType`, an enum.
#[verifier::external_type_specification]
#[verifier::external_body]
pub struct ExEnum(ParsedEnum);

/// `apollo_compiler::schema::InputObjectType`, an input object.
#[verifier::external_type_specification]
#[verifier::external_body]
pub struct ExInputObject(ParsedInputObject);

// Schemas from apollo-compiler.

/// Converts an `apollo_compiler::schema::DirectiveList`.
#[verifier::external_body]
fn from_components(directives: &ComponentDirectives) -> Vec<Directive> {
    let list = compiler::DirectiveList(directives.iter().map(|d| d.node.clone()).collect());
    from_directives(&list)
}

/// Converts an `apollo_compiler::ast::InputValueDefinition`.
#[verifier::external_body]
fn from_input(input: &ParsedInput) -> InputValueDefinition {
    InputValueDefinition {
        name: input.name.to_string(),
        description: input.description.as_ref().map(|text| text.to_string()),
        ty: from_type(&input.ty),
        default_value: input.default_value.as_ref().map(|value| from_value(value)),
        directives: from_directives(&input.directives),
    }
}

/// Converts an `apollo_compiler::ast::FieldDefinition`.
#[verifier::external_body]
fn from_field_definition(field: &ParsedFieldDefinition) -> FieldDefinition {
    FieldDefinition {
        name: field.name.to_string(),
        description: field.description.as_ref().map(|text| text.to_string()),
        arguments: field.arguments.iter().map(|a| from_input(a)).collect(),
        ty: from_type(&field.ty),
        directives: from_directives(&field.directives),
    }
}

/// Converts an `apollo_compiler::ast::DirectiveLocation` of a document.
#[verifier::external_body]
fn from_location(location: &ParsedLocation) -> DirectiveLocation {
    match location {
        ParsedLocation::Query => DirectiveLocation::Query,
        ParsedLocation::Mutation => DirectiveLocation::Mutation,
        ParsedLocation::Subscription => DirectiveLocation::Subscription,
        ParsedLocation::Field => DirectiveLocation::Field,
        ParsedLocation::FragmentDefinition => DirectiveLocation::FragmentDefinition,
        ParsedLocation::FragmentSpread => DirectiveLocation::FragmentSpread,
        ParsedLocation::InlineFragment => DirectiveLocation::InlineFragment,
        ParsedLocation::VariableDefinition => DirectiveLocation::VariableDefinition,
        ParsedLocation::Schema => DirectiveLocation::Schema,
        _ => from_type_location(location),
    }
}

/// Converts an `apollo_compiler::ast::DirectiveLocation` of a schema.
#[verifier::external_body]
fn from_type_location(location: &ParsedLocation) -> DirectiveLocation {
    match location {
        ParsedLocation::Scalar => DirectiveLocation::Scalar,
        ParsedLocation::Object => DirectiveLocation::Object,
        ParsedLocation::FieldDefinition => DirectiveLocation::FieldDefinition,
        ParsedLocation::ArgumentDefinition => DirectiveLocation::ArgumentDefinition,
        ParsedLocation::Interface => DirectiveLocation::Interface,
        ParsedLocation::Union => DirectiveLocation::Union,
        ParsedLocation::Enum => DirectiveLocation::Enum,
        ParsedLocation::EnumValue => DirectiveLocation::EnumValue,
        ParsedLocation::InputObject => DirectiveLocation::InputObject,
        _ => DirectiveLocation::InputFieldDefinition,
    }
}

/// Converts an `apollo_compiler::ast::DirectiveDefinition`.
#[verifier::external_body]
fn from_directive_definition(definition: &ParsedDirectiveDefinition) -> DirectiveDefinition {
    DirectiveDefinition {
        name: definition.name.to_string(),
        description: definition.description.as_ref().map(|text| text.to_string()),
        arguments: definition.arguments.iter().map(|a| from_input(a)).collect(),
        repeatable: definition.repeatable,
        locations: definition.locations.iter().map(|l| from_location(l)).collect(),
    }
}

/// Converts an `apollo_compiler::schema::ObjectType`.
#[verifier::external_body]
fn from_object(ty: &ParsedObject, built_in: bool) -> ObjectType {
    let mut implements_interfaces = NameSet::new();
    for interface in &ty.implements_interfaces {
        implements_interfaces.insert(interface.to_string());
    }
    let mut fields = NameMap::new();
    for (name, field) in &ty.fields {
        fields.insert(name.to_string(), from_field_definition(field));
    }
    let description = ty.description.as_ref().map(|text| text.to_string());
    let name = ty.name.to_string();
    let directives = from_components(&ty.directives);
    ObjectType { description, name, implements_interfaces, directives, fields, built_in }
}

/// Converts an `apollo_compiler::schema::InterfaceType`.
#[verifier::external_body]
fn from_interface(ty: &ParsedInterface, built_in: bool) -> InterfaceType {
    let mut implements_interfaces = NameSet::new();
    for interface in &ty.implements_interfaces {
        implements_interfaces.insert(interface.to_string());
    }
    let mut fields = NameMap::new();
    for (name, field) in &ty.fields {
        fields.insert(name.to_string(), from_field_definition(field));
    }
    let description = ty.description.as_ref().map(|text| text.to_string());
    let name = ty.name.to_string();
    let directives = from_components(&ty.directives);
    InterfaceType { description, name, implements_interfaces, directives, fields, built_in }
}

/// Converts an `apollo_compiler::schema::UnionType`.
#[verifier::external_body]
fn from_union(ty: &ParsedUnion, built_in: bool) -> UnionType {
    let mut members = NameSet::new();
    for member in &ty.members {
        members.insert(member.to_string());
    }
    let description = ty.description.as_ref().map(|text| text.to_string());
    let name = ty.name.to_string();
    let directives = from_components(&ty.directives);
    UnionType { description, name, directives, members, built_in }
}

/// Converts an `apollo_compiler::schema::EnumType`.
#[verifier::external_body]
fn from_enum(ty: &ParsedEnum, built_in: bool) -> EnumType {
    let mut values = NameMap::new();
    for (name, value) in &ty.values {
        let description = value.description.as_ref().map(|text| text.to_string());
        let directives = from_directives(&value.directives);
        let value = value.value.to_string();
        values.insert(name.to_string(), EnumValueDefinition { value, description, directives });
    }
    let description = ty.description.as_ref().map(|text| text.to_string());
    let name = ty.name.to_string();
    let directives = from_components(&ty.directives);
    EnumType { description, name, directives, values, built_in }
}

/// Converts an `apollo_compiler::schema::InputObjectType`.
#[verifier::external_body]
fn from_input_object(ty: &ParsedInputObject, built_in: bool) -> InputObjectType {
    let mut fields = NameMap::new();
    for (name, field) in &ty.fields {
        fields.insert(name.to_string(), from_input(field));
    }
    let description = ty.description.as_ref().map(|text| text.to_string());
    let name = ty.name.to_string();
    let directives = from_components(&ty.directives);
    InputObjectType { description, name, directives, fields, built_in }
}

/// Converts an `apollo_compiler::schema::ExtendedType`.
#[verifier::external_body]
fn from_extended_type(ty: &ParsedExtendedType) -> ExtendedType {
    let built_in = ty.is_built_in();
    match ty {
        ParsedExtendedType::Scalar(ty) => ExtendedType::Scalar(ScalarType {
            description: ty.description.as_ref().map(|text| text.to_string()),
            name: ty.name.to_string(),
            directives: from_components(&ty.directives),
            built_in,
        }),
        ParsedExtendedType::Object(ty) => ExtendedType::Object(from_object(ty, built_in)),
        ParsedExtendedType::Interface(ty) => ExtendedType::Interface(from_interface(ty, built_in)),
        ParsedExtendedType::Union(ty) => ExtendedType::Union(from_union(ty, built_in)),
        ParsedExtendedType::Enum(ty) => ExtendedType::Enum(from_enum(ty, built_in)),
        ParsedExtendedType::InputObject(ty) => ExtendedType::InputObject(from_input_object(ty, built_in)),
    }
}

/// Converts the roots of an `apollo_compiler::Schema`.
#[verifier::external_body]
fn from_schema_definition(schema: &ParsedSchema) -> SchemaDefinition {
    let from = &schema.schema_definition;
    SchemaDefinition {
        description: from.description.as_ref().map(|text| text.to_string()),
        directives: from_components(&from.directives),
        query: from.query.as_ref().map(|name| name.to_string()),
        mutation: from.mutation.as_ref().map(|name| name.to_string()),
        subscription: from.subscription.as_ref().map(|name| name.to_string()),
    }
}

/// What apollo-compiler defines by itself, read from a file of the given number.
pub uninterp spec fn built_in_schema(file: u64) -> SchemaView;

/// Whether none of the types of a schema is an interface.
pub open spec fn has_no_interfaces(schema: SchemaView) -> bool {
    forall|i: int| 0 <= i < schema.types.len() ==> !((#[trigger] schema.types[i]).1 is Interface)
}

/// Converts an `apollo_compiler::Schema`. Its files, of which the first one has what every schema
/// has, get the given numbers.
#[verifier::external_body]
fn from_schema(schema: &ParsedSchema, first_file: u64, second_file: u64) -> Schema {
    let mut directive_definitions = NameMap::new();
    for (name, definition) in &schema.directive_definitions {
        directive_definitions.insert(name.to_string(), from_directive_definition(definition));
    }
    let mut types = NameMap::new();
    for (name, ty) in &schema.types {
        types.insert(name.to_string(), from_extended_type(ty));
    }
    let source = |(text, id): (&str, u64)| SourceFile { id, text: text.to_owned() };
    let texts = schema.sources.values().map(|file| file.source_text());
    let sources = texts.zip([first_file, second_file]).map(source).collect();
    let schema_definition = from_schema_definition(schema);
    Schema { sources, schema_definition, directive_definitions, types }
}

/// `apollo_compiler::Schema::new`. Its definitions are read from one file, which gets the number
/// `file`, and are the same every time: the scalars, the objects and enums for introspection, and
/// directives, but no interface.
#[verifier::external_body]
pub(crate) fn new_schema(file: u64) -> (r: Schema)
    ensures
        r.deep_view() == built_in_schema(file),
        has_no_interfaces(r.deep_view()),
{
    from_schema(&ParsedSchema::new(), file, file)
}

/// The schema that apollo-compiler reads from a text, if the text is one, with the numbers of the
/// file that every schema has and of its own.
pub uninterp spec fn parsed_schema(
    source_text: Text,
    source_name: Text,
    built_in_file: u64,
    file: u64,
) -> Option<SchemaView>;

/// `apollo_compiler::Schema::parse`. What is read is a function of the arguments. What the message
/// of an error says is not claimed.
///
/// The compiler keeps positions in a text as numbers of 32 bits, which bounds the length of a text
/// of characters of up to four bytes.
#[verifier::external_body]
pub(crate) fn parse_schema(
    source_text: &str,
    source_name: &str,
    built_in_file: u64,
    file: u64,
) -> (r: Result<Schema, FederationError>)
    requires
        source_text@.len() < 0x4000_0000,
    ensures
        match r {
            Ok(schema) => parsed_schema(source_text@, source_name@, built_in_file, file) == Some(
                schema.deep_view(),
            ),
            Err(error) => parsed_schema(source_text@, source_name@, built_in_file, file) is None
                && error.kind == ErrorKind::InvalidGraphql,
        },
{
    match ParsedSchema::parse(source_text, source_name) {
        Ok(schema) => Ok(from_schema(&schema, built_in_file, file)),
        Err(e) => Err(invalid(&e.errors)),
    }
}

} // verus!
