//! What apollo-compiler reads, prints and validates, with the conversions between its types and those
//! of the library, each of which changes the type of a value and nothing else.

use crate::ast::inner_name;
use crate::ast::value_view;
use crate::ast::Argument;
use crate::ast::ArgumentView;
use crate::ast::Directive;
use crate::ast::DirectiveDefinition;
use crate::ast::DirectiveDefinitionView;
use crate::ast::DirectiveLocation;
use crate::ast::DirectiveView;
use crate::ast::EnumValueDefinition;
use crate::ast::EnumValueDefinitionView;
use crate::ast::FieldDefinition;
use crate::ast::FieldView;
use crate::ast::InputValueDefinition;
use crate::ast::InputValueView;
use crate::ast::Type;
use crate::ast::Value;
use crate::ast::ValueView;
use crate::collections::Entries;
use crate::collections::NameMap;
use crate::collections::NameSet;
use crate::error::ErrorKind;
use crate::error::FederationError;
use crate::number::float_syntax;
use crate::number::is_float_syntax;
use crate::number::is_int_syntax;
use crate::operation::arguments::pairs_view;
use crate::operation::executable::executable_view;
use crate::operation::executable::executables_view;
use crate::operation::executable::lemma_executable_set;
use crate::operation::executable::DocumentView;
use crate::operation::executable::ExecutableDocument;
use crate::operation::executable::ExecutableField;
use crate::operation::executable::ExecutableFragment;
use crate::operation::executable::ExecutableOperation;
use crate::operation::executable::ExecutableOperationView;
use crate::operation::executable::ExecutableSelection;
use crate::operation::executable::ExecutableSet;
use crate::operation::executable::ExecutableSetView;
use crate::operation::executable::ExecutableView;
use crate::operation::executable::Fragment;
use crate::operation::executable::FragmentSpread;
use crate::operation::executable::FragmentView;
use crate::operation::executable::VariableDefinition;
use crate::operation::executable::VariableView;
use crate::query_graph::SchemaRootDefinitionKind;
use crate::schema::argument_composition_strategies::int_syntax;
use crate::schema::EnumType;
use crate::schema::ExtendedType;
use crate::schema::ExtendedTypeView;
use crate::schema::InputObjectType;
use crate::schema::InterfaceType;
use crate::schema::ObjectType;
use crate::schema::Schema;
use crate::schema::SchemaDefinitionView;
use crate::schema::SchemaView;
use crate::schema::UnionType;
use crate::text::characters;
use crate::text::Text;
use apollo_compiler::ast as compiler;
use apollo_compiler::ast::Argument as ParsedArgument;
use apollo_compiler::ast::Directive as ParsedDirective;
use apollo_compiler::ast::DirectiveLocation as ParsedLocation;
use apollo_compiler::ast::FieldDefinition as ParsedFieldDefinition;
use apollo_compiler::ast::InputValueDefinition as ParsedInput;
use apollo_compiler::ast::Selection as WrittenSelection;
use apollo_compiler::ast::Type as ParsedType;
use apollo_compiler::ast::Value as ParsedValue;
use apollo_compiler::executable::ExecutableDocument as ParsedDocument;
use apollo_compiler::executable::Field as ParsedField;
use apollo_compiler::executable::InlineFragment as ParsedFragment;
use apollo_compiler::executable::Operation as ParsedOperation;
use apollo_compiler::executable::Selection as ParsedSelection;
use apollo_compiler::executable::SelectionSet as ParsedSet;
use apollo_compiler::executable;
use apollo_compiler::schema::Schema as ParsedSchema;
use apollo_compiler::validation::DiagnosticList;
use apollo_compiler::validation::Valid;
use apollo_compiler::Name;
use apollo_compiler::Node;
use vstd::prelude::*;

verus! {

// The types of apollo-compiler that values are converted from and to. Nothing is known of what is
// in them.

/// `apollo_compiler::ast::Value`, a value.
#[verifier::external_type_specification]
#[verifier::external_body]
pub struct ExValue(ParsedValue);

/// `apollo_compiler::ast::Type`, a reference to a type.
#[verifier::external_type_specification]
#[verifier::external_body]
pub struct ExType(ParsedType);

/// `apollo_compiler::ast::DirectiveList`, the directives of something.
#[verifier::external_type_specification]
#[verifier::external_body]
pub struct ExDirectiveList(compiler::DirectiveList);

/// `apollo_compiler::ast::Directive`, a directive with its arguments.
#[verifier::external_type_specification]
#[verifier::external_body]
pub struct ExDirective(ParsedDirective);

/// `apollo_compiler::Node`, a part of a document with the place that it was read from.
#[verifier::external_type_specification]
#[verifier::external_body]
#[verifier::reject_recursive_types(T)]
pub struct ExNode<T: ?Sized>(Node<T>);

/// `apollo_compiler::ast::InputValueDefinition`, an argument or a field of an input object.
#[verifier::external_type_specification]
#[verifier::external_body]
pub struct ExInputValueDefinition(ParsedInput);

/// `apollo_compiler::ast::FieldDefinition`, a field of an object or an interface.
#[verifier::external_type_specification]
#[verifier::external_body]
pub struct ExFieldDefinition(ParsedFieldDefinition);

/// `apollo_compiler::ast::DirectiveLocation`, a place where a directive may stand.
#[verifier::external_type_specification]
#[verifier::external_body]
pub struct ExDirectiveLocation(ParsedLocation);

/// `apollo_compiler::validation::Valid`, what was found valid.
#[verifier::external_type_specification]
#[verifier::external_body]
#[verifier::reject_recursive_types(T)]
pub struct ExValid<T>(Valid<T>);

/// `apollo_compiler::validation::DiagnosticList`, the errors that were found.
#[verifier::external_type_specification]
#[verifier::external_body]
pub struct ExDiagnosticList(DiagnosticList);

/// `apollo_compiler::ast::Argument`, an argument.
#[verifier::external_type_specification]
#[verifier::external_body]
pub struct ExArgument(ParsedArgument);

/// `apollo_compiler::ast::Selection`, a selection as it is written.
#[verifier::external_type_specification]
#[verifier::external_body]
pub struct ExWrittenSelection(WrittenSelection);

/// `apollo_compiler::ast::OperationType`, the kind of an operation.
#[verifier::external_type_specification]
#[verifier::external_body]
pub struct ExOperationType(compiler::OperationType);

/// `apollo_compiler::ast::Definition`, a definition of a schema.
#[verifier::external_type_specification]
#[verifier::external_body]
pub struct ExDefinition(compiler::Definition);

/// `apollo_compiler::executable::SelectionSet`, the selections of a document.
#[verifier::external_type_specification]
#[verifier::external_body]
pub struct ExSelectionSet(ParsedSet);

/// `apollo_compiler::executable::Selection`, a selection of a document.
#[verifier::external_type_specification]
#[verifier::external_body]
pub struct ExSelection(ParsedSelection);

/// `apollo_compiler::executable::Field`, a field of a document.
#[verifier::external_type_specification]
#[verifier::external_body]
pub struct ExField(ParsedField);

/// `apollo_compiler::executable::InlineFragment`, a fragment of a document.
#[verifier::external_type_specification]
#[verifier::external_body]
pub struct ExFragment(ParsedFragment);

/// `apollo_compiler::executable::Operation`, an operation of a document.
#[verifier::external_type_specification]
#[verifier::external_body]
pub struct ExOperation(ParsedOperation);

/// `apollo_compiler::ExecutableDocument`, a document with operations.
#[verifier::external_type_specification]
#[verifier::external_body]
pub struct ExDocument(ParsedDocument);

// What apollo-compiler can hold. `apollo_compiler::Name` has a length in bytes of 32 bits, and panics
// where a text is longer. `IntValue::new_parsed` and `FloatValue::new_parsed` may panic on what is no
// number.

/// Whether the characters of a name, of up to four bytes each, fit.
pub open spec fn name_fits(name: Text) -> bool {
    name.len() < 0x4000_0000
}

/// Whether the names in a value fit, and its numbers are written like numbers.
pub open spec fn value_fits(value: ValueView) -> bool
    decreases value,
{
    match value {
        ValueView::Enum(name) => name_fits(name),
        ValueView::Variable(name) => name_fits(name),
        ValueView::Int(text) => int_syntax(text),
        ValueView::Float(text) => float_syntax(text),
        ValueView::List(items) => forall|i: int|
            0 <= i < items.len() ==> value_fits(#[trigger] items[i]),
        ValueView::Object(fields) => forall|i: int|
            0 <= i < fields.len() ==> name_fits((#[trigger] fields[i]).0) && value_fits(fields[i].1),
        _ => true,
    }
}

/// Whether the names and values in directives fit.
pub open spec fn directives_fit(directives: Seq<DirectiveView>) -> bool {
    forall|i: int, k: int|
        0 <= i < directives.len() ==> name_fits(directives[i].name) && (0 <= k
            < directives[i].arguments.len() ==> name_fits(directives[i].arguments[k].name)
            && value_fits((#[trigger] directives[i].arguments[k]).value))
}

/// Whether the names and values in arguments fit.
pub open spec fn inputs_fit(inputs: Seq<InputValueView>) -> bool {
    forall|i: int| 0 <= i < inputs.len() ==> input_fits(#[trigger] inputs[i])
}

/// Whether the names and values in an argument fit.
pub open spec fn input_fits(input: InputValueView) -> bool {
    &&& name_fits(input.name)
    &&& name_fits(inner_name(input.ty))
    &&& input.default_value matches Some(value) ==> value_fits(value)
    &&& directives_fit(input.directives)
}

/// Whether the names and values in a field fit.
pub open spec fn field_fits(field: FieldView) -> bool {
    &&& name_fits(field.name)
    &&& name_fits(inner_name(field.ty))
    &&& inputs_fit(field.arguments)
    &&& directives_fit(field.directives)
}

/// Whether the names and values in fields fit.
pub open spec fn fields_fit(fields: Entries<FieldView>) -> bool {
    forall|i: int| 0 <= i < fields.len() ==> field_fits((#[trigger] fields[i]).1)
}

/// Whether names fit.
pub open spec fn names_fit(names: Seq<Text>) -> bool {
    forall|i: int| 0 <= i < names.len() ==> name_fits(#[trigger] names[i])
}

/// Whether the names and values in the values of an enum fit.
pub open spec fn values_fit(values: Entries<EnumValueDefinitionView>) -> bool {
    forall|i: int|
        0 <= i < values.len() ==> name_fits((#[trigger] values[i]).1.value) && directives_fit(
            values[i].1.directives,
        )
}

/// Whether the names and values in the fields of an input fit.
pub open spec fn input_fields_fit(fields: Entries<InputValueView>) -> bool {
    forall|i: int| 0 <= i < fields.len() ==> input_fits((#[trigger] fields[i]).1)
}

/// Whether the names and values in a type fit.
pub open spec fn type_fits(ty: ExtendedTypeView) -> bool {
    match ty {
        ExtendedTypeView::Scalar(ty) => name_fits(ty.name) && directives_fit(ty.directives),
        ExtendedTypeView::Object(ty) => name_fits(ty.name) && names_fit(ty.implements_interfaces)
            && directives_fit(ty.directives) && fields_fit(ty.fields),
        ExtendedTypeView::Interface(ty) => name_fits(ty.name) && names_fit(ty.implements_interfaces)
            && directives_fit(ty.directives) && fields_fit(ty.fields),
        ExtendedTypeView::Union(ty) => name_fits(ty.name) && names_fit(ty.members)
            && directives_fit(ty.directives),
        ExtendedTypeView::Enum(ty) => name_fits(ty.name) && directives_fit(ty.directives)
            && values_fit(ty.values),
        ExtendedTypeView::InputObject(ty) => name_fits(ty.name) && directives_fit(ty.directives)
            && input_fields_fit(ty.fields),
    }
}

/// Whether the names and values in the roots of a schema fit.
pub open spec fn roots_fit(roots: SchemaDefinitionView) -> bool {
    &&& roots.query matches Some(name) ==> name_fits(name)
    &&& roots.mutation matches Some(name) ==> name_fits(name)
    &&& roots.subscription matches Some(name) ==> name_fits(name)
    &&& directives_fit(roots.directives)
}

/// Whether the names and values in the definition of a directive fit.
pub open spec fn definition_fits(definition: DirectiveDefinitionView) -> bool {
    name_fits(definition.name) && inputs_fit(definition.arguments)
}

/// Whether the names and values in a schema fit.
pub open spec fn schema_fits(schema: SchemaView) -> bool {
    &&& roots_fit(schema.schema_definition)
    &&& forall|i: int|
        0 <= i < schema.directive_definitions.len() ==> definition_fits(
            (#[trigger] schema.directive_definitions[i]).1,
        )
    &&& forall|i: int| 0 <= i < schema.types.len() ==> type_fits((#[trigger] schema.types[i]).1)
}

/// Whether the names and values in arguments fit.
pub open spec fn arguments_fit(arguments: Seq<ArgumentView>) -> bool {
    forall|i: int|
        0 <= i < arguments.len() ==> name_fits((#[trigger] arguments[i]).name) && value_fits(
            arguments[i].value,
        )
}

/// Whether the names and values in selections fit.
pub open spec fn set_fits(set: ExecutableSetView) -> bool
    decreases set,
{
    forall|i: int| 0 <= i < set.selections.len() ==> selection_fits(#[trigger] set.selections[i])
}

/// Whether the names and values in a selection fit.
pub open spec fn selection_fits(selection: ExecutableView) -> bool
    decreases selection,
{
    match selection {
        ExecutableView::Field(field) => {
            &&& field.alias matches Some(alias) ==> name_fits(alias)
            &&& name_fits(field.name)
            &&& arguments_fit(field.arguments)
            &&& directives_fit(field.directives)
            &&& set_fits(field.selection_set)
        },
        ExecutableView::FragmentSpread(spread) => name_fits(spread.fragment_name)
            && directives_fit(spread.directives),
        ExecutableView::InlineFragment(fragment) => {
            &&& fragment.type_condition matches Some(name) ==> name_fits(name)
            &&& directives_fit(fragment.directives)
            &&& set_fits(fragment.selection_set)
        },
    }
}

/// Whether the names and values in a variable fit.
pub open spec fn variable_fits(variable: VariableView) -> bool {
    &&& name_fits(variable.name)
    &&& name_fits(inner_name(variable.ty))
    &&& variable.default_value matches Some(value) ==> value_fits(value)
    &&& directives_fit(variable.directives)
}

/// Whether the names and values in an operation fit.
pub open spec fn operation_fits(operation: ExecutableOperationView) -> bool {
    &&& operation.name matches Some(name) ==> name_fits(name)
    &&& forall|i: int|
        0 <= i < operation.variables.len() ==> variable_fits(#[trigger] operation.variables[i])
    &&& directives_fit(operation.directives)
    &&& set_fits(operation.selection_set)
}

/// Whether the names and values in a document fit.
pub open spec fn document_fits(document: DocumentView) -> bool {
    &&& forall|i: int|
        0 <= i < document.operations.len() ==> operation_fits(#[trigger] document.operations[i])
    &&& forall|i: int|
        0 <= i < document.fragments.len() ==> fragment_fits(#[trigger] document.fragments[i])
}

/// Whether the names and values in the definition of a fragment fit.
pub open spec fn fragment_fits(fragment: FragmentView) -> bool {
    &&& name_fits(fragment.name)
    &&& name_fits(fragment.selection_set.ty)
    &&& set_fits(fragment.selection_set)
}

// Schemas for apollo-compiler. Names are handed over with `Name::new_unchecked`.

/// Converts a value to `apollo_compiler::ast::Value`.
#[verifier::external_body]
fn to_value(value: &Value) -> ParsedValue
    requires
        value_fits(value.deep_view()),
{
    match value {
        Value::Null => ParsedValue::Null,
        Value::Enum(name) => ParsedValue::Enum(Name::new_unchecked(name)),
        Value::Variable(name) => ParsedValue::Variable(Name::new_unchecked(name)),
        Value::String(text) => ParsedValue::String(text.clone()),
        Value::Float(text) => ParsedValue::Float(compiler::FloatValue::new_parsed(text)),
        Value::Int(text) => ParsedValue::Int(compiler::IntValue::new_parsed(text)),
        Value::Boolean(b) => ParsedValue::Boolean(*b),
        Value::List(items) => to_list(items),
        Value::Object(fields) => to_object_value(fields),
    }
}

/// Converts the items of a list to an `apollo_compiler::ast::Value`.
#[verifier::external_body]
fn to_list(items: &Vec<Value>) -> ParsedValue
    requires
        value_fits(ValueView::List(items.deep_view())),
{
    ParsedValue::List(items.iter().map(|item| Node::new(to_value(item))).collect())
}

/// Converts the fields of an object to an `apollo_compiler::ast::Value`.
#[verifier::external_body]
fn to_object_value(fields: &Vec<(String, Value)>) -> ParsedValue
    requires
        value_fits(ValueView::Object(pairs_view(fields@))),
{
    ParsedValue::Object(
        fields
            .iter()
            .map(|(name, field)| (Name::new_unchecked(name), Node::new(to_value(field))))
            .collect(),
    )
}

/// Converts a reference to a type to `apollo_compiler::ast::Type`.
#[verifier::external_body]
fn to_type(ty: &Type) -> ParsedType
    requires
        name_fits(inner_name(ty.deep_view())),
{
    match ty {
        Type::Named(name) => ParsedType::Named(Name::new_unchecked(name)),
        Type::NonNullNamed(name) => ParsedType::NonNullNamed(Name::new_unchecked(name)),
        Type::List(inner) => ParsedType::List(Box::new(to_type(inner))),
        Type::NonNullList(inner) => ParsedType::NonNullList(Box::new(to_type(inner))),
    }
}

/// Converts directives to an `apollo_compiler::ast::DirectiveList`.
#[verifier::external_body]
fn to_directives(directives: &Vec<Directive>) -> compiler::DirectiveList
    requires
        directives_fit(directives.deep_view()),
{
    let argument = |a: &Argument| compiler::Argument {
        name: Name::new_unchecked(&a.name),
        value: Node::new(to_value(&a.value)),
    };
    let directive = |d: &Directive| ParsedDirective {
        name: Name::new_unchecked(&d.name),
        arguments: d.arguments.iter().map(|a| Node::new(argument(a))).collect(),
    };
    compiler::DirectiveList(directives.iter().map(|d| Node::new(directive(d))).collect())
}

/// Converts an argument to `apollo_compiler::ast::InputValueDefinition`.
#[verifier::external_body]
fn to_input(input: &InputValueDefinition) -> ParsedInput
    requires
        input_fits(input.deep_view()),
{
    ParsedInput {
        description: input.description.as_ref().map(|text| text.as_str().into()),
        name: Name::new_unchecked(&input.name),
        ty: Node::new(to_type(&input.ty)),
        default_value: input.default_value.as_ref().map(|value| Node::new(to_value(value))),
        directives: to_directives(&input.directives),
    }
}

/// Converts a field to `apollo_compiler::ast::FieldDefinition`.
#[verifier::external_body]
fn to_field(field: &FieldDefinition) -> ParsedFieldDefinition
    requires
        field_fits(field.deep_view()),
{
    ParsedFieldDefinition {
        description: field.description.as_ref().map(|text| text.as_str().into()),
        name: Name::new_unchecked(&field.name),
        arguments: field.arguments.iter().map(|a| Node::new(to_input(a))).collect(),
        ty: to_type(&field.ty),
        directives: to_directives(&field.directives),
    }
}

/// Converts a place in a document to `apollo_compiler::ast::DirectiveLocation`.
#[verifier::external_body]
fn to_location(location: &DirectiveLocation) -> ParsedLocation {
    match location {
        DirectiveLocation::Query => ParsedLocation::Query,
        DirectiveLocation::Mutation => ParsedLocation::Mutation,
        DirectiveLocation::Subscription => ParsedLocation::Subscription,
        DirectiveLocation::Field => ParsedLocation::Field,
        DirectiveLocation::FragmentDefinition => ParsedLocation::FragmentDefinition,
        DirectiveLocation::FragmentSpread => ParsedLocation::FragmentSpread,
        DirectiveLocation::InlineFragment => ParsedLocation::InlineFragment,
        DirectiveLocation::VariableDefinition => ParsedLocation::VariableDefinition,
        DirectiveLocation::Schema => ParsedLocation::Schema,
        _ => to_type_location(location),
    }
}

/// Converts a place in a schema to `apollo_compiler::ast::DirectiveLocation`.
#[verifier::external_body]
fn to_type_location(location: &DirectiveLocation) -> ParsedLocation {
    match location {
        DirectiveLocation::Scalar => ParsedLocation::Scalar,
        DirectiveLocation::Object => ParsedLocation::Object,
        DirectiveLocation::FieldDefinition => ParsedLocation::FieldDefinition,
        DirectiveLocation::ArgumentDefinition => ParsedLocation::ArgumentDefinition,
        DirectiveLocation::Interface => ParsedLocation::Interface,
        DirectiveLocation::Union => ParsedLocation::Union,
        DirectiveLocation::Enum => ParsedLocation::Enum,
        DirectiveLocation::EnumValue => ParsedLocation::EnumValue,
        DirectiveLocation::InputObject => ParsedLocation::InputObject,
        _ => ParsedLocation::InputFieldDefinition,
    }
}

/// Converts the definition of a directive to `apollo_compiler::ast::Definition`.
#[verifier::external_body]
fn to_directive_definition(definition: &DirectiveDefinition) -> compiler::Definition
    requires
        definition_fits(definition.deep_view()),
{
    compiler::DirectiveDefinition {
        description: definition.description.as_ref().map(|text| text.as_str().into()),
        name: Name::new_unchecked(&definition.name),
        arguments: definition.arguments.iter().map(|a| Node::new(to_input(a))).collect(),
        repeatable: definition.repeatable,
        locations: definition.locations.iter().map(|l| to_location(l)).collect(),
    }
    .into()
}

/// Converts an object to `apollo_compiler::ast::Definition`.
#[verifier::external_body]
fn to_object(ty: &ObjectType) -> compiler::Definition
    requires
        type_fits(ExtendedTypeView::Object(ty.deep_view())),
{
    let interfaces = &ty.implements_interfaces;
    compiler::ObjectTypeDefinition {
        description: ty.description.as_ref().map(|text| text.as_str().into()),
        name: Name::new_unchecked(&ty.name),
        implements_interfaces: (0..interfaces.len())
            .map(|i| Name::new_unchecked(interfaces.at(i)))
            .collect(),
        directives: to_directives(&ty.directives),
        fields: (0..ty.fields.len()).map(|i| Node::new(to_field(ty.fields.value_at(i)))).collect(),
    }
    .into()
}

/// Converts an interface to `apollo_compiler::ast::Definition`.
#[verifier::external_body]
fn to_interface(ty: &InterfaceType) -> compiler::Definition
    requires
        type_fits(ExtendedTypeView::Interface(ty.deep_view())),
{
    let interfaces = &ty.implements_interfaces;
    compiler::InterfaceTypeDefinition {
        description: ty.description.as_ref().map(|text| text.as_str().into()),
        name: Name::new_unchecked(&ty.name),
        implements_interfaces: (0..interfaces.len())
            .map(|i| Name::new_unchecked(interfaces.at(i)))
            .collect(),
        directives: to_directives(&ty.directives),
        fields: (0..ty.fields.len()).map(|i| Node::new(to_field(ty.fields.value_at(i)))).collect(),
    }
    .into()
}

/// Converts a union to `apollo_compiler::ast::Definition`.
#[verifier::external_body]
fn to_union(ty: &UnionType) -> compiler::Definition
    requires
        type_fits(ExtendedTypeView::Union(ty.deep_view())),
{
    compiler::UnionTypeDefinition {
        description: ty.description.as_ref().map(|text| text.as_str().into()),
        name: Name::new_unchecked(&ty.name),
        directives: to_directives(&ty.directives),
        members: (0..ty.members.len()).map(|i| Name::new_unchecked(ty.members.at(i))).collect(),
    }
    .into()
}

/// Converts an enum to `apollo_compiler::ast::Definition`.
#[verifier::external_body]
fn to_enum(ty: &EnumType) -> compiler::Definition
    requires
        type_fits(ExtendedTypeView::Enum(ty.deep_view())),
{
    let value = |i: usize| compiler::EnumValueDefinition {
        description: ty.values.value_at(i).description.as_ref().map(|text| text.as_str().into()),
        value: Name::new_unchecked(&ty.values.value_at(i).value),
        directives: to_directives(&ty.values.value_at(i).directives),
    };
    compiler::EnumTypeDefinition {
        description: ty.description.as_ref().map(|text| text.as_str().into()),
        name: Name::new_unchecked(&ty.name),
        directives: to_directives(&ty.directives),
        values: (0..ty.values.len()).map(|i| Node::new(value(i))).collect(),
    }
    .into()
}

/// Converts an input object to `apollo_compiler::ast::Definition`.
#[verifier::external_body]
fn to_input_object(ty: &InputObjectType) -> compiler::Definition
    requires
        type_fits(ExtendedTypeView::InputObject(ty.deep_view())),
{
    compiler::InputObjectTypeDefinition {
        description: ty.description.as_ref().map(|text| text.as_str().into()),
        name: Name::new_unchecked(&ty.name),
        directives: to_directives(&ty.directives),
        fields: (0..ty.fields.len()).map(|i| Node::new(to_input(ty.fields.value_at(i)))).collect(),
    }
    .into()
}

/// Converts a type to `apollo_compiler::ast::Definition`.
#[verifier::external_body]
fn to_type_definition(ty: &ExtendedType) -> compiler::Definition
    requires
        type_fits(ty.deep_view()),
{
    match ty {
        ExtendedType::Scalar(ty) => compiler::ScalarTypeDefinition {
            description: ty.description.as_ref().map(|text| text.as_str().into()),
            name: Name::new_unchecked(&ty.name),
            directives: to_directives(&ty.directives),
        }
        .into(),
        ExtendedType::Object(ty) => to_object(ty),
        ExtendedType::Interface(ty) => to_interface(ty),
        ExtendedType::Union(ty) => to_union(ty),
        ExtendedType::Enum(ty) => to_enum(ty),
        ExtendedType::InputObject(ty) => to_input_object(ty),
    }
}

/// Converts the roots of a schema to `apollo_compiler::ast::Definition`.
#[verifier::external_body]
fn to_schema_definition(schema: &Schema) -> compiler::Definition
    requires
        roots_fit(schema.deep_view().schema_definition),
{
    let from = &schema.schema_definition;
    let root = |kind: compiler::OperationType, name: &Option<String>| {
        name.as_ref().map(|name| Node::new((kind, Name::new_unchecked(name))))
    };
    let query = root(compiler::OperationType::Query, &from.query);
    let mutation = root(compiler::OperationType::Mutation, &from.mutation);
    let subscription = root(compiler::OperationType::Subscription, &from.subscription);
    compiler::SchemaDefinition {
        description: from.description.as_ref().map(|text| text.as_str().into()),
        directives: to_directives(&from.directives),
        root_operations: query.into_iter().chain(mutation).chain(subscription).collect(),
    }
    .into()
}

/// Converts a schema to definitions of apollo-compiler.
#[verifier::external_body]
fn to_definitions(schema: &Schema) -> Vec<compiler::Definition>
    requires
        schema_fits(schema.deep_view()),
{
    let directives = &schema.directive_definitions;
    let types = &schema.types;
    let first = std::iter::once(to_schema_definition(schema));
    first
        .chain((0..directives.len()).map(|i| to_directive_definition(directives.value_at(i))))
        .chain((0..types.len()).map(|i| to_type_definition(types.value_at(i))))
        .collect()
}

// Documents for apollo-compiler.

/// Converts arguments to a list of `apollo_compiler::ast::Argument`.
#[verifier::external_body]
fn to_arguments(arguments: &Vec<Argument>) -> Vec<Node<ParsedArgument>>
    requires
        arguments_fit(arguments.deep_view()),
{
    let argument = |a: &Argument| ParsedArgument {
        name: Name::new_unchecked(&a.name),
        value: Node::new(to_value(&a.value)),
    };
    arguments.iter().map(|a| Node::new(argument(a))).collect()
}

/// Converts selections to a list of `apollo_compiler::ast::Selection`.
#[verifier::external_body]
fn to_selections(set: &ExecutableSet) -> Vec<WrittenSelection>
    requires
        set_fits(set.deep_view()),
{
    set.selections.iter().map(|selection| to_selection(selection)).collect()
}

/// Converts a selection to `apollo_compiler::ast::Selection`.
#[verifier::external_body]
fn to_selection(selection: &ExecutableSelection) -> WrittenSelection
    requires
        selection_fits(selection.deep_view()),
{
    match selection {
        ExecutableSelection::Field(field) => to_written_field(field),
        ExecutableSelection::FragmentSpread(spread) => WrittenSelection::FragmentSpread(
            Node::new(
                compiler::FragmentSpread {
                    fragment_name: Name::new_unchecked(&spread.fragment_name),
                    directives: to_directives(&spread.directives),
                },
            ),
        ),
        ExecutableSelection::InlineFragment(fragment) => to_written_fragment(fragment),
    }
}

/// Converts a field to `apollo_compiler::ast::Selection`.
#[verifier::external_body]
fn to_written_field(field: &ExecutableField) -> WrittenSelection
    requires
        selection_fits(executable_view(ExecutableSelection::Field(*field))),
{
    WrittenSelection::Field(
        Node::new(
            compiler::Field {
                alias: field.alias.as_ref().map(|alias| Name::new_unchecked(alias)),
                name: Name::new_unchecked(&field.name),
                arguments: to_arguments(&field.arguments),
                directives: to_directives(&field.directives),
                selection_set: to_selections(&field.selection_set),
            },
        ),
    )
}

/// Converts a fragment to `apollo_compiler::ast::Selection`.
#[verifier::external_body]
fn to_written_fragment(fragment: &ExecutableFragment) -> WrittenSelection
    requires
        selection_fits(executable_view(ExecutableSelection::InlineFragment(*fragment))),
{
    WrittenSelection::InlineFragment(
        Node::new(
            compiler::InlineFragment {
                type_condition: fragment.type_condition.as_ref().map(|n| Name::new_unchecked(n)),
                directives: to_directives(&fragment.directives),
                selection_set: to_selections(&fragment.selection_set),
            },
        ),
    )
}

/// Converts the kind of an operation to `apollo_compiler::ast::OperationType`.
#[verifier::external_body]
fn to_operation_type(kind: SchemaRootDefinitionKind) -> compiler::OperationType {
    match kind {
        SchemaRootDefinitionKind::Query => compiler::OperationType::Query,
        SchemaRootDefinitionKind::Mutation => compiler::OperationType::Mutation,
        SchemaRootDefinitionKind::Subscription => compiler::OperationType::Subscription,
    }
}

/// Converts an operation to `apollo_compiler::ast::Definition`.
#[verifier::external_body]
fn to_operation(operation: &ExecutableOperation) -> compiler::Definition
    requires
        operation_fits(operation.deep_view()),
{
    let variable = |v: &VariableDefinition| compiler::VariableDefinition {
        name: Name::new_unchecked(&v.name),
        ty: Node::new(to_type(&v.ty)),
        default_value: v.default_value.as_ref().map(|value| Node::new(to_value(value))),
        directives: to_directives(&v.directives),
    };
    compiler::OperationDefinition {
        operation_type: to_operation_type(operation.operation_type),
        name: operation.name.as_ref().map(|name| Name::new_unchecked(name)),
        variables: operation.variables.iter().map(|v| Node::new(variable(v))).collect(),
        directives: to_directives(&operation.directives),
        selection_set: to_selections(&operation.selection_set),
    }.into()
}

/// Converts the definition of a fragment to `apollo_compiler::ast::Definition`.
#[verifier::external_body]
fn to_fragment(fragment: &Fragment) -> compiler::Definition
    requires
        fragment_fits(fragment.deep_view()),
{
    compiler::FragmentDefinition {
        name: Name::new_unchecked(&fragment.name),
        type_condition: Name::new_unchecked(&fragment.selection_set.ty),
        directives: compiler::DirectiveList::new(),
        selection_set: to_selections(&fragment.selection_set),
    }
    .into()
}

// Documents from apollo-compiler.

/// Converts an `apollo_compiler::ast::Value`.
#[verifier::external_body]
pub(crate) fn from_value(value: &ParsedValue) -> Value {
    match value {
        ParsedValue::Null => Value::Null,
        ParsedValue::Enum(name) => Value::Enum(name.to_string()),
        ParsedValue::Variable(name) => Value::Variable(name.to_string()),
        ParsedValue::String(text) => Value::String(text.clone()),
        ParsedValue::Float(number) => Value::Float(number.to_string()),
        ParsedValue::Int(number) => Value::Int(number.to_string()),
        ParsedValue::Boolean(b) => Value::Boolean(*b),
        ParsedValue::List(items) => Value::List(from_list(items)),
        ParsedValue::Object(fields) => Value::Object(
            fields.iter().map(|(name, v)| (name.to_string(), from_value(v))).collect(),
        ),
    }
}

/// Converts the items of an `apollo_compiler::ast::Value` that is a list.
#[verifier::external_body]
fn from_list(items: &Vec<Node<ParsedValue>>) -> Vec<Value> {
    items.iter().map(|item| from_value(item)).collect()
}

/// Converts an `apollo_compiler::ast::Type`.
#[verifier::external_body]
pub(crate) fn from_type(ty: &ParsedType) -> Type {
    match ty {
        ParsedType::Named(name) => Type::Named(name.to_string()),
        ParsedType::NonNullNamed(name) => Type::NonNullNamed(name.to_string()),
        ParsedType::List(inner) => Type::List(Box::new(from_type(inner))),
        ParsedType::NonNullList(inner) => Type::NonNullList(Box::new(from_type(inner))),
    }
}

/// Converts an `apollo_compiler::ast::DirectiveList`.
#[verifier::external_body]
pub(crate) fn from_directives(directives: &compiler::DirectiveList) -> Vec<Directive> {
    let argument = |a: &compiler::Argument| Argument {
        name: a.name.to_string(),
        value: from_value(&a.value),
    };
    let directive = |d: &ParsedDirective| Directive {
        name: d.name.to_string(),
        arguments: d.arguments.iter().map(|a| argument(a)).collect(),
    };
    directives.iter().map(|d| directive(d)).collect()
}

/// Converts an `apollo_compiler::executable::SelectionSet`.
#[verifier::external_body]
fn from_selections(set: &ParsedSet) -> ExecutableSet {
    ExecutableSet {
        ty: set.ty.to_string(),
        selections: set.selections.iter().map(|s| from_selection(s)).collect(),
    }
}

/// Converts an `apollo_compiler::executable::Selection`.
#[verifier::external_body]
fn from_selection(selection: &ParsedSelection) -> ExecutableSelection {
    match selection {
        ParsedSelection::Field(f) => ExecutableSelection::Field(from_field(f)),
        ParsedSelection::InlineFragment(f) => ExecutableSelection::InlineFragment(from_fragment(f)),
        ParsedSelection::FragmentSpread(s) => {
            let fragment_name = s.fragment_name.to_string();
            let directives = from_directives(&s.directives);
            ExecutableSelection::FragmentSpread(FragmentSpread { fragment_name, directives })
        },
    }
}

/// Converts an `apollo_compiler::executable::InlineFragment`.
#[verifier::external_body]
fn from_fragment(fragment: &ParsedFragment) -> ExecutableFragment {
    ExecutableFragment {
        type_condition: fragment.type_condition.as_ref().map(|name| name.to_string()),
        directives: from_directives(&fragment.directives),
        selection_set: from_selections(&fragment.selection_set),
    }
}

/// Converts an `apollo_compiler::executable::Field`.
#[verifier::external_body]
fn from_field(field: &ParsedField) -> ExecutableField {
    let argument = |a: &compiler::Argument| Argument {
        name: a.name.to_string(),
        value: from_value(&a.value),
    };
    ExecutableField {
        alias: field.alias.as_ref().map(|name| name.to_string()),
        name: field.name.to_string(),
        arguments: field.arguments.iter().map(|a| argument(a)).collect(),
        directives: from_directives(&field.directives),
        selection_set: from_selections(&field.selection_set),
    }
}

/// Converts the kind of an `apollo_compiler::executable::Operation`.
#[verifier::external_body]
fn from_operation_type(operation: &ParsedOperation) -> SchemaRootDefinitionKind {
    match operation.operation_type {
        compiler::OperationType::Query => SchemaRootDefinitionKind::Query,
        compiler::OperationType::Mutation => SchemaRootDefinitionKind::Mutation,
        compiler::OperationType::Subscription => SchemaRootDefinitionKind::Subscription,
    }
}

/// Converts an `apollo_compiler::executable::Operation`.
#[verifier::external_body]
fn from_operation(operation: &ParsedOperation) -> ExecutableOperation {
    let variable = |v: &executable::VariableDefinition| VariableDefinition {
        name: v.name.to_string(),
        ty: from_type(&v.ty),
        default_value: v.default_value.as_ref().map(|value| from_value(value)),
        directives: from_directives(&v.directives),
    };
    ExecutableOperation {
        operation_type: from_operation_type(operation),
        name: operation.name.as_ref().map(|name| name.to_string()),
        variables: operation.variables.iter().map(|v| variable(v)).collect(),
        directives: from_directives(&operation.directives),
        selection_set: from_selections(&operation.selection_set),
    }
}

/// Converts an `apollo_compiler::ExecutableDocument`.
#[verifier::external_body]
fn from_document(document: &ParsedDocument) -> ExecutableDocument {
    let fragment = |f: &executable::Fragment| Fragment {
        name: f.name.to_string(),
        selection_set: from_selections(&f.selection_set),
    };
    ExecutableDocument {
        operations: document.operations.iter().map(|o| from_operation(o)).collect(),
        fragments: document.fragments.values().map(|f| fragment(f)).collect(),
    }
}

// Printing.

/// The text that apollo-compiler prints for a value, on one line.
pub uninterp spec fn printed_value(value: ValueView) -> Text;

/// `apollo_compiler::ast::Value::serialize`, with `Serialize::no_indent`. What is printed is a
/// function of the value.
#[verifier::external_body]
fn serialize(value: &Value) -> (r: String)
    requires
        value_fits(value.deep_view()),
    ensures
        r@ == printed_value(value.deep_view()),
{
    to_value(value).serialize().no_indent().to_string()
}

/// Whether the names in a value fit, and its numbers are written like numbers.
fn is_fitting(value: &Value) -> (r: bool)
    ensures
        r == value_fits(value.deep_view()),
    decreases value,
{
    let ghost view = value_view(*value);
    match value {
        Value::Enum(name) | Value::Variable(name) => fits(name),
        Value::Int(text) => is_int_syntax(text),
        Value::Float(text) => is_float_syntax(text),
        Value::List(items) => {
            let mut i: usize = 0;
            while i < items.len()
                invariant
                    i <= items@.len(),
                    *value == Value::List(*items),
                    view == value_view(*value),
                    forall|j: int| 0 <= j < i ==> value_fits(#[trigger] view->List_0[j]),
                decreases items@.len() - i,
            {
                assert(decreases_to!(*value => value->List_0));
                assert(decreases_to!(items@ => items@[i as int]));
                assert(view->List_0[i as int] == value_view(items@[i as int]));
                if !is_fitting(&items[i]) {
                    return false;
                }
                i += 1;
            }
            true
        },
        Value::Object(fields) => {
            let mut i: usize = 0;
            while i < fields.len()
                invariant
                    i <= fields@.len(),
                    *value == Value::Object(*fields),
                    view == value_view(*value),
                    forall|j: int|
                        0 <= j < i ==> name_fits((#[trigger] view->Object_0[j]).0) && value_fits(
                            view->Object_0[j].1,
                        ),
                decreases fields@.len() - i,
            {
                assert(decreases_to!(*value => value->Object_0));
                assert(decreases_to!(fields@ => fields@[i as int]));
                assert(decreases_to!(fields@[i as int] => fields@[i as int].1));
                assert(view->Object_0[i as int] == (
                    fields@[i as int].0@,
                    value_view(fields@[i as int].1),
                ));
                if !fits(&fields[i].0) || !is_fitting(&fields[i].1) {
                    return false;
                }
                i += 1;
            }
            true
        },
        _ => true,
    }
}

fn fits(name: &str) -> (r: bool)
    ensures
        r == name_fits(name@),
{
    characters(name).len() < 0x4000_0000
}

/// The text that apollo-compiler prints for a value on one line, if the names in the value fit and its
/// numbers are written like numbers.
pub fn value_text(value: &Value) -> (r: Option<String>)
    ensures
        match r {
            Some(text) => value_fits(value.deep_view()) && text@ == printed_value(
                value.deep_view(),
            ),
            None => !value_fits(value.deep_view()),
        },
{
    if is_fitting(value) {
        Some(serialize(value))
    } else {
        None
    }
}

/// The text that apollo-compiler prints for a selection, on one line.
pub uninterp spec fn printed_selection_text(selection: ExecutableView) -> Text;

/// `apollo_compiler::ast::Selection::serialize`, with `Serialize::no_indent`. What is printed is a
/// function of the selection.
#[verifier::external_body]
fn serialize_selection(selection: &ExecutableSelection) -> (r: String)
    requires
        selection_fits(selection.deep_view()),
    ensures
        r@ == printed_selection_text(selection.deep_view()),
{
    to_selection(selection).serialize().no_indent().to_string()
}

/// The text that apollo-compiler prints for directives, on one line.
pub uninterp spec fn printed_directives_text(directives: Seq<DirectiveView>) -> Text;

/// `apollo_compiler::ast::DirectiveList::serialize`, with `Serialize::no_indent`. What is printed is
/// a function of the directives.
#[verifier::external_body]
fn serialize_directives(directives: &Vec<Directive>) -> (r: String)
    requires
        directives_fit(directives.deep_view()),
    ensures
        r@ == printed_directives_text(directives.deep_view()),
{
    to_directives(directives).serialize().no_indent().to_string()
}

/// The text that apollo-compiler prints for an operation, with its selections on lines of their own.
pub uninterp spec fn printed_operation_text(operation: ExecutableOperationView) -> Text;

/// `apollo_compiler::ast::Definition::serialize`, on the definition of an operation. What is printed
/// is a function of the operation.
#[verifier::external_body]
fn serialize_operation(operation: &ExecutableOperation) -> (r: String)
    requires
        operation_fits(operation.deep_view()),
    ensures
        r@ == printed_operation_text(operation.deep_view()),
{
    to_operation(operation).serialize().to_string()
}

fn are_fitting_arguments(arguments: &Vec<Argument>) -> (r: bool)
    ensures
        r == arguments_fit(arguments.deep_view()),
{
    let ghost all = arguments.deep_view();
    let mut i: usize = 0;
    while i < arguments.len()
        invariant
            i <= arguments@.len(),
            all == arguments.deep_view(),
            forall|j: int|
                0 <= j < i ==> name_fits((#[trigger] all[j]).name) && value_fits(all[j].value),
        decreases arguments@.len() - i,
    {
        assert(all[i as int] == arguments@[i as int].deep_view());
        if !fits(&arguments[i].name) || !is_fitting(&arguments[i].value) {
            return false;
        }
        i += 1;
    }
    true
}

fn are_fitting_directives(directives: &Vec<Directive>) -> (r: bool)
    ensures
        r == directives_fit(directives.deep_view()),
{
    let ghost all = directives.deep_view();
    let mut i: usize = 0;
    while i < directives.len()
        invariant
            i <= directives@.len(),
            all == directives.deep_view(),
            forall|j: int|
                0 <= j < i ==> name_fits((#[trigger] all[j]).name) && arguments_fit(
                    all[j].arguments,
                ),
        decreases directives@.len() - i,
    {
        let directive = &directives[i];
        assert(all[i as int] == directive.deep_view());
        if !fits(&directive.name) {
            proof {
                let first = all[i as int].arguments[0];
                assert(directives_fit(all) ==> name_fits(all[i as int].name));
            }
            return false;
        }
        if !are_fitting_arguments(&directive.arguments) {
            proof {
                let arguments = all[i as int].arguments;
                let k = choose|k: int|
                    0 <= k < arguments.len() && !(name_fits((#[trigger] arguments[k]).name)
                        && value_fits(arguments[k].value));
                assert(directives_fit(all) ==> value_fits(all[i as int].arguments[k].value));
            }
            return false;
        }
        i += 1;
    }
    true
}

fn is_fitting_set(set: &ExecutableSet) -> (r: bool)
    ensures
        r == set_fits(set.deep_view()),
    decreases set, 1int,
{
    proof {
        lemma_executable_set(*set);
    }
    let ghost all = set.deep_view();
    let mut i: usize = 0;
    while i < set.selections.len()
        invariant
            i <= set.selections@.len(),
            all == set.deep_view(),
            all.selections == executables_view(set.selections@),
            forall|j: int| 0 <= j < i ==> selection_fits(#[trigger] all.selections[j]),
        decreases set.selections@.len() - i,
    {
        assert(decreases_to!(*set => set.selections));
        assert(decreases_to!(set.selections@ => set.selections@[i as int]));
        assert(all.selections[i as int] == set.selections@[i as int].deep_view());
        if !is_fitting_selection(&set.selections[i]) {
            return false;
        }
        i += 1;
    }
    true
}

fn is_fitting_selection(selection: &ExecutableSelection) -> (r: bool)
    ensures
        r == selection_fits(selection.deep_view()),
    decreases selection, 0int,
{
    match selection {
        ExecutableSelection::Field(field) => {
            let alias_fits = match &field.alias {
                Some(alias) => fits(alias),
                None => true,
            };
            alias_fits && fits(&field.name) && are_fitting_arguments(&field.arguments)
                && are_fitting_directives(&field.directives) && is_fitting_set(&field.selection_set)
        },
        ExecutableSelection::FragmentSpread(spread) => fits(&spread.fragment_name)
            && are_fitting_directives(&spread.directives),
        ExecutableSelection::InlineFragment(fragment) => {
            let condition_fits = match &fragment.type_condition {
                Some(name) => fits(name),
                None => true,
            };
            condition_fits && are_fitting_directives(&fragment.directives) && is_fitting_set(
                &fragment.selection_set,
            )
        },
    }
}

fn is_fitting_variable(variable: &VariableDefinition) -> (r: bool)
    ensures
        r == variable_fits(variable.deep_view()),
{
    let default_fits = match &variable.default_value {
        Some(value) => is_fitting(value),
        None => true,
    };
    default_fits && fits(&variable.name) && fits(variable.ty.inner_named_type())
        && are_fitting_directives(&variable.directives)
}

fn is_fitting_operation(operation: &ExecutableOperation) -> (r: bool)
    ensures
        r == operation_fits(operation.deep_view()),
{
    let own_name_fits = match &operation.name {
        Some(name) => fits(name),
        None => true,
    };
    if !own_name_fits || !are_fitting_directives(&operation.directives) || !is_fitting_set(
        &operation.selection_set,
    ) {
        return false;
    }
    let ghost all = operation.variables.deep_view();
    let mut i: usize = 0;
    while i < operation.variables.len()
        invariant
            i <= operation.variables@.len(),
            all == operation.variables.deep_view(),
            all == operation.deep_view().variables,
            forall|j: int| 0 <= j < i ==> variable_fits(#[trigger] all[j]),
        decreases operation.variables@.len() - i,
    {
        assert(all[i as int] == operation.variables@[i as int].deep_view());
        if !is_fitting_variable(&operation.variables[i]) {
            assert(!variable_fits(operation.deep_view().variables[i as int]));
            return false;
        }
        i += 1;
    }
    true
}

fn are_fitting_names(names: &NameSet) -> (r: bool)
    ensures
        r == names_fit(names.deep_view()),
{
    let ghost all = names.deep_view();
    let mut i: usize = 0;
    while i < names.len()
        invariant
            i <= all.len(),
            all == names.deep_view(),
            forall|j: int| 0 <= j < i ==> name_fits(#[trigger] all[j]),
        decreases all.len() - i,
    {
        if !fits(names.at(i)) {
            assert(!name_fits(all[i as int]));
            return false;
        }
        i += 1;
    }
    true
}

fn is_fitting_input(input: &InputValueDefinition) -> (r: bool)
    ensures
        r == input_fits(input.deep_view()),
{
    let default_fits = match &input.default_value {
        Some(value) => is_fitting(value),
        None => true,
    };
    default_fits && fits(&input.name) && fits(input.ty.inner_named_type())
        && are_fitting_directives(&input.directives)
}

fn are_fitting_inputs(inputs: &Vec<InputValueDefinition>) -> (r: bool)
    ensures
        r == inputs_fit(inputs.deep_view()),
{
    let ghost all = inputs.deep_view();
    let mut i: usize = 0;
    while i < inputs.len()
        invariant
            i <= inputs@.len(),
            all == inputs.deep_view(),
            forall|j: int| 0 <= j < i ==> input_fits(#[trigger] all[j]),
        decreases inputs@.len() - i,
    {
        assert(all[i as int] == inputs@[i as int].deep_view());
        if !is_fitting_input(&inputs[i]) {
            return false;
        }
        i += 1;
    }
    true
}

fn are_fitting_fields(fields: &NameMap<FieldDefinition>) -> (r: bool)
    ensures
        r == fields_fit(fields.deep_view()),
{
    let ghost all = fields.deep_view();
    let mut i: usize = 0;
    while i < fields.len()
        invariant
            i <= all.len(),
            all == fields.deep_view(),
            forall|j: int| 0 <= j < i ==> field_fits((#[trigger] all[j]).1),
        decreases all.len() - i,
    {
        let field = fields.value_at(i);
        assert(all[i as int].1 == field.deep_view());
        if !fits(&field.name) || !fits(field.ty.inner_named_type()) || !are_fitting_inputs(
            &field.arguments,
        ) || !are_fitting_directives(&field.directives) {
            assert(!field_fits(all[i as int].1));
            return false;
        }
        i += 1;
    }
    true
}

fn are_fitting_values(values: &NameMap<EnumValueDefinition>) -> (r: bool)
    ensures
        r == values_fit(values.deep_view()),
{
    let ghost all = values.deep_view();
    let mut i: usize = 0;
    while i < values.len()
        invariant
            i <= all.len(),
            all == values.deep_view(),
            forall|j: int|
                0 <= j < i ==> name_fits((#[trigger] all[j]).1.value) && directives_fit(
                    all[j].1.directives,
                ),
        decreases all.len() - i,
    {
        let value = values.value_at(i);
        assert(all[i as int].1 == value.deep_view());
        if !fits(&value.value) || !are_fitting_directives(&value.directives) {
            return false;
        }
        i += 1;
    }
    true
}

fn are_fitting_input_fields(fields: &NameMap<InputValueDefinition>) -> (r: bool)
    ensures
        r == input_fields_fit(fields.deep_view()),
{
    let ghost all = fields.deep_view();
    let mut i: usize = 0;
    while i < fields.len()
        invariant
            i <= all.len(),
            all == fields.deep_view(),
            forall|j: int| 0 <= j < i ==> input_fits((#[trigger] all[j]).1),
        decreases all.len() - i,
    {
        let field = fields.value_at(i);
        assert(all[i as int].1 == field.deep_view());
        if !is_fitting_input(field) {
            return false;
        }
        i += 1;
    }
    true
}

fn is_fitting_type(ty: &ExtendedType) -> (r: bool)
    ensures
        r == type_fits(ty.deep_view()),
{
    match ty {
        ExtendedType::Scalar(ty) => fits(&ty.name) && are_fitting_directives(&ty.directives),
        ExtendedType::Object(ty) => fits(&ty.name) && are_fitting_names(&ty.implements_interfaces)
            && are_fitting_directives(&ty.directives) && are_fitting_fields(&ty.fields),
        ExtendedType::Interface(ty) => fits(&ty.name) && are_fitting_names(
            &ty.implements_interfaces,
        ) && are_fitting_directives(&ty.directives) && are_fitting_fields(&ty.fields),
        ExtendedType::Union(ty) => fits(&ty.name) && are_fitting_names(&ty.members)
            && are_fitting_directives(&ty.directives),
        ExtendedType::Enum(ty) => fits(&ty.name) && are_fitting_directives(&ty.directives)
            && are_fitting_values(&ty.values),
        ExtendedType::InputObject(ty) => fits(&ty.name) && are_fitting_directives(&ty.directives)
            && are_fitting_input_fields(&ty.fields),
    }
}

fn is_fitting_name(name: &Option<String>) -> (r: bool)
    ensures
        r == (name.deep_view() matches Some(text) ==> name_fits(text)),
{
    match name {
        Some(name) => fits(name),
        None => true,
    }
}

/// Whether the names and values in a schema fit, so that apollo-compiler can be handed it.
pub fn is_fitting_schema(schema: &Schema) -> (r: bool)
    ensures
        r == schema_fits(schema.deep_view()),
{
    let roots = &schema.schema_definition;
    if !is_fitting_name(&roots.query) || !is_fitting_name(&roots.mutation) || !is_fitting_name(
        &roots.subscription,
    ) || !are_fitting_directives(&roots.directives) {
        return false;
    }
    let ghost definitions = schema.deep_view().directive_definitions;
    let mut i: usize = 0;
    while i < schema.directive_definitions.len()
        invariant
            i <= definitions.len(),
            definitions == schema.directive_definitions.deep_view(),
            definitions == schema.deep_view().directive_definitions,
            forall|j: int| 0 <= j < i ==> definition_fits((#[trigger] definitions[j]).1),
        decreases definitions.len() - i,
    {
        let definition = schema.directive_definitions.value_at(i);
        assert(definitions[i as int].1 == definition.deep_view());
        if !fits(&definition.name) || !are_fitting_inputs(&definition.arguments) {
            assert(!definition_fits(schema.deep_view().directive_definitions[i as int].1));
            return false;
        }
        i += 1;
    }
    let ghost types = schema.deep_view().types;
    let mut k: usize = 0;
    while k < schema.types.len()
        invariant
            k <= types.len(),
            types == schema.types.deep_view(),
            types == schema.deep_view().types,
            forall|j: int| 0 <= j < k ==> type_fits((#[trigger] types[j]).1),
        decreases types.len() - k,
    {
        let ty = schema.types.value_at(k);
        assert(types[k as int].1 == ty.deep_view());
        if !is_fitting_type(ty) {
            assert(!type_fits(schema.deep_view().types[k as int].1));
            return false;
        }
        k += 1;
    }
    true
}

/// The text that apollo-compiler prints for a selection on one line, if what is in it fits.
pub fn selection_text(selection: &ExecutableSelection) -> (r: Option<String>)
    ensures
        r.deep_view() == (if selection_fits(selection.deep_view()) {
            Some(printed_selection_text(selection.deep_view()))
        } else {
            None
        }),
{
    if is_fitting_selection(selection) {
        Some(serialize_selection(selection))
    } else {
        None
    }
}

/// The text that apollo-compiler prints for directives on one line, if what is in them fits.
pub fn directives_text(directives: &Vec<Directive>) -> (r: Option<String>)
    ensures
        r.deep_view() == (if directives_fit(directives.deep_view()) {
            Some(printed_directives_text(directives.deep_view()))
        } else {
            None
        }),
{
    if are_fitting_directives(directives) {
        Some(serialize_directives(directives))
    } else {
        None
    }
}

/// The text that apollo-compiler prints for an operation, if what is in it fits.
pub fn operation_text(operation: &ExecutableOperation) -> (r: Option<String>)
    ensures
        r.deep_view() == (if operation_fits(operation.deep_view()) {
            Some(printed_operation_text(operation.deep_view()))
        } else {
            None
        }),
{
    if is_fitting_operation(operation) {
        Some(serialize_operation(operation))
    } else {
        None
    }
}

// Validating.

/// Whether apollo-compiler finds a schema valid.
pub uninterp spec fn is_valid_schema(schema: SchemaView) -> bool;

/// `apollo_compiler::Schema::validate`, on the schema that `apollo_compiler::schema::SchemaBuilder`
/// makes of the definitions of `schema`. Whether there are errors is a function of the schema. What
/// the message of an error says is not claimed.
#[verifier::external_body]
pub(crate) fn validate_schema(schema: &Schema) -> (r: Result<(), FederationError>)
    requires
        schema_fits(schema.deep_view()),
    ensures
        r is Ok == is_valid_schema(schema.deep_view()),
        r matches Err(error) ==> error.kind == ErrorKind::InvalidGraphql,
{
    let mut ast = compiler::Document::new();
    ast.definitions = to_definitions(schema);
    let builder = apollo_compiler::Schema::builder().ignore_builtin_redefinitions().add_ast(&ast);
    let valid = match builder.build() {
        Ok(built) => built.validate(),
        Err(errors) => Err(errors),
    };
    valid.map(|_| ()).map_err(|e| invalid(&e.errors))
}

/// Converts a list of errors, `apollo_compiler::validation::DiagnosticList`.
#[verifier::external_body]
pub(crate) fn invalid(errors: &DiagnosticList) -> FederationError {
    FederationError { kind: ErrorKind::InvalidGraphql, message: errors.to_string() }
}

/// Converts a schema to a valid `apollo_compiler::Schema`, without validating it again.
#[verifier::external_body]
fn to_valid_schema(schema: &Schema) -> Valid<ParsedSchema>
    requires
        schema_fits(schema.deep_view()),
        is_valid_schema(schema.deep_view()),
{
    let mut ast = compiler::Document::new();
    ast.definitions = to_definitions(schema);
    let builder = apollo_compiler::Schema::builder().ignore_builtin_redefinitions().add_ast(&ast);
    match builder.build() {
        Ok(built) => Valid::assume_valid(built),
        Err(errors) => Valid::assume_valid(errors.partial),
    }
}

/// Whether apollo-compiler finds a document for a valid schema valid.
pub uninterp spec fn is_valid_document(schema: SchemaView, document: DocumentView) -> bool;

/// `apollo_compiler::ast::Document::to_executable_validate`. Whether there are errors is a function
/// of the arguments. What the message of an error says is not claimed.
#[verifier::external_body]
fn to_executable_validate(schema: &Schema, document: &ExecutableDocument) -> (r: Result<
    (),
    FederationError,
>)
    requires
        schema_fits(schema.deep_view()),
        is_valid_schema(schema.deep_view()),
        document_fits(document.deep_view()),
    ensures
        r is Ok == is_valid_document(schema.deep_view(), document.deep_view()),
        r matches Err(error) ==> error.kind == ErrorKind::InvalidGraphql,
{
    let mut ast = compiler::Document::new();
    let operations = document.operations.iter().map(|o| to_operation(o));
    ast.definitions = operations.chain(document.fragments.iter().map(|f| to_fragment(f))).collect();
    let valid = ast.to_executable_validate(&to_valid_schema(schema));
    valid.map(|_| ()).map_err(|e| invalid(&e.errors))
}

/// Whether a schema is valid, and a document for it.
pub open spec fn are_valid(schema: SchemaView, document: DocumentView) -> bool {
    is_valid_schema(schema) && is_valid_document(schema, document)
}

/// Validates a schema and a document for it.
pub fn validate_document(schema: &Schema, document: &ExecutableDocument) -> (r: Result<
    (),
    FederationError,
>)
    requires
        schema_fits(schema.deep_view()),
        document_fits(document.deep_view()),
    ensures
        r is Ok == are_valid(schema.deep_view(), document.deep_view()),
        r matches Err(error) ==> error.kind == ErrorKind::InvalidGraphql,
{
    match validate_schema(schema) {
        Ok(_) => to_executable_validate(schema, document),
        Err(error) => Err(error),
    }
}

// Parsing.

/// The document that apollo-compiler reads from a text for a valid schema, if the text is valid.
pub uninterp spec fn parsed_document(
    schema: SchemaView,
    source_text: Text,
    source_name: Text,
) -> Option<DocumentView>;

/// `apollo_compiler::ExecutableDocument::parse_and_validate`. What is read is a function of the
/// arguments, and a valid document has an operation: a text without definitions, and one that has
/// only fragments, are errors. What the message of an error says is not claimed.
///
/// The compiler keeps positions in a text as numbers of 32 bits, which bounds the length of a text
/// of characters of up to four bytes.
#[verifier::external_body]
fn parse_document(schema: &Schema, source_text: &str, source_name: &str) -> (r: Result<
    ExecutableDocument,
    FederationError,
>)
    requires
        schema_fits(schema.deep_view()),
        is_valid_schema(schema.deep_view()),
        source_text@.len() < 0x4000_0000,
    ensures
        match r {
            Ok(document) => parsed_document(schema.deep_view(), source_text@, source_name@) == Some(
                document.deep_view(),
            ) && document.operations@.len() > 0,
            Err(error) => parsed_document(schema.deep_view(), source_text@, source_name@) is None
                && error.kind == ErrorKind::InvalidGraphql,
        },
{
    let valid = to_valid_schema(schema);
    match ParsedDocument::parse_and_validate(&valid, source_text, source_name) {
        Ok(document) => Ok(from_document(&document)),
        Err(e) => Err(invalid(&e.errors)),
    }
}

/// The document that a text is for a schema, if both are valid.
pub open spec fn read_document(
    schema: SchemaView,
    source_text: Text,
    source_name: Text,
) -> Option<DocumentView> {
    if is_valid_schema(schema) {
        parsed_document(schema, source_text, source_name)
    } else {
        None
    }
}

/// Reads a document from a text. The schema has to be valid.
pub fn parse_and_validate(schema: &Schema, source_text: &str, source_name: &str) -> (r: Result<
    ExecutableDocument,
    FederationError,
>)
    requires
        schema_fits(schema.deep_view()),
        source_text@.len() < 0x4000_0000,
    ensures
        match r {
            Ok(document) => read_document(schema.deep_view(), source_text@, source_name@) == Some(
                document.deep_view(),
            ) && document.operations@.len() > 0,
            Err(error) => read_document(schema.deep_view(), source_text@, source_name@) is None
                && error.kind == ErrorKind::InvalidGraphql,
        },
{
    match validate_schema(schema) {
        Ok(_) => parse_document(schema, source_text, source_name),
        Err(error) => Err(error),
    }
}

} // verus!
