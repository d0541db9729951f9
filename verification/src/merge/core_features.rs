//! The definitions that a supergraph schema has from the link, join and inaccessible features.

use crate::ast::type_view;
use crate::ast::Argument;
use crate::ast::ArgumentView;
use crate::ast::Directive;
use crate::ast::DirectiveDefinition;
use crate::ast::DirectiveDefinitionView;
use crate::ast::DirectiveLocation;
use crate::ast::DirectiveView;
use crate::ast::EnumValueDefinition;
use crate::ast::EnumValueDefinitionView;
use crate::ast::InputValueDefinition;
use crate::ast::InputValueView;
use crate::ast::Name;
use crate::ast::Type;
use crate::ast::TypeView;
use crate::ast::Value;
use crate::ast::ValueView;
use crate::collections::put;
use crate::collections::Entries;
use crate::collections::NameMap;
use crate::merge::EnumValue;
use crate::merge::SubgraphView;
use crate::merge::ValidFederationSubgraph;
use crate::schema::EnumType;
use crate::schema::EnumView;
use crate::schema::ExtendedType;
use crate::schema::ExtendedTypeView;
use crate::schema::InputObjectType;
use crate::schema::InputObjectView;
use crate::schema::ScalarType;
use crate::schema::ScalarView;
use crate::schema::Schema;
use crate::schema::SchemaDefinitionView;
use crate::schema::SchemaView;
use crate::text::Text;
use vstd::prelude::*;

verus! {

/// An argument with an enum value.
pub open spec fn enum_argument(name: Text, value: Text) -> ArgumentView {
    ArgumentView { name, value: ValueView::Enum(value) }
}

/// An argument with a string value.
pub open spec fn string_argument(name: Text, value: Text) -> ArgumentView {
    ArgumentView { name, value: ValueView::String(value) }
}

/// An argument with a boolean value.
pub open spec fn bool_argument(name: Text, value: bool) -> ArgumentView {
    ArgumentView { name, value: ValueView::Boolean(value) }
}

/// An input value without description and directives.
pub open spec fn plain_input(name: Text, ty: TypeView) -> InputValueView {
    InputValueView { name, description: None, ty, default_value: None, directives: Seq::empty() }
}

/// A boolean input value with a default.
pub open spec fn bool_input(name: Text, ty: TypeView, default: bool) -> InputValueView {
    InputValueView {
        name,
        description: None,
        ty,
        default_value: Some(ValueView::Boolean(default)),
        directives: Seq::empty(),
    }
}

/// A scalar without description and directives.
pub open spec fn plain_scalar(name: Text) -> ExtendedTypeView {
    ExtendedTypeView::Scalar(
        ScalarView { description: None, name, directives: Seq::empty(), built_in: false },
    )
}

pub(crate) fn new_enum_argument(name: &str, value: Name) -> (r: Argument)
    ensures
        r.deep_view() == enum_argument(name@, value@),
{
    Argument { name: name.to_owned(), value: Value::Enum(value) }
}

pub(crate) fn new_string_argument(name: &str, value: &str) -> (r: Argument)
    ensures
        r.deep_view() == string_argument(name@, value@),
{
    Argument { name: name.to_owned(), value: Value::String(value.to_owned()) }
}

pub(crate) fn new_bool_argument(name: &str, value: bool) -> (r: Argument)
    ensures
        r.deep_view() == bool_argument(name@, value),
{
    Argument { name: name.to_owned(), value: Value::Boolean(value) }
}

fn new_plain_input(name: &str, ty: Type) -> (r: InputValueDefinition)
    ensures
        r.deep_view() == plain_input(name@, ty.deep_view()),
{
    let r = InputValueDefinition {
        name: name.to_owned(),
        description: None,
        ty,
        default_value: None,
        directives: Vec::new(),
    };
    assert(r.directives.deep_view() =~= Seq::empty());
    r
}

fn new_bool_input(name: &str, ty: Type, default: bool) -> (r: InputValueDefinition)
    ensures
        r.deep_view() == bool_input(name@, ty.deep_view(), default),
{
    let r = InputValueDefinition {
        name: name.to_owned(),
        description: None,
        ty,
        default_value: Some(Value::Boolean(default)),
        directives: Vec::new(),
    };
    assert(r.directives.deep_view() =~= Seq::empty());
    r
}

fn new_plain_scalar(name: &str) -> (r: ExtendedType)
    ensures
        r.deep_view() == plain_scalar(name@),
{
    let r = ScalarType {
        description: None,
        name: name.to_owned(),
        directives: Vec::new(),
        built_in: false,
    };
    assert(r.directives.deep_view() =~= Seq::empty());
    ExtendedType::Scalar(r)
}

/// The schema with one more directive applied to its definition.
pub open spec fn with_schema_directive(schema: SchemaView, directive: DirectiveView) -> SchemaView {
    SchemaView {
        schema_definition: SchemaDefinitionView {
            directives: schema.schema_definition.directives.push(directive),
            ..schema.schema_definition
        },
        ..schema
    }
}

/// The schema with a type.
pub open spec fn with_type(schema: SchemaView, name: Text, ty: ExtendedTypeView) -> SchemaView {
    SchemaView { types: put(schema.types, name, ty), ..schema }
}

/// The schema with a directive definition under its name.
pub open spec fn with_definition(schema: SchemaView, def: DirectiveDefinitionView) -> SchemaView {
    SchemaView {
        directive_definitions: put(schema.directive_definitions, def.name, def),
        ..schema
    }
}

fn push_schema_directive(schema: &mut Schema, directive: Directive)
    ensures
        final(schema).deep_view() == with_schema_directive(
            old(schema).deep_view(),
            directive.deep_view(),
        ),
{
    schema.schema_definition.directives.push(directive);
    assert(schema.schema_definition.directives.deep_view() =~= old(
        schema,
    ).schema_definition.directives.deep_view().push(directive.deep_view()));
}

fn insert_definition(schema: &mut Schema, def: DirectiveDefinition)
    ensures
        final(schema).deep_view() == with_definition(old(schema).deep_view(), def.deep_view()),
{
    schema.directive_definitions.insert(def.name.clone(), def);
}

/// `directive @link(url: String, as: String, for: link__Purpose, import: [link__Import]) repeatable on SCHEMA`
pub open spec fn link_definition() -> DirectiveDefinitionView {
    DirectiveDefinitionView {
        name: "link"@,
        description: None,
        arguments: seq![
            plain_input("url"@, TypeView::Named("String"@)),
            plain_input("as"@, TypeView::Named("String"@)),
            plain_input("for"@, TypeView::Named("link__Purpose"@)),
            plain_input("import"@, TypeView::List(Box::new(TypeView::Named("link__Import"@)))),
        ],
        repeatable: true,
        locations: seq![
            DirectiveLocation::Schema,
        ],
    }
}

/// The definition of `@link`.
pub fn link_directive_definition() -> (r: DirectiveDefinition)
    ensures
        r.deep_view() == link_definition(),
{
    let arguments: Vec<InputValueDefinition> = vec![
        new_plain_input("url", Type::Named("String".to_owned())),
        new_plain_input("as", Type::Named("String".to_owned())),
        new_plain_input("for", Type::Named("link__Purpose".to_owned())),
        new_plain_input("import", Type::List(Box::new(Type::Named("link__Import".to_owned())))),
    ];
    let locations: Vec<DirectiveLocation> = vec![
        DirectiveLocation::Schema,
    ];
    proof {
        reveal_with_fuel(type_view, 3);
    }
    assert(arguments.deep_view() =~= link_definition().arguments);
    assert(locations@ =~= link_definition().locations);
    DirectiveDefinition {
        name: "link".to_owned(),
        description: None,
        arguments,
        repeatable: true,
        locations,
    }
}

/// `directive @join__enumValue(graph: join__Graph!) repeatable on ENUM_VALUE`
pub open spec fn join_enum_value_definition() -> DirectiveDefinitionView {
    DirectiveDefinitionView {
        name: "join__enumValue"@,
        description: None,
        arguments: seq![
            plain_input("graph"@, TypeView::NonNullNamed("join__Graph"@)),
        ],
        repeatable: true,
        locations: seq![
            DirectiveLocation::EnumValue,
        ],
    }
}

/// The definition of `@join__enumValue`.
pub fn join_enum_value_directive_definition() -> (r: DirectiveDefinition)
    ensures
        r.deep_view() == join_enum_value_definition(),
{
    let arguments: Vec<InputValueDefinition> = vec![
        new_plain_input("graph", Type::NonNullNamed("join__Graph".to_owned())),
    ];
    let locations: Vec<DirectiveLocation> = vec![
        DirectiveLocation::EnumValue,
    ];
    assert(arguments.deep_view() =~= join_enum_value_definition().arguments);
    assert(locations@ =~= join_enum_value_definition().locations);
    DirectiveDefinition {
        name: "join__enumValue".to_owned(),
        description: None,
        arguments,
        repeatable: true,
        locations,
    }
}

/// `directive @join__directive(graphs: [join__Graph!], name: String!, args: join__DirectiveArguments)
/// repeatable on SCHEMA | OBJECT | INTERFACE | FIELD_DEFINITION`
pub open spec fn join_directive_definition() -> DirectiveDefinitionView {
    DirectiveDefinitionView {
        name: "join__directive"@,
        description: None,
        arguments: seq![
            plain_input("graphs"@, TypeView::List(Box::new(TypeView::NonNullNamed("join__Graph"@)))),
            plain_input("name"@, TypeView::NonNullNamed("String"@)),
            plain_input("args"@, TypeView::Named("join__DirectiveArguments"@)),
        ],
        repeatable: true,
        locations: seq![
            DirectiveLocation::Schema,
            DirectiveLocation::Object,
            DirectiveLocation::Interface,
            DirectiveLocation::FieldDefinition,
        ],
    }
}

/// The definition of `@join__directive`.
pub fn join_directive_directive_definition() -> (r: DirectiveDefinition)
    ensures
        r.deep_view() == join_directive_definition(),
{
    let arguments: Vec<InputValueDefinition> = vec![
        new_plain_input("graphs", Type::List(Box::new(Type::NonNullNamed("join__Graph".to_owned())))),
        new_plain_input("name", Type::NonNullNamed("String".to_owned())),
        new_plain_input("args", Type::Named("join__DirectiveArguments".to_owned())),
    ];
    let locations: Vec<DirectiveLocation> = vec![
        DirectiveLocation::Schema,
        DirectiveLocation::Object,
        DirectiveLocation::Interface,
        DirectiveLocation::FieldDefinition,
    ];
    proof {
        reveal_with_fuel(type_view, 3);
    }
    assert(arguments.deep_view() =~= join_directive_definition().arguments);
    assert(locations@ =~= join_directive_definition().locations);
    DirectiveDefinition {
        name: "join__directive".to_owned(),
        description: None,
        arguments,
        repeatable: true,
        locations,
    }
}

/// `directive @join__field(graph: join__Graph, requires: join__FieldSet, provides: join__FieldSet,
/// type: String, external: Boolean, override: String, overrideLabel: String,
/// usedOverridden: Boolean, contextArguments: [join__ContextArgument!])
/// repeatable on FIELD_DEFINITION | INPUT_FIELD_DEFINITION`
pub open spec fn join_field_definition() -> DirectiveDefinitionView {
    DirectiveDefinitionView {
        name: "join__field"@,
        description: None,
        arguments: seq![
            plain_input("graph"@, TypeView::Named("join__Graph"@)),
            plain_input("requires"@, TypeView::Named("join__FieldSet"@)),
            plain_input("provides"@, TypeView::Named("join__FieldSet"@)),
            plain_input("type"@, TypeView::Named("String"@)),
            plain_input("external"@, TypeView::Named("Boolean"@)),
            plain_input("override"@, TypeView::Named("String"@)),
            plain_input("overrideLabel"@, TypeView::Named("String"@)),
            plain_input("usedOverridden"@, TypeView::Named("Boolean"@)),
            plain_input("contextArguments"@, TypeView::List(Box::new(TypeView::NonNullNamed("join__ContextArgument"@)))),
        ],
        repeatable: true,
        locations: seq![
            DirectiveLocation::FieldDefinition,
            DirectiveLocation::InputFieldDefinition,
        ],
    }
}

/// The definition of `@join__field`.
pub fn join_field_directive_definition() -> (r: DirectiveDefinition)
    ensures
        r.deep_view() == join_field_definition(),
{
    let arguments: Vec<InputValueDefinition> = vec![
        new_plain_input("graph", Type::Named("join__Graph".to_owned())),
        new_plain_input("requires", Type::Named("join__FieldSet".to_owned())),
        new_plain_input("provides", Type::Named("join__FieldSet".to_owned())),
        new_plain_input("type", Type::Named("String".to_owned())),
        new_plain_input("external", Type::Named("Boolean".to_owned())),
        new_plain_input("override", Type::Named("String".to_owned())),
        new_plain_input("overrideLabel", Type::Named("String".to_owned())),
        new_plain_input("usedOverridden", Type::Named("Boolean".to_owned())),
        new_plain_input("contextArguments", Type::List(Box::new(Type::NonNullNamed("join__ContextArgument".to_owned())))),
    ];
    let locations: Vec<DirectiveLocation> = vec![
        DirectiveLocation::FieldDefinition,
        DirectiveLocation::InputFieldDefinition,
    ];
    proof {
        reveal_with_fuel(type_view, 3);
    }
    assert(arguments.deep_view() =~= join_field_definition().arguments);
    assert(locations@ =~= join_field_definition().locations);
    DirectiveDefinition {
        name: "join__field".to_owned(),
        description: None,
        arguments,
        repeatable: true,
        locations,
    }
}

/// `directive @join__graph(name: String!, url: String!) on ENUM_VALUE`
pub open spec fn join_graph_definition() -> DirectiveDefinitionView {
    DirectiveDefinitionView {
        name: "join__graph"@,
        description: None,
        arguments: seq![
            plain_input("name"@, TypeView::NonNullNamed("String"@)),
            plain_input("url"@, TypeView::NonNullNamed("String"@)),
        ],
        repeatable: false,
        locations: seq![
            DirectiveLocation::EnumValue,
        ],
    }
}

/// The definition of `@join__graph`.
pub fn join_graph_directive_definition() -> (r: DirectiveDefinition)
    ensures
        r.deep_view() == join_graph_definition(),
{
    let arguments: Vec<InputValueDefinition> = vec![
        new_plain_input("name", Type::NonNullNamed("String".to_owned())),
        new_plain_input("url", Type::NonNullNamed("String".to_owned())),
    ];
    let locations: Vec<DirectiveLocation> = vec![
        DirectiveLocation::EnumValue,
    ];
    assert(arguments.deep_view() =~= join_graph_definition().arguments);
    assert(locations@ =~= join_graph_definition().locations);
    DirectiveDefinition {
        name: "join__graph".to_owned(),
        description: None,
        arguments,
        repeatable: false,
        locations,
    }
}

/// `directive @join__implements(graph: join__Graph!, interface: String!)
/// repeatable on INTERFACE | OBJECT`
pub open spec fn join_implements_definition() -> DirectiveDefinitionView {
    DirectiveDefinitionView {
        name: "join__implements"@,
        description: None,
        arguments: seq![
            plain_input("graph"@, TypeView::NonNullNamed("join__Graph"@)),
            plain_input("interface"@, TypeView::NonNullNamed("String"@)),
        ],
        repeatable: true,
        locations: seq![
            DirectiveLocation::Interface,
            DirectiveLocation::Object,
        ],
    }
}

/// The definition of `@join__implements`.
pub fn join_implements_directive_definition() -> (r: DirectiveDefinition)
    ensures
        r.deep_view() == join_implements_definition(),
{
    let arguments: Vec<InputValueDefinition> = vec![
        new_plain_input("graph", Type::NonNullNamed("join__Graph".to_owned())),
        new_plain_input("interface", Type::NonNullNamed("String".to_owned())),
    ];
    let locations: Vec<DirectiveLocation> = vec![
        DirectiveLocation::Interface,
        DirectiveLocation::Object,
    ];
    assert(arguments.deep_view() =~= join_implements_definition().arguments);
    assert(locations@ =~= join_implements_definition().locations);
    DirectiveDefinition {
        name: "join__implements".to_owned(),
        description: None,
        arguments,
        repeatable: true,
        locations,
    }
}

/// `directive @join__type(graph: join__Graph!, key: join__FieldSet, extension: Boolean! = false,
/// resolvable: Boolean! = true, isInterfaceObject: Boolean! = false)
/// repeatable on ENUM | INPUT_OBJECT | INTERFACE | OBJECT | SCALAR | UNION`
pub open spec fn join_type_definition() -> DirectiveDefinitionView {
    DirectiveDefinitionView {
        name: "join__type"@,
        description: None,
        arguments: seq![
            plain_input("graph"@, TypeView::NonNullNamed("join__Graph"@)),
            plain_input("key"@, TypeView::Named("join__FieldSet"@)),
            bool_input("extension"@, TypeView::NonNullNamed("Boolean"@), false),
            bool_input("resolvable"@, TypeView::NonNullNamed("Boolean"@), true),
            bool_input("isInterfaceObject"@, TypeView::NonNullNamed("Boolean"@), false),
        ],
        repeatable: true,
        locations: seq![
            DirectiveLocation::Enum,
            DirectiveLocation::InputObject,
            DirectiveLocation::Interface,
            DirectiveLocation::Object,
            DirectiveLocation::Scalar,
            DirectiveLocation::Union,
        ],
    }
}

/// The definition of `@join__type`.
pub fn join_type_directive_definition() -> (r: DirectiveDefinition)
    ensures
        r.deep_view() == join_type_definition(),
{
    let arguments: Vec<InputValueDefinition> = vec![
        new_plain_input("graph", Type::NonNullNamed("join__Graph".to_owned())),
        new_plain_input("key", Type::Named("join__FieldSet".to_owned())),
        new_bool_input("extension", Type::NonNullNamed("Boolean".to_owned()), false),
        new_bool_input("resolvable", Type::NonNullNamed("Boolean".to_owned()), true),
        new_bool_input("isInterfaceObject", Type::NonNullNamed("Boolean".to_owned()), false),
    ];
    let locations: Vec<DirectiveLocation> = vec![
        DirectiveLocation::Enum,
        DirectiveLocation::InputObject,
        DirectiveLocation::Interface,
        DirectiveLocation::Object,
        DirectiveLocation::Scalar,
        DirectiveLocation::Union,
    ];
    assert(arguments.deep_view() =~= join_type_definition().arguments);
    assert(locations@ =~= join_type_definition().locations);
    DirectiveDefinition {
        name: "join__type".to_owned(),
        description: None,
        arguments,
        repeatable: true,
        locations,
    }
}

/// `directive @join__unionMember(graph: join__Graph!, member: String!) repeatable on UNION`
pub open spec fn join_union_member_definition() -> DirectiveDefinitionView {
    DirectiveDefinitionView {
        name: "join__unionMember"@,
        description: None,
        arguments: seq![
            plain_input("graph"@, TypeView::NonNullNamed("join__Graph"@)),
            plain_input("member"@, TypeView::NonNullNamed("String"@)),
        ],
        repeatable: true,
        locations: seq![
            DirectiveLocation::Union,
        ],
    }
}

/// The definition of `@join__unionMember`.
pub fn join_union_member_directive_definition() -> (r: DirectiveDefinition)
    ensures
        r.deep_view() == join_union_member_definition(),
{
    let arguments: Vec<InputValueDefinition> = vec![
        new_plain_input("graph", Type::NonNullNamed("join__Graph".to_owned())),
        new_plain_input("member", Type::NonNullNamed("String".to_owned())),
    ];
    let locations: Vec<DirectiveLocation> = vec![
        DirectiveLocation::Union,
    ];
    assert(arguments.deep_view() =~= join_union_member_definition().arguments);
    assert(locations@ =~= join_union_member_definition().locations);
    DirectiveDefinition {
        name: "join__unionMember".to_owned(),
        description: None,
        arguments,
        repeatable: true,
        locations,
    }
}

/// `directive @inaccessible on FIELD_DEFINITION | OBJECT | INTERFACE | UNION | ARGUMENT_DEFINITION |
/// SCALAR | ENUM | ENUM_VALUE | INPUT_OBJECT | INPUT_FIELD_DEFINITION`
pub open spec fn inaccessible_definition() -> DirectiveDefinitionView {
    DirectiveDefinitionView {
        name: "inaccessible"@,
        description: None,
        arguments: Seq::empty(),
        repeatable: false,
        locations: seq![
            DirectiveLocation::FieldDefinition,
            DirectiveLocation::Object,
            DirectiveLocation::Interface,
            DirectiveLocation::Union,
            DirectiveLocation::ArgumentDefinition,
            DirectiveLocation::Scalar,
            DirectiveLocation::Enum,
            DirectiveLocation::EnumValue,
            DirectiveLocation::InputObject,
            DirectiveLocation::InputFieldDefinition,
        ],
    }
}

/// The definition of `@inaccessible`.
pub fn inaccessible_directive_definition() -> (r: DirectiveDefinition)
    ensures
        r.deep_view() == inaccessible_definition(),
{
    let arguments: Vec<InputValueDefinition> = vec![
    ];
    let locations: Vec<DirectiveLocation> = vec![
        DirectiveLocation::FieldDefinition,
        DirectiveLocation::Object,
        DirectiveLocation::Interface,
        DirectiveLocation::Union,
        DirectiveLocation::ArgumentDefinition,
        DirectiveLocation::Scalar,
        DirectiveLocation::Enum,
        DirectiveLocation::EnumValue,
        DirectiveLocation::InputObject,
        DirectiveLocation::InputFieldDefinition,
    ];
    assert(arguments.deep_view() =~= inaccessible_definition().arguments);
    assert(locations@ =~= inaccessible_definition().locations);
    DirectiveDefinition {
        name: "inaccessible".to_owned(),
        description: None,
        arguments,
        repeatable: false,
        locations,
    }
}

/// An enum value with a description.
pub open spec fn described_value(value: Text, description: Text) -> EnumValueDefinitionView {
    EnumValueDefinitionView { value, description: Some(description), directives: Seq::empty() }
}

/// `enum link__Purpose`, with the values `SECURITY` and `EXECUTION`.
pub open spec fn link_purpose_enum() -> EnumView {
    EnumView {
        description: None,
        name: "link__Purpose"@,
        directives: Seq::empty(),
        values: seq![
            (
                "SECURITY"@,
                described_value(
                    "SECURITY"@,
                    "`SECURITY` features provide metadata necessary to securely resolve fields."@,
                ),
            ),
            (
                "EXECUTION"@,
                described_value(
                    "EXECUTION"@,
                    "`EXECUTION` features provide metadata necessary for operation execution."@,
                ),
            ),
        ],
        built_in: false,
    }
}

fn new_described_value(value: &str, description: &str) -> (r: EnumValueDefinition)
    ensures
        r.deep_view() == described_value(value@, description@),
{
    let r = EnumValueDefinition {
        value: value.to_owned(),
        description: Some(description.to_owned()),
        directives: Vec::new(),
    };
    assert(r.directives.deep_view() =~= Seq::empty());
    r
}

/// The name and the definition of the enum of link purposes.
pub fn link_purpose_enum_type() -> (r: (Name, EnumType))
    ensures
        r.0@ == "link__Purpose"@,
        r.1.deep_view() == link_purpose_enum(),
{
    let mut values: NameMap<EnumValueDefinition> = NameMap::new();
    values.insert(
        "SECURITY".to_owned(),
        new_described_value(
            "SECURITY",
            "`SECURITY` features provide metadata necessary to securely resolve fields.",
        ),
    );
    values.insert(
        "EXECUTION".to_owned(),
        new_described_value(
            "EXECUTION",
            "`EXECUTION` features provide metadata necessary for operation execution.",
        ),
    );
    proof {
        reveal_strlit("SECURITY");
        reveal_strlit("EXECUTION");
        assert("SECURITY"@.len() != "EXECUTION"@.len());
        assert(values.deep_view() =~= link_purpose_enum().values);
    }
    let r = EnumType {
        description: None,
        name: "link__Purpose".to_owned(),
        directives: Vec::new(),
        values,
        built_in: false,
    };
    assert(r.directives.deep_view() =~= Seq::empty());
    ("link__Purpose".to_owned(), r)
}

/// The schema with the definitions of the link feature.
pub open spec fn with_link_feature(schema: SchemaView) -> SchemaView {
    let s1 = with_schema_directive(
        schema,
        DirectiveView {
            name: "link"@,
            arguments: seq![string_argument("url"@, "https://specs.apollo.dev/link/v1.0"@)],
        },
    );
    let s2 = with_type(s1, "link__Purpose"@, ExtendedTypeView::Enum(link_purpose_enum()));
    let s3 = with_type(s2, "link__Import"@, plain_scalar("link__Import"@));
    with_definition(s3, link_definition())
}

/// Adds the link feature: `@link(url: "https://specs.apollo.dev/link/v1.0")` on the schema, the
/// types `link__Purpose` and `link__Import`, and the definition of `@link`.
pub fn add_core_feature_link(supergraph: &mut Schema)
    ensures
        final(supergraph).deep_view() == with_link_feature(old(supergraph).deep_view()),
{
    let arguments: Vec<Argument> = vec![
        new_string_argument("url", "https://specs.apollo.dev/link/v1.0"),
    ];
    assert(arguments.deep_view() =~= seq![
        string_argument("url"@, "https://specs.apollo.dev/link/v1.0"@),
    ]);
    push_schema_directive(supergraph, Directive { name: "link".to_owned(), arguments });
    let (name, link_purpose_enum) = link_purpose_enum_type();
    supergraph.types.insert(name, ExtendedType::Enum(link_purpose_enum));
    supergraph.types.insert("link__Import".to_owned(), new_plain_scalar("link__Import"));
    insert_definition(supergraph, link_directive_definition());
}

/// The fields of the input `join__ContextArgument`.
pub open spec fn context_argument_fields() -> Entries<InputValueView> {
    seq![
        ("name"@, plain_input("name"@, TypeView::NonNullNamed("String"@))),
        ("type"@, plain_input("type"@, TypeView::NonNullNamed("String"@))),
        ("context"@, plain_input("context"@, TypeView::NonNullNamed("String"@))),
        ("selection"@, plain_input("selection"@, TypeView::NonNullNamed("join__FieldValue"@))),
    ]
}

/// `input join__ContextArgument`.
pub open spec fn context_argument_input() -> ExtendedTypeView {
    ExtendedTypeView::InputObject(
        InputObjectView {
            description: None,
            name: "join__ContextArgument"@,
            directives: Seq::empty(),
            fields: context_argument_fields(),
            built_in: false,
        },
    )
}

fn new_context_argument_input() -> (r: ExtendedType)
    ensures
        r.deep_view() == context_argument_input(),
{
    let mut fields: NameMap<InputValueDefinition> = NameMap::new();
    fields.insert(
        "name".to_owned(),
        new_plain_input("name", Type::NonNullNamed("String".to_owned())),
    );
    fields.insert(
        "type".to_owned(),
        new_plain_input("type", Type::NonNullNamed("String".to_owned())),
    );
    fields.insert(
        "context".to_owned(),
        new_plain_input("context", Type::NonNullNamed("String".to_owned())),
    );
    fields.insert(
        "selection".to_owned(),
        new_plain_input("selection", Type::NonNullNamed("join__FieldValue".to_owned())),
    );
    proof {
        reveal_strlit("name");
        reveal_strlit("type");
        reveal_strlit("context");
        reveal_strlit("selection");
        let expected = context_argument_fields();
        let none = Seq::<(Text, InputValueView)>::empty();
        assert("name"@[0] != "type"@[0]);
        assert(put(none, expected[0].0, expected[0].1) =~= expected.take(1));
        assert(put(expected.take(1), expected[1].0, expected[1].1) =~= expected.take(2));
        assert(put(expected.take(2), expected[2].0, expected[2].1) =~= expected.take(3));
        assert(expected[0].0.len() == 4 && expected[1].0.len() == 4 && expected[2].0.len() == 7);
        assert(expected[3].0.len() == 9);
        assert(put(expected.take(3), expected[3].0, expected[3].1) =~= expected);
    }
    let r = InputObjectType {
        description: None,
        name: "join__ContextArgument".to_owned(),
        directives: Vec::new(),
        fields,
        built_in: false,
    };
    assert(r.directives.deep_view() =~= Seq::empty());
    ExtendedType::InputObject(r)
}

/// The value of `join__Graph` for a subgraph.
pub open spec fn graph_value(subgraph: SubgraphView, value: Text) -> EnumValueDefinitionView {
    EnumValueDefinitionView {
        value,
        description: None,
        directives: seq![
            DirectiveView {
                name: "join__graph"@,
                arguments: seq![
                    string_argument("name"@, subgraph.name),
                    string_argument("url"@, subgraph.url),
                ],
            },
        ],
    }
}

/// The values of `join__Graph` for the first `n` subgraphs.
pub open spec fn graph_values(graphs: Seq<(SubgraphView, Text)>, n: nat) -> Entries<
    EnumValueDefinitionView,
>
    decreases n,
{
    if n == 0 {
        Seq::empty()
    } else {
        let (subgraph, value) = graphs[n - 1];
        put(graph_values(graphs, (n - 1) as nat), value, graph_value(subgraph, value))
    }
}

/// `enum join__Graph`.
pub open spec fn join_graph_enum(graphs: Seq<(SubgraphView, Text)>) -> EnumView {
    EnumView {
        description: None,
        name: "join__Graph"@,
        directives: Seq::empty(),
        values: graph_values(graphs, graphs.len()),
        built_in: false,
    }
}

/// The name and the definition of the enum of subgraphs.
pub fn join_graph_enum_type(
    subgraphs_and_enum_values: &Vec<(ValidFederationSubgraph, EnumValue)>,
) -> (r: (Name, EnumType))
    ensures
        r.0@ == "join__Graph"@,
        r.1.deep_view() == join_graph_enum(subgraphs_and_enum_values.deep_view()),
{
    let mut values: NameMap<EnumValueDefinition> = NameMap::new();
    let ghost graphs = subgraphs_and_enum_values.deep_view();
    let mut i: usize = 0;
    while i < subgraphs_and_enum_values.len()
        invariant
            i <= subgraphs_and_enum_values.len(),
            graphs == subgraphs_and_enum_values.deep_view(),
            values.deep_view() == graph_values(graphs, i as nat),
        decreases subgraphs_and_enum_values.len() - i,
    {
        let (subgraph, value) = &subgraphs_and_enum_values[i];
        assert(graphs[i as int] == (subgraph.deep_view(), value.deep_view()));
        let arguments: Vec<Argument> = vec![
            new_string_argument("name", &subgraph.name),
            new_string_argument("url", &subgraph.url),
        ];
        let ghost expected = graph_value(subgraph.deep_view(), value.deep_view());
        assert(arguments.deep_view() =~= expected.directives[0].arguments);
        let directives: Vec<Directive> = vec![
            Directive { name: "join__graph".to_owned(), arguments },
        ];
        assert(directives.deep_view() =~= expected.directives);
        let graph = EnumValueDefinition { value: value.to_name(), description: None, directives };
        values.insert(value.to_name(), graph);
        i += 1;
    }
    let r = EnumType {
        description: None,
        name: "join__Graph".to_owned(),
        directives: Vec::new(),
        values,
        built_in: false,
    };
    assert(r.directives.deep_view() =~= Seq::empty());
    ("join__Graph".to_owned(), r)
}

/// `@link(url: "https://specs.apollo.dev/join/v0.5", for: EXECUTION)`.
pub open spec fn join_link() -> DirectiveView {
    DirectiveView {
        name: "link"@,
        arguments: seq![
            string_argument("url"@, "https://specs.apollo.dev/join/v0.5"@),
            enum_argument("for"@, "EXECUTION"@),
        ],
    }
}

/// The schema with the definitions of the join feature for the given subgraphs.
pub open spec fn with_join_feature(
    schema: SchemaView,
    graphs: Seq<(SubgraphView, Text)>,
) -> SchemaView {
    let s = with_schema_directive(schema, join_link());
    let s = with_type(s, "join__FieldSet"@, plain_scalar("join__FieldSet"@));
    let s = with_type(s, "join__FieldValue"@, plain_scalar("join__FieldValue"@));
    let s = with_type(s, "join__ContextArgument"@, context_argument_input());
    let s = with_definition(s, join_graph_definition());
    let s = with_definition(s, join_type_definition());
    let s = with_definition(s, join_field_definition());
    let s = with_definition(s, join_implements_definition());
    let s = with_definition(s, join_union_member_definition());
    let s = with_definition(s, join_enum_value_definition());
    let s = with_type(s, "join__DirectiveArguments"@, plain_scalar("join__DirectiveArguments"@));
    let s = with_definition(s, join_directive_definition());
    with_type(s, "join__Graph"@, ExtendedTypeView::Enum(join_graph_enum(graphs)))
}

/// Adds the join feature: its link on the schema, its scalars and inputs, the definitions of its
/// directives, and the enum `join__Graph` with one value per subgraph.
pub fn add_core_feature_join(
    supergraph: &mut Schema,
    subgraphs_and_enum_values: &Vec<(ValidFederationSubgraph, EnumValue)>,
)
    ensures
        final(supergraph).deep_view() == with_join_feature(
            old(supergraph).deep_view(),
            subgraphs_and_enum_values.deep_view(),
        ),
{
    let arguments: Vec<Argument> = vec![
        new_string_argument("url", "https://specs.apollo.dev/join/v0.5"),
        new_enum_argument("for", "EXECUTION".to_owned()),
    ];
    assert(arguments.deep_view() =~= join_link().arguments);
    push_schema_directive(supergraph, Directive { name: "link".to_owned(), arguments });
    supergraph.types.insert("join__FieldSet".to_owned(), new_plain_scalar("join__FieldSet"));
    supergraph.types.insert("join__FieldValue".to_owned(), new_plain_scalar("join__FieldValue"));
    supergraph.types.insert("join__ContextArgument".to_owned(), new_context_argument_input());
    insert_definition(supergraph, join_graph_directive_definition());
    insert_definition(supergraph, join_type_directive_definition());
    insert_definition(supergraph, join_field_directive_definition());
    insert_definition(supergraph, join_implements_directive_definition());
    insert_definition(supergraph, join_union_member_directive_definition());
    insert_definition(supergraph, join_enum_value_directive_definition());
    supergraph.types.insert(
        "join__DirectiveArguments".to_owned(),
        new_plain_scalar("join__DirectiveArguments"),
    );
    insert_definition(supergraph, join_directive_directive_definition());
    let (name, join_graph_enum_type) = join_graph_enum_type(subgraphs_and_enum_values);
    supergraph.types.insert(name, ExtendedType::Enum(join_graph_enum_type));
}

/// `@link(url: "https://specs.apollo.dev/inaccessible/v0.2", for: SECURITY)`.
pub open spec fn inaccessible_link() -> DirectiveView {
    DirectiveView {
        name: "link"@,
        arguments: seq![
            string_argument("url"@, "https://specs.apollo.dev/inaccessible/v0.2"@),
            enum_argument("for"@, "SECURITY"@),
        ],
    }
}

/// The schema with the definitions of the inaccessible feature.
pub open spec fn with_inaccessible_feature(schema: SchemaView) -> SchemaView {
    with_definition(with_schema_directive(schema, inaccessible_link()), inaccessible_definition())
}

/// Adds the inaccessible feature: its link on the schema and the definition of `@inaccessible`.
pub fn add_core_feature_inaccessible(supergraph: &mut Schema)
    ensures
        final(supergraph).deep_view() == with_inaccessible_feature(old(supergraph).deep_view()),
{
    let arguments: Vec<Argument> = vec![
        new_string_argument("url", "https://specs.apollo.dev/inaccessible/v0.2"),
        new_enum_argument("for", "SECURITY".to_owned()),
    ];
    assert(arguments.deep_view() =~= inaccessible_link().arguments);
    push_schema_directive(supergraph, Directive { name: "link".to_owned(), arguments });
    insert_definition(supergraph, inaccessible_directive_definition());
}

} // verus!
