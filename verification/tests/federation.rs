use apollo_compiler::Name;
use apollo_compiler::Node;
use apollo_compiler::parser::FileId;
use apollo_compiler::ast;
use apollo_compiler::executable;
use apollo_compiler::schema;
use apollo_federation::ast::Argument;
use apollo_federation::ast::Directive;
use apollo_federation::ast::DirectiveDefinition;
use apollo_federation::ast::DirectiveLocation;
use apollo_federation::ast::EnumValueDefinition;
use apollo_federation::ast::FieldDefinition;
use apollo_federation::ast::InputValueDefinition;
use apollo_federation::ast::Type;
use apollo_federation::ast::Value;
use apollo_federation::collections::NameMap;
use apollo_federation::collections::NameSet;
use apollo_federation::compiler::is_fitting_schema;
use apollo_federation::compiler::value_text;
use apollo_federation::connectors::visitors::SchemaVisitor;
use apollo_federation::error::ErrorKind;
use apollo_federation::error::FederationError;
use apollo_federation::link::LinksMetadata;
use apollo_federation::merge::ValidFederationSchema;
use apollo_federation::merge::ValidFederationSubgraph;
use apollo_federation::merge::ValidFederationSubgraphs;
use apollo_federation::merge::merge_federation_subgraphs;
use apollo_federation::merge::merge_subgraphs;
use apollo_federation::merge::merger::Merger;
use apollo_federation::operation::SelectionId;
use apollo_federation::operation::SelectionIdCounter;
use apollo_federation::operation::aliases::SeenResponseName;
use apollo_federation::operation::arguments::ArgumentList;
use apollo_federation::operation::arguments::sort_arguments;
use apollo_federation::operation::arguments::sort_value;
use apollo_federation::operation::conditions::Conditions;
use apollo_federation::operation::conflicts::gen_alias_name;
use apollo_federation::operation::conflicts::types_can_be_merged;
use apollo_federation::operation::executable::ExecutableDocument;
use apollo_federation::operation::executable::ExecutableField;
use apollo_federation::operation::executable::ExecutableFragment;
use apollo_federation::operation::executable::ExecutableOperation;
use apollo_federation::operation::executable::ExecutableSelection;
use apollo_federation::operation::executable::ExecutableSet;
use apollo_federation::operation::executable::Fragment;
use apollo_federation::operation::executable::FragmentSpread;
use apollo_federation::operation::executable::VariableDefinition;
use apollo_federation::operation::mapping::SelectionMapperReturn;
use apollo_federation::operation::operations::Operation;
use apollo_federation::operation::operations::normalize_operation;
use apollo_federation::operation::rebase::runtime_types_intersect;
use apollo_federation::operation::selection::Selection;
use apollo_federation::operation::selection::SelectionSet;
use apollo_federation::operation::typenames::remove_introspection;
use apollo_federation::query_graph::OverrideCondition;
use apollo_federation::query_graph::OverrideConditions;
use apollo_federation::query_graph::QueryGraph;
use apollo_federation::query_graph::QueryGraphEdge;
use apollo_federation::query_graph::QueryGraphEdgeTransition;
use apollo_federation::query_graph::QueryGraphNode;
use apollo_federation::query_graph::QueryGraphNodeType;
use apollo_federation::query_graph::SchemaRootDefinitionKind;
use apollo_federation::query_graph::SubgraphSource;
use apollo_federation::query_graph::advance_paths::create_initial_options;
use apollo_federation::query_graph::advancer::Advancer;
use apollo_federation::query_graph::advancer::SimultaneousPathsWithLazyIndirectPaths;
use apollo_federation::query_graph::condition_resolver::ConditionResolution;
use apollo_federation::query_graph::condition_resolver::ExcludedConditions;
use apollo_federation::query_graph::condition_resolver::ExcludedDestinations;
use apollo_federation::query_graph::condition_resolver::UnsatisfiedConditionReason;
use apollo_federation::query_graph::elements::FetchDataPathElement;
use apollo_federation::query_graph::elements::OpGraphPathContext;
use apollo_federation::query_graph::elements::OpGraphPathTrigger;
use apollo_federation::query_graph::elements::OpPath;
use apollo_federation::query_graph::elements::OpPathElement;
use apollo_federation::query_graph::elements::concat_op_paths;
use apollo_federation::query_graph::elements::concat_paths_in_parents;
use apollo_federation::query_graph::graph_path::Comparison;
use apollo_federation::query_graph::graph_path::OpGraphPath;
use apollo_federation::query_graph::graph_path::SimultaneousPaths;
use apollo_federation::query_graph::options::ClosedPath;
use apollo_federation::query_graph::path_checks::OverrideIdCounter;
use apollo_federation::query_graph::steps::SingleSubgraphSteps;
use apollo_federation::query_plan::FetchNode;
use apollo_federation::query_plan::ParallelNode;
use apollo_federation::query_plan::PlanNode;
use apollo_federation::query_plan::QueryPlan;
use apollo_federation::query_plan::QueryPlanOptions;
use apollo_federation::query_plan::QueryPlannerConfig;
use apollo_federation::query_plan::SequenceNode;
use apollo_federation::query_plan::TopLevelPlanNode;
use apollo_federation::query_plan::compute::compute_root_fetch_groups;
use apollo_federation::query_plan::compute::only_root_subgraph;
use apollo_federation::query_plan::dependency_graph::FetchDependencyGraph;
use apollo_federation::query_plan::dependency_graph::OpPathTree;
use apollo_federation::query_plan::dependency_graph::OpPathTreeChild;
use apollo_federation::query_plan::dependency_graph::SubgraphOperationCompression;
use apollo_federation::query_plan::planner::QueryPlanner;
use apollo_federation::query_plan::planner::top_level_node;
use apollo_federation::query_plan::planning::check_cancellation_with;
use apollo_federation::query_plan::single_subgraph::SingleSubgraphPlanning;
use apollo_federation::schema::BUILT_IN_FILE;
use apollo_federation::schema::EnumType;
use apollo_federation::schema::ExtendedType;
use apollo_federation::schema::InputObjectType;
use apollo_federation::schema::InterfaceType;
use apollo_federation::schema::ObjectType;
use apollo_federation::schema::ScalarType;
use apollo_federation::schema::Schema;
use apollo_federation::schema::SchemaDefinition;
use apollo_federation::schema::SourceFile;
use apollo_federation::schema::UnionType;
use apollo_federation::schema::position::CompositeTypeDefinitionPosition;
use apollo_federation::schema::position::FieldDefinitionPosition;
use apollo_federation::schema::position::TypeDefinitionPosition;
use std::cell::RefCell;
use std::ops::ControlFlow;
use std::sync::Arc;

fn to_text(text: &Option<Node<str>>) -> Option<String> {
    text.as_ref().map(|text| text.to_string())
}

fn to_value(value: &ast::Value) -> Value {
    match value {
        ast::Value::Null => Value::Null,
        ast::Value::Enum(name) => Value::Enum(name.to_string()),
        ast::Value::Variable(name) => Value::Variable(name.to_string()),
        ast::Value::String(text) => Value::String(text.clone()),
        ast::Value::Float(number) => Value::Float(number.to_string()),
        ast::Value::Int(number) => Value::Int(number.to_string()),
        ast::Value::Boolean(b) => Value::Boolean(*b),
        ast::Value::List(items) => Value::List(items.iter().map(|item| to_value(item)).collect()),
        ast::Value::Object(fields) => Value::Object(
            fields
                .iter()
                .map(|(name, item)| (name.to_string(), to_value(item)))
                .collect(),
        ),
    }
}

fn to_ty(ty: &ast::Type) -> Type {
    match ty {
        ast::Type::Named(name) => Type::Named(name.to_string()),
        ast::Type::NonNullNamed(name) => Type::NonNullNamed(name.to_string()),
        ast::Type::List(inner) => Type::List(Box::new(to_ty(inner))),
        ast::Type::NonNullList(inner) => Type::NonNullList(Box::new(to_ty(inner))),
    }
}

fn to_arguments(arguments: &[Node<ast::Argument>]) -> Vec<Argument> {
    arguments
        .iter()
        .map(|argument| Argument {
            name: argument.name.to_string(),
            value: to_value(&argument.value),
        })
        .collect()
}

fn to_directive(directive: &ast::Directive) -> Directive {
    Directive {
        name: directive.name.to_string(),
        arguments: to_arguments(&directive.arguments),
    }
}

fn to_directives(directives: &ast::DirectiveList) -> Vec<Directive> {
    directives.iter().map(|d| to_directive(d)).collect()
}

fn to_component_directives(directives: &schema::DirectiveList) -> Vec<Directive> {
    directives.iter().map(|d| to_directive(d)).collect()
}

fn to_input_value(definition: &ast::InputValueDefinition) -> InputValueDefinition {
    InputValueDefinition {
        name: definition.name.to_string(),
        description: to_text(&definition.description),
        ty: to_ty(&definition.ty),
        default_value: definition.default_value.as_ref().map(|v| to_value(v)),
        directives: to_directives(&definition.directives),
    }
}

fn to_field_definition(definition: &ast::FieldDefinition) -> FieldDefinition {
    FieldDefinition {
        name: definition.name.to_string(),
        description: to_text(&definition.description),
        arguments: definition.arguments.iter().map(|a| to_input_value(a)).collect(),
        ty: to_ty(&definition.ty),
        directives: to_directives(&definition.directives),
    }
}

fn to_location(location: &ast::DirectiveLocation) -> DirectiveLocation {
    match location {
        ast::DirectiveLocation::Query => DirectiveLocation::Query,
        ast::DirectiveLocation::Mutation => DirectiveLocation::Mutation,
        ast::DirectiveLocation::Subscription => DirectiveLocation::Subscription,
        ast::DirectiveLocation::Field => DirectiveLocation::Field,
        ast::DirectiveLocation::FragmentDefinition => DirectiveLocation::FragmentDefinition,
        ast::DirectiveLocation::FragmentSpread => DirectiveLocation::FragmentSpread,
        ast::DirectiveLocation::InlineFragment => DirectiveLocation::InlineFragment,
        ast::DirectiveLocation::VariableDefinition => DirectiveLocation::VariableDefinition,
        ast::DirectiveLocation::Schema => DirectiveLocation::Schema,
        ast::DirectiveLocation::Scalar => DirectiveLocation::Scalar,
        ast::DirectiveLocation::Object => DirectiveLocation::Object,
        ast::DirectiveLocation::FieldDefinition => DirectiveLocation::FieldDefinition,
        ast::DirectiveLocation::ArgumentDefinition => DirectiveLocation::ArgumentDefinition,
        ast::DirectiveLocation::Interface => DirectiveLocation::Interface,
        ast::DirectiveLocation::Union => DirectiveLocation::Union,
        ast::DirectiveLocation::Enum => DirectiveLocation::Enum,
        ast::DirectiveLocation::EnumValue => DirectiveLocation::EnumValue,
        ast::DirectiveLocation::InputObject => DirectiveLocation::InputObject,
        ast::DirectiveLocation::InputFieldDefinition => DirectiveLocation::InputFieldDefinition,
    }
}

fn to_directive_definition(definition: &ast::DirectiveDefinition) -> DirectiveDefinition {
    DirectiveDefinition {
        name: definition.name.to_string(),
        description: to_text(&definition.description),
        arguments: definition.arguments.iter().map(|a| to_input_value(a)).collect(),
        repeatable: definition.repeatable,
        locations: definition.locations.iter().map(to_location).collect(),
    }
}

fn to_names<'a>(names: impl Iterator<Item = &'a schema::ComponentName>) -> NameSet {
    let mut set = NameSet::new();
    for name in names {
        set.insert(name.name.to_string());
    }
    set
}

fn to_fields<'a>(
    definitions: impl Iterator<Item = (&'a Name, &'a schema::Component<ast::FieldDefinition>)>,
) -> NameMap<FieldDefinition> {
    let mut map = NameMap::new();
    for (name, definition) in definitions {
        map.insert(name.to_string(), to_field_definition(definition));
    }
    map
}

fn to_extended_type(ty: &schema::ExtendedType) -> ExtendedType {
    let built_in = ty.is_built_in();
    match ty {
        schema::ExtendedType::Scalar(ty) => ExtendedType::Scalar(ScalarType {
            description: to_text(&ty.description),
            name: ty.name.to_string(),
            directives: to_component_directives(&ty.directives),
            built_in,
        }),
        schema::ExtendedType::Object(ty) => ExtendedType::Object(ObjectType {
            description: to_text(&ty.description),
            name: ty.name.to_string(),
            implements_interfaces: to_names(ty.implements_interfaces.iter()),
            directives: to_component_directives(&ty.directives),
            fields: to_fields(ty.fields.iter()),
            built_in,
        }),
        schema::ExtendedType::Interface(ty) => ExtendedType::Interface(InterfaceType {
            description: to_text(&ty.description),
            name: ty.name.to_string(),
            implements_interfaces: to_names(ty.implements_interfaces.iter()),
            directives: to_component_directives(&ty.directives),
            fields: to_fields(ty.fields.iter()),
            built_in,
        }),
        schema::ExtendedType::Union(ty) => ExtendedType::Union(UnionType {
            description: to_text(&ty.description),
            name: ty.name.to_string(),
            directives: to_component_directives(&ty.directives),
            members: to_names(ty.members.iter()),
            built_in,
        }),
        schema::ExtendedType::Enum(ty) => {
            let mut values = NameMap::new();
            for (name, value) in &ty.values {
                values.insert(
                    name.to_string(),
                    EnumValueDefinition {
                        value: value.value.to_string(),
                        description: to_text(&value.description),
                        directives: to_directives(&value.directives),
                    },
                );
            }
            ExtendedType::Enum(EnumType {
                description: to_text(&ty.description),
                name: ty.name.to_string(),
                directives: to_component_directives(&ty.directives),
                values,
                built_in,
            })
        }
        schema::ExtendedType::InputObject(ty) => {
            let mut fields = NameMap::new();
            for (name, field) in &ty.fields {
                fields.insert(name.to_string(), to_input_value(field));
            }
            ExtendedType::InputObject(InputObjectType {
                description: to_text(&ty.description),
                name: ty.name.to_string(),
                directives: to_component_directives(&ty.directives),
                fields,
                built_in,
            })
        }
    }
}

/// A schema. The files that it was read from are numbered from `first_file` on, but for the one that
/// every schema has.
fn to_schema(schema: &apollo_compiler::Schema, first_file: u64) -> Schema {
    let root = |name: &Option<schema::ComponentName>| name.as_ref().map(|n| n.name.to_string());
    let definition = &schema.schema_definition;
    let mut directive_definitions = NameMap::new();
    for (name, definition) in &schema.directive_definitions {
        directive_definitions.insert(name.to_string(), to_directive_definition(definition));
    }
    let mut types = NameMap::new();
    for (name, ty) in &schema.types {
        types.insert(name.to_string(), to_extended_type(ty));
    }
    Schema {
        sources: schema
            .sources
            .iter()
            .zip(first_file..)
            .map(|((id, file), number)| SourceFile {
                id: if *id == FileId::BUILT_IN { BUILT_IN_FILE } else { number },
                text: file.source_text().to_owned(),
            })
            .collect(),
        schema_definition: SchemaDefinition {
            description: to_text(&definition.description),
            directives: to_component_directives(&definition.directives),
            query: root(&definition.query),
            mutation: root(&definition.mutation),
            subscription: root(&definition.subscription),
        },
        directive_definitions,
        types,
    }
}

fn to_selection_set(set: &executable::SelectionSet) -> ExecutableSet {
    ExecutableSet {
        ty: set.ty.to_string(),
        selections: set.selections.iter().map(to_selection).collect(),
    }
}

fn to_selection(selection: &executable::Selection) -> ExecutableSelection {
    match selection {
        executable::Selection::Field(field) => ExecutableSelection::Field(ExecutableField {
            alias: field.alias.as_ref().map(|name| name.to_string()),
            name: field.name.to_string(),
            arguments: to_arguments(&field.arguments),
            directives: to_directives(&field.directives),
            selection_set: to_selection_set(&field.selection_set),
        }),
        executable::Selection::FragmentSpread(spread) => {
            ExecutableSelection::FragmentSpread(FragmentSpread {
                fragment_name: spread.fragment_name.to_string(),
                directives: to_directives(&spread.directives),
            })
        }
        executable::Selection::InlineFragment(fragment) => {
            ExecutableSelection::InlineFragment(ExecutableFragment {
                type_condition: fragment.type_condition.as_ref().map(|name| name.to_string()),
                directives: to_directives(&fragment.directives),
                selection_set: to_selection_set(&fragment.selection_set),
            })
        }
    }
}

fn to_operation(operation: &executable::Operation) -> ExecutableOperation {
    ExecutableOperation {
        operation_type: match operation.operation_type {
            ast::OperationType::Query => SchemaRootDefinitionKind::Query,
            ast::OperationType::Mutation => SchemaRootDefinitionKind::Mutation,
            ast::OperationType::Subscription => SchemaRootDefinitionKind::Subscription,
        },
        name: operation.name.as_ref().map(|name| name.to_string()),
        variables: operation
            .variables
            .iter()
            .map(|variable| VariableDefinition {
                name: variable.name.to_string(),
                ty: to_ty(&variable.ty),
                default_value: variable.default_value.as_ref().map(|v| to_value(v)),
                directives: to_directives(&variable.directives),
            })
            .collect(),
        directives: to_directives(&operation.directives),
        selection_set: to_selection_set(&operation.selection_set),
    }
}

/// A document with operations.
fn to_document(document: &executable::ExecutableDocument) -> ExecutableDocument {
    ExecutableDocument {
        operations: document.operations.iter().map(|o| to_operation(o)).collect(),
        fragments: document
            .fragments
            .values()
            .map(|fragment| Fragment {
                name: fragment.name.to_string(),
                selection_set: to_selection_set(&fragment.selection_set),
            })
            .collect(),
    }
}

// Helpers.

fn parse_schema(text: &str) -> Arc<Schema> {
    match apollo_compiler::Schema::parse(text, "schema.graphql") {
        Ok(schema) => Arc::new(to_schema(&schema, BUILT_IN_FILE + 1)),
        Err(error) => panic!("{error}"),
    }
}

fn parse_document(schema: &str, text: &str) -> ExecutableDocument {
    let schema = match apollo_compiler::Schema::parse_and_validate(schema, "schema.graphql") {
        Ok(schema) => schema,
        Err(error) => panic!("{error}"),
    };
    match apollo_compiler::ExecutableDocument::parse_and_validate(&schema, text, "query.graphql") {
        Ok(document) => to_document(&document),
        Err(error) => panic!("{error}"),
    }
}

fn parse_operation(schema: &str, text: &str) -> Operation {
    let parsed = parse_schema(schema);
    good(Operation::parse(&parsed, text, "query.graphql", &mut SelectionIdCounter::new()))
}

fn good<T>(r: Result<T, FederationError>) -> T {
    match r {
        Ok(value) => value,
        Err(error) => panic!("{}", error.message),
    }
}

fn bad<T>(r: Result<T, FederationError>) -> (ErrorKind, String) {
    match r {
        Ok(_) => panic!("expected an error"),
        Err(error) => (error.kind, error.message),
    }
}

fn show_value(value: &Value) -> String {
    match value {
        Value::Null => "null".to_owned(),
        Value::Enum(name) => name.clone(),
        Value::Variable(name) => format!("${name}"),
        Value::String(text) => format!("\"{text}\""),
        Value::Float(text) => text.clone(),
        Value::Int(text) => text.clone(),
        Value::Boolean(b) => b.to_string(),
        Value::List(items) => {
            let items: Vec<String> = items.iter().map(show_value).collect();
            format!("[{}]", items.join(", "))
        }
        Value::Object(fields) => {
            let fields: Vec<String> = fields
                .iter()
                .map(|(name, value)| format!("{name}: {}", show_value(value)))
                .collect();
            format!("{{{}}}", fields.join(", "))
        }
    }
}

fn show_arguments(arguments: &[Argument]) -> String {
    if arguments.is_empty() {
        return String::new();
    }
    let shown: Vec<String> = arguments
        .iter()
        .map(|argument| format!("{}: {}", argument.name, show_value(&argument.value)))
        .collect();
    format!("({})", shown.join(", "))
}

fn show_directives(directives: &[Directive]) -> String {
    directives
        .iter()
        .map(|d| format!(" @{}{}", d.name, show_arguments(&d.arguments)))
        .collect()
}

fn show_executable(set: &ExecutableSet) -> String {
    let shown: Vec<String> = set
        .selections
        .iter()
        .map(|selection| match selection {
            ExecutableSelection::Field(field) => {
                let alias = match &field.alias {
                    Some(alias) => format!("{alias}: "),
                    None => String::new(),
                };
                let below = if field.selection_set.selections.is_empty() {
                    String::new()
                } else {
                    format!(" {}", show_executable(&field.selection_set))
                };
                format!(
                    "{alias}{}{}{}{below}",
                    field.name,
                    show_arguments(&field.arguments),
                    show_directives(&field.directives)
                )
            }
            ExecutableSelection::FragmentSpread(spread) => format!(
                "...{}{}",
                spread.fragment_name,
                show_directives(&spread.directives)
            ),
            ExecutableSelection::InlineFragment(fragment) => {
                let on = match &fragment.type_condition {
                    Some(name) => format!(" on {name}"),
                    None => String::new(),
                };
                format!(
                    "...{on}{} {}",
                    show_directives(&fragment.directives),
                    show_executable(&fragment.selection_set)
                )
            }
        })
        .collect();
    format!("{{ {} }}", shown.join(" "))
}

fn show(set: &SelectionSet) -> String {
    show_executable(&good(set.to_executable()))
}

fn name_set(names: &[&str]) -> NameSet {
    let mut set = NameSet::new();
    for name in names {
        set.insert(name.to_string());
    }
    set
}

fn shown_names(names: &NameSet) -> Vec<String> {
    (0..names.len()).map(|i| names.at(i).clone()).collect()
}

fn object(name: &str) -> CompositeTypeDefinitionPosition {
    CompositeTypeDefinitionPosition::Object(name.to_owned())
}

const SCHEMA: &str = r#"
    directive @defer(label: String, if: Boolean! = true) on FRAGMENT_SPREAD | INLINE_FRAGMENT
    type Query { t: T i: I u: U arg(a: Int, b: [In]): T }
    type Mutation { m1: T m2: T }
    type Subscription { s: T }
    input In { x: Int y: Int }
    interface I { id: ID! t: T }
    type T implements I { id: ID! t: T a: Int b: String i: I }
    type S implements I { id: ID! t: T a: String }
    union U = T | S
"#;

// Operations.

#[test]
fn fragments_are_expanded_and_selections_merged() {
    let operation = parse_operation(
        SCHEMA,
        "{ t { ...F ... on T { b } a t { a } } t { t { b } } } fragment F on T { a b }",
    );
    assert_eq!(show(&operation.selection_set), "{ t { a b t { a b } } }");
    assert_eq!(operation.root_kind, SchemaRootDefinitionKind::Query);
    let executable = good(operation.to_executable());
    assert_eq!(show_executable(&executable.selection_set), "{ t { a b t { a b } } }");
}

#[test]
fn an_operation_is_parsed_from_text() {
    let schema = parse_schema(SCHEMA);
    let read = |text: &str| {
        Operation::parse(&schema, text, "query.graphql", &mut SelectionIdCounter::new())
    };
    let text = "mutation M($v: Boolean = true) { m1 { a @skip(if: $v) } m2 { ...F } } \
                fragment F on T { id } query Q { t { a } }";
    let operation = good(read(text));
    assert_eq!(operation.name, Some("M".to_owned()));
    assert_eq!(operation.root_kind, SchemaRootDefinitionKind::Mutation);
    assert_eq!(show(&operation.selection_set), "{ m1 { a @skip(if: $v) } m2 { id } }");
    let document = parse_document(SCHEMA, text);
    let same = good(Operation::from_document(&schema, &document, &mut SelectionIdCounter::new()));
    assert_eq!(show(&same.selection_set), show(&operation.selection_set));
    let arguments = good(read("{ arg(a: 1, b: [{ y: 2, x: -3 }]) { id } }"));
    assert_eq!(show(&arguments.selection_set), "{ arg(a: 1, b: [{x: -3, y: 2}]) { id } }");
    for wrong in ["", "{ t { nothing } }", "{ t ", "fragment F on T { id }", "type T { a: Int }"] {
        assert_eq!(bad(read(wrong)).0, ErrorKind::InvalidGraphql, "{wrong}");
    }
}

#[test]
fn fragments_of_other_types_stay() {
    let operation = parse_operation(SCHEMA, "{ i { id ... on T { a } ... on S { t { a } } } }");
    assert_eq!(
        show(&operation.selection_set),
        "{ i { id ... on T { a } ... on S { t { a } } } }"
    );
}

#[test]
fn a_plain_typename_is_written_first() {
    let operation = parse_operation(SCHEMA, "{ t { a __typename } }");
    assert_eq!(show(&operation.selection_set), "{ t { __typename a } }");
}

#[test]
fn a_set_without_selections_is_written_as_an_ellipsis() {
    let schema = parse_schema(SCHEMA);
    let set = SelectionSet::empty(schema, object("Query"));
    assert!(set.is_empty());
    assert_eq!(show(&set), "{ ... }");
}

#[test]
fn the_order_of_arguments_does_not_matter() {
    let operation = parse_operation(
        SCHEMA,
        "{ arg(b: [{y: 2, x: 1}], a: 1) { a } arg(a: 1, b: [{x: 1, y: 2}]) { b } }",
    );
    assert_eq!(
        show(&operation.selection_set),
        "{ arg(a: 1, b: [{x: 1, y: 2}]) { a b } }"
    );
}

#[test]
fn arguments_are_sorted_by_name() {
    let argument = |name: &str| Argument { name: name.to_owned(), value: Value::Null };
    let sorted = sort_arguments(&vec![argument("c"), argument("a"), argument("b")]);
    let names: Vec<&str> = sorted.iter().map(|a| a.name.as_str()).collect();
    assert_eq!(names, vec!["a", "b", "c"]);
    let object = Value::Object(vec![
        ("z".to_owned(), Value::Int("1".to_owned())),
        ("y".to_owned(), Value::Null),
    ]);
    assert_eq!(show_value(&sort_value(&object)), "{y: null, z: 1}");
}

#[test]
fn the_order_in_arguments_does_not_matter() {
    let number = |n: &str| Value::Int(n.to_owned());
    let field = |name: &str, value: Value| (name.to_owned(), value);
    let inner = |first: &str, second: &str| {
        Value::List(vec![Value::Object(vec![
            field(first, Value::String(first.to_owned())),
            field(second, Value::String(second.to_owned())),
        ])])
    };
    let argument = |name: &str, value: Value| Argument { name: name.to_owned(), value };
    let one = vec![
        argument("a", Value::Object(vec![field("x", inner("p", "q")), field("y", number("2"))])),
        argument("b", number("1")),
    ];
    let other = vec![
        argument("b", number("1")),
        argument("a", Value::Object(vec![field("y", number("2")), field("x", inner("q", "p"))])),
    ];
    let shown = |arguments: &Vec<Argument>| {
        let sorted = sort_arguments(arguments);
        let all = sorted.iter().map(|a| format!("{}: {}", a.name, show_value(&a.value)));
        all.collect::<Vec<String>>()
    };
    assert_eq!(shown(&one), vec!["a: {x: [{p: \"p\", q: \"q\"}], y: 2}", "b: 1"]);
    assert_eq!(shown(&one), shown(&other));
}

#[test]
fn ids_of_one_counter_differ() {
    let mut counter = SelectionIdCounter::new();
    let first = SelectionId::new(&mut counter);
    let second = SelectionId::new(&mut counter);
    assert_eq!(first, SelectionId(1));
    assert_ne!(first, second);
    let mut last = SelectionIdCounter { next: usize::MAX };
    assert_eq!(SelectionId::new(&mut last), SelectionId(usize::MAX));
    assert_eq!(SelectionId::new(&mut last), SelectionId(0));
}

#[test]
fn normalizing_takes_out_typename_at_the_top() {
    let schema = parse_schema(SCHEMA);
    let document = parse_document(SCHEMA, "query Q($v: Boolean!) { __typename t { a @skip(if: $v) } }");
    let flatten = |set: SelectionSet| Ok::<SelectionSet, FederationError>(set);
    let never = || Ok::<(), FederationError>(());
    let operation = good(normalize_operation(
        &document.operations[0],
        &document.fragments,
        &schema,
        &NameSet::new(),
        &flatten,
        &never,
        &mut SelectionIdCounter::new(),
    ));
    assert_eq!(show(&operation.selection_set), "{ t { a @skip(if: $v) } }");
    assert_eq!(operation.name, Some("Q".to_owned()));
    assert_eq!(operation.variables.len(), 1);
}

#[test]
fn a_typename_beside_a_field_comes_back() {
    let mut operation = parse_operation(SCHEMA, "{ t { a __typename b } }");
    let before = show(&operation.selection_set);
    operation.selection_set.optimize_sibling_typenames(&NameSet::new());
    assert_eq!(show(&operation.selection_set), "{ t { a b } }");
    let back = good(operation.selection_set.add_back_typename_in_attachments());
    assert_eq!(show(&back), before);
}

#[test]
fn every_typename_comes_back_at_every_depth() {
    let text = "{ t { b __typename a } i { id t { __typename b } ... on T { a __typename } } }";
    let before = parse_operation(SCHEMA, text).selection_set;
    let mut set = parse_operation(SCHEMA, text).selection_set;
    set.optimize_sibling_typenames(&NameSet::new());
    assert!(!show(&set).contains("__typename"));
    let back = good(set.add_back_typename_in_attachments());
    assert_eq!(show(&back).matches("__typename").count(), 3);
    assert!(before.same_as(&back));
    assert!(back.same_as(&before));
}

#[test]
fn the_element_that_remembers_a_typename_is_preferred() {
    let mut operation = parse_operation(SCHEMA, "{ t { a __typename b } }");
    operation.selection_set.optimize_sibling_typenames(&NameSet::new());
    let inner = match operation.selection_set.selections[0].selection_set() {
        Some(set) => set,
        None => panic!("expected selections"),
    };
    let a = inner.selections[0].element();
    let b = inner.selections[1].element();
    assert_eq!(a.preferred_over(&b), Some(true));
    assert_eq!(b.preferred_over(&a), Some(false));
    assert_eq!(a.preferred_over(&a), None);
    let mut trigger = OpGraphPathTrigger::OpPathElement(b);
    match trigger.get_field_mut() {
        Some(field) => field.sibling_typename = None,
        None => panic!("expected a field"),
    }
    match trigger.get_field_mut() {
        Some(field) => field.alias = Some("other".to_owned()),
        None => panic!("expected a field"),
    }
    match trigger.get_op_path_element() {
        Some(OpPathElement::Field(field)) => assert_eq!(field.response_name(), "other"),
        _ => panic!("expected a field"),
    }
}

#[test]
fn an_element_can_go_without_defer() {
    let operation = parse_operation(
        SCHEMA,
        "{ i { ... on T @defer { a } ... @defer { id } } }",
    );
    let inner = match operation.selection_set.selections[0].selection_set() {
        Some(set) => set,
        None => panic!("expected selections"),
    };
    let on_type = inner.selections[0].element();
    assert!(on_type.has_defer());
    match on_type.without_defer() {
        Some(element) => assert!(!element.has_defer()),
        None => panic!("expected a fragment"),
    }
    assert!(inner.selections[1].element().without_defer().is_none());
}

#[test]
fn introspection_is_removed_at_the_top() {
    let mut operation = parse_operation(SCHEMA, "{ __typename t { __typename a } }");
    remove_introspection(&mut operation.selection_set);
    assert_eq!(show(&operation.selection_set), "{ t { __typename a } }");
}

#[test]
fn typename_is_added_to_abstract_types() {
    let operation = parse_operation(SCHEMA, "{ i { id } t { a } u { ... on T { a } } }");
    let added = operation.selection_set.add_typename_field_for_abstract_types(&None);
    assert_eq!(
        show(&added),
        "{ i { __typename id } t { a } u { __typename ... on T { a } } }"
    );
}

#[test]
fn every_defer_gets_a_label() {
    let operation = parse_operation(
        SCHEMA,
        "query($v: Boolean!) { t { \
         ... @defer(label: \"qp__0\") { a } \
         ... @defer(if: $v) { b } \
         ... @defer(if: false) { id } } }",
    );
    assert!(operation.has_defer());
    let normalized = good(operation.with_normalized_defer());
    assert!(normalized.has_defers);
    assert_eq!(shown_names(&normalized.assigned_defer_labels), vec!["qp__1", "qp__2"]);
    assert_eq!(normalized.defer_conditions.len(), 1);
    assert_eq!(normalized.defer_conditions.key_at(0), "v");
    assert_eq!(shown_names(normalized.defer_conditions.value_at(0)), vec!["qp__1"]);
    let shown = show(&normalized.operation.selection_set);
    assert!(shown.contains("@defer(label: \"qp__0\")"), "{shown}");
    assert!(shown.contains("label: \"qp__1\""), "{shown}");
    assert!(!shown.contains("if: false"), "{shown}");
    let reduced = good(normalized.operation.reduce_defer(&name_set(&["qp__0", "qp__1"])));
    assert!(!reduced.has_defer());
}

#[test]
fn only_the_given_labels_are_reduced() {
    let set = parse_operation(
        SCHEMA,
        "{ t { ... @defer(label: \"x\") { a t { ... @defer(label: \"y\") { b } } } \
         ... @defer(label: \"z\") { id } } }",
    )
    .selection_set;
    let reduced = good(set.reduce_defer(&name_set(&["y", "z"])));
    assert_eq!(
        show(&reduced),
        "{ t { ... @defer(label: \"x\") { a t { ... { b } } } ... { id } } }"
    );
    assert!(reduced.has_defer());
    let unchanged = good(set.reduce_defer(&name_set(&["w"])));
    assert_eq!(show(&unchanged), show(&set));
}

#[test]
fn a_spread_has_directives_of_inline_fragments_only() {
    let schema = "directive @spread on FRAGMENT_SPREAD \
                  directive @both on FRAGMENT_SPREAD | INLINE_FRAGMENT \
                  type Query { a: Int }";
    let read = |text: &str| {
        let parsed = parse_schema(schema);
        Operation::parse(&parsed, text, "query.graphql", &mut SelectionIdCounter::new())
    };
    assert_eq!(
        bad(read("{ ...F @spread } fragment F on Query { a }")),
        (
            ErrorKind::UnsupportedSpreadDirective,
            "Directive not supported on fragment spread: @spread".to_owned()
        )
    );
    assert_eq!(
        show(&good(read("{ ...F @both } fragment F on Query { a }")).selection_set),
        "{ ... on Query @both { a } }"
    );
}

#[test]
fn nothing_is_deferred_without_defer() {
    let operation = parse_operation(SCHEMA, "{ t { a } }");
    assert!(!operation.has_defer());
    let normalized = good(operation.with_normalized_defer());
    assert!(!normalized.has_defers);
    assert!(normalized.assigned_defer_labels.is_empty());
    assert!(normalized.defer_conditions.is_empty());
}

#[test]
fn conditions_of_a_set_are_those_of_all_its_selections() {
    let operation = parse_operation(
        SCHEMA,
        "query($v: Boolean!, $w: Boolean!) { t { a @include(if: $v) b @include(if: $v) } \
         i { id @include(if: $v) t @skip(if: $w) { a } } }",
    );
    let below = |i: usize| match operation.selection_set.selections[i].selection_set() {
        Some(set) => good(set.conditions()),
        None => panic!("expected selections"),
    };
    match below(0) {
        Conditions::Variables(variables) => {
            assert_eq!(variables.key_at(0), "v");
            assert!(!*variables.value_at(0));
        }
        Conditions::Boolean(_) => panic!("expected variables"),
    }
    assert!(matches!(below(1), Conditions::Boolean(true)));
}

#[test]
fn conditions_that_contradict_are_never_met() {
    let directive = |name: &str, value: Value| Directive {
        name: name.to_owned(),
        arguments: vec![Argument { name: "if".to_owned(), value }],
    };
    let variable = || Value::Variable("v".to_owned());
    let both = vec![directive("include", variable()), directive("skip", variable())];
    assert!(matches!(
        good(Conditions::from_directives(&both)),
        Conditions::Boolean(false)
    ));
    let never = vec![directive("skip", Value::Boolean(true))];
    assert!(matches!(
        good(Conditions::from_directives(&never)),
        Conditions::Boolean(false)
    ));
    let always = vec![directive("include", Value::Boolean(true)), directive("other", Value::Null)];
    assert!(matches!(
        good(Conditions::from_directives(&always)),
        Conditions::Boolean(true)
    ));
    let wrong = vec![directive("include", Value::Null)];
    assert_eq!(
        bad(Conditions::from_directives(&wrong)),
        (ErrorKind::Internal, "expected boolean or variable `if` argument".to_owned())
    );
    let missing = vec![Directive { name: "skip".to_owned(), arguments: vec![] }];
    assert_eq!(
        bad(Conditions::from_directives(&missing)).1,
        "missing if argument on condition"
    );
    let one = good(Conditions::from_directives(&vec![directive("include", variable())]));
    let other = good(Conditions::from_directives(&vec![directive("skip", variable())]));
    assert!(!one.same_as(&other));
    assert!(one.same_as(&one.clone()));
    assert!(matches!(one.merge(other), Conditions::Boolean(false)));
}

#[test]
fn conditions_of_a_set_fail_with_an_invalid_one() {
    let mut operation = parse_operation(
        SCHEMA,
        "query($v: Boolean!, $w: Boolean!) { t @include(if: $v) { a } i @skip(if: $w) { id } \
         arg(a: 1) @skip(if: $w) { a } }",
    );
    assert!(matches!(good(operation.selection_set.conditions()), Conditions::Boolean(true)));
    if let Selection::Field(last) = &mut operation.selection_set.selections[2] {
        last.field.directives[0].arguments.clear();
    }
    assert_eq!(
        bad(operation.selection_set.conditions()).1,
        "missing if argument on condition"
    );
}

#[test]
fn all_variables_in_use_are_found() {
    let operation = parse_operation(
        SCHEMA,
        "query($a: Int, $x: Int, $v: Boolean!, $w: Boolean!) \
         { arg(a: $a, b: [{x: $x}]) @include(if: $v) { ... on T @skip(if: $w) { b } } }",
    );
    assert_eq!(
        shown_names(&operation.selection_set.used_variables()),
        vec!["a", "x", "v", "w"]
    );
}

#[test]
fn fields_at_the_top_are_split() {
    let operation = parse_operation(
        SCHEMA,
        "mutation($v: Boolean!) { m1 { a } ... @include(if: $v) { m2 { b } m1 { a } } }",
    );
    let split: Vec<String> = operation
        .selection_set
        .split_top_level_fields()
        .iter()
        .map(show)
        .collect();
    assert_eq!(
        split,
        vec![
            "{ m1 { a } }",
            "{ ... @include(if: $v) { m2 { b } } }",
            "{ ... @include(if: $v) { m1 { a } } }",
        ]
    );
}

#[test]
fn fields_that_cannot_be_merged_get_aliases() {
    let schema = parse_schema(SCHEMA);
    let set = |text: &str| parse_operation(SCHEMA, text).selection_set;
    let mut conflicting = set("{ i { ... on T { a } } }");
    let other = set("{ i { ... on S { a } } }");
    good(conflicting.add_local_selection_set(&other));
    let (aliased, renamers) = good(conflicting.add_aliases_for_non_merging_fields());
    assert_eq!(
        show(&aliased),
        "{ i { ... on T { a } ... on S { a__alias_0: a } } }"
    );
    assert_eq!(renamers.len(), 1);
    assert_eq!(renamers[0].rename_key_to, "a");
    let (same, none) = good(other.add_aliases_for_non_merging_fields());
    assert_eq!(show(&same), show(&other));
    assert!(none.is_empty());
    let whole = Type::Named("Int".to_owned());
    let string = Type::Named("String".to_owned());
    assert!(!good(types_can_be_merged(&whole, &string, &schema)));
    assert!(good(types_can_be_merged(&whole, &whole.clone(), &schema)));
}

#[test]
fn sets_are_merged_and_merging_again_changes_nothing() {
    let set = |text: &str| parse_operation(SCHEMA, text).selection_set;
    let mut merged = set("{ t { a } }");
    let more = set("{ t { b } i { id } }");
    good(merged.add_local_selection_set(&more));
    assert_eq!(show(&merged), "{ t { a b } i { id } }");
    good(merged.add_local_selection_set(&more));
    assert_eq!(show(&merged), "{ t { a b } i { id } }");
    let selections = set("{ u { ... on T { id } } }").selections;
    good(merged.add_local_selection(&selections[0]));
    assert_eq!(show(&merged), "{ t { a b } i { id } u { ... on T { id } } }");
}

#[test]
fn fragments_that_say_nothing_are_taken_apart() {
    let operation = parse_operation(
        SCHEMA,
        "{ i { id ... on T { a ... on I { t { a } } } ... on S { id } } }",
    );
    let inner = match operation.selection_set.selections[0].selection_set() {
        Some(set) => set,
        None => panic!("expected selections"),
    };
    let names = |selections: Vec<Selection>| -> Vec<String> {
        selections
            .iter()
            .map(|selection| match selection {
                Selection::Field(field) => field.field.name().to_owned(),
                Selection::InlineFragment(_) => "...".to_owned(),
            })
            .collect()
    };
    let schema = parse_schema(SCHEMA);
    assert_eq!(
        names(inner.without_unnecessary_fragments(&object("T"), &schema)),
        vec!["id", "a", "t", "..."]
    );
    assert_eq!(
        names(inner.without_unnecessary_fragments(&object("Query"), &schema)),
        vec!["id", "...", "..."]
    );
}

#[test]
fn selections_are_added_at_a_path() {
    let mut set = parse_operation(SCHEMA, "{ t { a } }").selection_set;
    let deep = parse_operation(SCHEMA, "{ t { t { b } } }").selection_set;
    let outer = deep.selections[0].element();
    let (inner, below) = match deep.selections[0].selection_set() {
        Some(sub) => (sub.selections[0].element(), sub.selections[0].selection_set().cloned()),
        None => panic!("expected selections"),
    };
    good(set.add_at_path(&vec![outer, inner], 0, &below));
    assert_eq!(show(&set), "{ t { a t { b } } }");
}

#[test]
fn selections_are_rebased_on_another_type() {
    let schema = parse_schema(SCHEMA);
    let operation = parse_operation(SCHEMA, "{ i { id t { a } } t { b } }");
    let below = match operation.selection_set.selections[0].selection_set() {
        Some(set) => set,
        None => panic!("expected selections"),
    };
    let rebased = good(below.rebase_on(&object("S"), &schema));
    assert_eq!(show(&rebased), "{ id t { a } }");
    assert!(rebased.type_position.same_as(&object("S")));
    let below = match operation.selection_set.selections[1].selection_set() {
        Some(set) => set,
        None => panic!("expected selections"),
    };
    assert_eq!(bad(below.rebase_on(&object("S"), &schema)).0, ErrorKind::Internal);
    let interface = CompositeTypeDefinitionPosition::Interface("I".to_owned());
    assert!(runtime_types_intersect(&interface, &object("T"), &schema));
    assert!(!runtime_types_intersect(&object("S"), &object("T"), &schema));
}

#[test]
fn empty_branches_are_removed() {
    let schema = parse_schema(SCHEMA);
    let operation = parse_operation(SCHEMA, "{ t { a } i { id } }");
    let mut set = operation.selection_set.clone();
    let empty = SelectionSet::empty(schema, object("T"));
    set.selections[0] = good(set.selections[0].with_updated_selection_set(Some(empty)));
    match set.without_empty_branches() {
        Some(left) => assert_eq!(show(&left), "{ i { id } }"),
        None => panic!("expected selections"),
    }
    set.selections.truncate(1);
    assert!(set.without_empty_branches().is_none());
}

#[test]
fn selections_are_mapped_one_by_one() {
    let operation = parse_operation(SCHEMA, "{ t { a } i { id } u { ... on T { a } } }");
    let set = &operation.selection_set;
    let mapped = vec![
        SelectionMapperReturn::Selection(set.selections[0].clone()),
        SelectionMapperReturn::Removed,
        SelectionMapperReturn::SelectionList(vec![set.selections[1].clone(), set.selections[2].clone()]),
    ];
    let r = good(set.lazy_map(&mapped));
    assert_eq!(show(&r), "{ t { a } i { id } u { ... on T { a } } }");
}

#[test]
fn what_is_below_a_selection_can_change() {
    let operation = parse_operation(SCHEMA, "{ t { a b } }");
    let selection = &operation.selection_set.selections[0];
    let first = |set: &SelectionSet| {
        let mut set = set.clone();
        set.selections.truncate(1);
        Ok::<Option<SelectionSet>, FederationError>(Some(set))
    };
    let mapped = good(selection.map_selection_set(first));
    let shown = SelectionSet::from_selection(object("Query"), mapped);
    assert_eq!(show(&shown), "{ t { a } }");
    let fragment = parse_operation(SCHEMA, "{ i { ... on T { a } } }");
    let inner = match fragment.selection_set.selections[0].selection_set() {
        Some(set) => set.selections[0].clone(),
        None => panic!("expected selections"),
    };
    assert_eq!(
        bad(inner.with_updated_selection_set(None)).1,
        "updating inline fragment without a sub-selection set"
    );
}

#[test]
fn selections_are_ordered() {
    let operation = parse_operation(SCHEMA, "{ t { a } i { id } __typename }");
    let selections = &operation.selection_set.selections;
    let order = |i: usize, j: usize| selections[i].compare(&selections[j], "", "");
    assert!(matches!(order(0, 1), Comparison::Greater));
    assert!(matches!(order(1, 0), Comparison::Less));
    assert!(matches!(order(1, 1), Comparison::Equal));
}

#[test]
fn an_operation_is_sent_as_a_document() {
    let operation = || parse_operation(SCHEMA, "{ t { a } }");
    let generate = |operation: Operation| {
        Ok::<ExecutableDocument, FederationError>(ExecutableDocument {
            operations: vec![],
            fragments: vec![Fragment {
                name: "F".to_owned(),
                selection_set: operation.selection_set.to_executable()?,
            }],
        })
    };
    let unchanged = |document: ExecutableDocument| document;
    let plain =
        good(SubgraphOperationCompression::Disabled.compress(operation(), &generate, &unchanged));
    assert_eq!(show_executable(&plain.operations[0].selection_set), "{ t { a } }");
    let fragments = good(
        SubgraphOperationCompression::GenerateFragments.compress(
            operation(),
            &generate,
            &unchanged,
        ),
    );
    assert_eq!(fragments.fragments.len(), 1);
    let renamed = |mut document: ExecutableDocument| {
        if let ExecutableSelection::Field(field) =
            &mut document.operations[0].selection_set.selections[0]
        {
            field.name = "unknown".to_owned();
        }
        document
    };
    let (kind, message) =
        bad(SubgraphOperationCompression::Disabled.compress(operation(), &generate, &renamed));
    assert_eq!(kind, ErrorKind::Internal);
    assert!(message.starts_with("Query planning produced an invalid subgraph operation.\n"));
    assert!(message.contains("unknown"));
    let aliased = |mut document: ExecutableDocument| {
        if let ExecutableSelection::Field(field) =
            &mut document.operations[0].selection_set.selections[0]
        {
            field.alias = Some("x".to_owned());
        }
        document
    };
    let coerced =
        good(SubgraphOperationCompression::Disabled.compress(operation(), &generate, &aliased));
    assert_eq!(show_executable(&coerced.operations[0].selection_set), "{ x: t { a } }");
}

// Elements and paths.

#[test]
fn conditionals_are_recorded_along_a_path() {
    let operation = parse_operation(
        SCHEMA,
        "query($v: Boolean!) { t @include(if: $v) { a @skip(if: false) } }",
    );
    let outer = operation.selection_set.selections[0].element();
    let inner = match operation.selection_set.selections[0].selection_set() {
        Some(set) => set.selections[0].element(),
        None => panic!("expected selections"),
    };
    let context = OpGraphPathContext::new();
    assert!(context.is_empty());
    assert_eq!(context.to_text(), "[]");
    let context = good(context.with_context_of(&outer));
    let context = good(context.with_context_of(&inner));
    assert_eq!(context.iter().len(), 2);
    assert!(!context.is_empty());
    assert!(context.to_text().contains("@include(if: $v)"));
    assert!(context.to_text().contains("@skip(if: false)"));
    let path = OpPath(vec![outer.clone()]).with_pushed(inner.clone());
    assert_eq!(path.len(), 2);
    assert!(!path.has_only_fragments());
    assert_eq!(path.conditional_directives().len(), 2);
    match path.strip_prefix(&OpPath(vec![outer])) {
        Some(rest) => assert!(rest.0[0].same_as(&inner)),
        None => panic!("expected a rest"),
    }
    assert!(path.strip_prefix(&OpPath(vec![inner])).is_none());
}

#[test]
fn an_invalid_condition_is_named() {
    let operation = parse_operation(SCHEMA, "{ t @include(if: true) { a } }");
    let mut element = operation.selection_set.selections[0].element();
    if let OpPathElement::Field(field) = &mut element {
        field.directives[0].arguments[0].value = Value::List(vec![
            Value::Int("1".to_owned()),
            Value::Object(vec![("k".to_owned(), Value::Enum("E".to_owned()))]),
            Value::String("s".to_owned()),
        ]);
    }
    assert_eq!(
        bad(element.extract_operation_conditionals()),
        (
            ErrorKind::Internal,
            "@include has invalid value [1, {k: E}, \"s\"] for argument \"if\"".to_owned()
        )
    );
}

#[test]
fn elements_say_where_their_data_is() {
    let operation = parse_operation(
        SCHEMA,
        "{ i { x: id ... on T @defer(label: \"later\") { a } ... on S { id } } }",
    );
    let field = operation.selection_set.selections[0].element();
    let below = match operation.selection_set.selections[0].selection_set() {
        Some(set) => &set.selections,
        None => panic!("expected selections"),
    };
    match below[0].element().as_path_element() {
        Some(FetchDataPathElement::Key(key)) => assert_eq!(key, "x"),
        _ => panic!("expected a key"),
    }
    match below[1].element().as_path_element() {
        Some(FetchDataPathElement::TypenameEquals(name)) => assert_eq!(name, "T"),
        _ => panic!("expected a type"),
    }
    assert!(field.defer_directive_args().is_none());
    match below[1].element().defer_directive_args() {
        Some(arguments) => assert_eq!(arguments.label.as_deref(), Some("later")),
        None => panic!("expected arguments"),
    }
    let trigger = OpGraphPathTrigger::OpPathElement(below[0].element());
    assert_eq!(trigger.get_field_parent_type().map(|ty| ty.name().as_str()), Some("I"));
    let trigger = OpGraphPathTrigger::OpPathElement(below[1].element());
    assert!(trigger.get_field_parent_type().is_none());
    let path = OpPath(vec![field, below[2].element()]);
    let other = parse_schema("type Query { i: I } interface I { id: ID! } type T implements I { id: ID! }");
    assert_eq!(path.filter_on_schema(&parse_schema(SCHEMA)).len(), 2);
    assert_eq!(path.filter_on_schema(&other).len(), 1);
}

#[test]
fn an_empty_path_changes_nothing() {
    let operation = parse_operation(SCHEMA, "{ t { a } }");
    let path = OpPath(vec![operation.selection_set.selections[0].element()]);
    let empty = OpPath(vec![]);
    assert!(empty.is_empty() && empty.has_only_fragments());
    assert_eq!(concat_op_paths(&path, &empty).len(), 1);
    assert_eq!(concat_op_paths(&empty, &path).len(), 1);
    assert!(concat_paths_in_parents(&None, &Some(path)).is_none());
}

fn source(schema: &str) -> SubgraphSource {
    SubgraphSource {
        schema: parse_schema(schema),
        key: "key".to_owned(),
        shareable: "shareable".to_owned(),
        provides: "provides".to_owned(),
        interface_object: "interfaceObject".to_owned(),
    }
}

fn schema_node(subgraph: &str, position: TypeDefinitionPosition) -> QueryGraphNode {
    QueryGraphNode {
        type_: QueryGraphNodeType::SchemaType(position),
        source: subgraph.to_owned(),
    }
}

fn root_node(kind: SchemaRootDefinitionKind) -> QueryGraphNode {
    QueryGraphNode { type_: QueryGraphNodeType::FederatedRootType(kind), source: "_".to_owned() }
}

fn edge(head: usize, tail: usize, transition: QueryGraphEdgeTransition) -> QueryGraphEdge {
    QueryGraphEdge { head, tail, transition, conditions: None, override_condition: None }
}

fn collect(parent: &str, field: &str) -> QueryGraphEdgeTransition {
    QueryGraphEdgeTransition::FieldCollection {
        source: "S1".to_owned(),
        field_definition_position: FieldDefinitionPosition {
            parent: object(parent),
            field_name: field.to_owned(),
        },
        is_part_of_provides: false,
    }
}

/// The root, `Query` and `T` of one subgraph.
fn small_graph() -> QueryGraph {
    let named = |name: &str| TypeDefinitionPosition::Object(name.to_owned());
    let mut sources = NameMap::new();
    sources.insert("S1".to_owned(), source(SCHEMA));
    QueryGraph {
        nodes: vec![
            root_node(SchemaRootDefinitionKind::Query),
            schema_node("S1", named("Query")),
            schema_node("S1", named("T")),
            schema_node("S1", TypeDefinitionPosition::Scalar("Int".to_owned())),
            root_node(SchemaRootDefinitionKind::Mutation),
            schema_node("S1", named("Mutation")),
            root_node(SchemaRootDefinitionKind::Subscription),
            schema_node("S1", named("Subscription")),
        ],
        edges: vec![
            edge(0, 1, QueryGraphEdgeTransition::SubgraphEnteringTransition),
            edge(1, 2, collect("Query", "t")),
            edge(2, 3, collect("T", "a")),
            edge(4, 5, QueryGraphEdgeTransition::SubgraphEnteringTransition),
            edge(6, 7, QueryGraphEdgeTransition::SubgraphEnteringTransition),
        ],
        sources,
    }
}

#[test]
fn a_path_is_lengthened_by_fields() {
    let graph = small_graph();
    let schema = parse_schema(SCHEMA);
    let operation = parse_operation(SCHEMA, "{ t { a } }");
    let outer = operation.selection_set.selections[0].element();
    let inner = match operation.selection_set.selections[0].selection_set() {
        Some(set) => set.selections[0].element(),
        None => panic!("expected selections"),
    };
    let overrides = OverrideConditions::new(&graph, &vec![]);
    let disabled = NameSet::new();
    let never = || Ok::<(), FederationError>(());
    let mut advancer = Advancer {
        graph: &graph,
        supergraph_schema: &schema,
        override_conditions: &overrides,
        disabled_subgraphs: &disabled,
        check_cancellation: &never,
        steps: SingleSubgraphSteps,
        selection_ids: SelectionIdCounter::new(),
        override_ids: OverrideIdCounter::new(),
    };
    let path = good(OpGraphPath::new(&graph, 1));
    assert_eq!(shown_names(&path.runtime_types_of_tail), vec!["Query"]);
    let context = OpGraphPathContext::new();
    let (options, _) =
        good(path.advance_with_operation_element(&outer, &context, &mut advancer, 100));
    let options = match options {
        Some(options) => options,
        None => panic!("expected options"),
    };
    assert_eq!(options.len(), 1);
    let at_t = &options[0].paths[0];
    assert_eq!(at_t.tail, 2);
    assert_eq!(at_t.edges, vec![Some(1)]);
    assert_eq!(shown_names(&at_t.runtime_types_of_tail), vec!["T"]);
    let (options, _) = good(at_t.advance_with_operation_element(&inner, &context, &mut advancer, 100));
    match options {
        Some(options) => assert_eq!(options[0].paths[0].tail, 3),
        None => panic!("expected options"),
    }
    let (options, _) =
        good(path.advance_with_operation_element(&inner, &context, &mut advancer, 100));
    assert!(options.is_none());
    let mut lazy = SimultaneousPathsWithLazyIndirectPaths::new(
        SimultaneousPaths::from_path(path),
        OpGraphPathContext::new(),
        ExcludedDestinations::new(),
        ExcludedConditions::new(),
    );
    let unknown = |lazy: &SimultaneousPathsWithLazyIndirectPaths| {
        lazy.lazily_computed_indirect_paths.len() == lazy.paths.paths.len()
            && lazy.lazily_computed_indirect_paths.iter().all(|paths| paths.is_none())
    };
    assert!(unknown(&lazy));
    match good(lazy.advance_with_operation_element(&outer, &mut advancer, 100)) {
        Some(options) => {
            assert_eq!(options[0].paths.paths[0].tail, 2);
            assert!(options.iter().all(unknown));
        }
        None => panic!("expected options"),
    }
    let start = good(OpGraphPath::new(&graph, 1));
    let node_type = QueryGraphNodeType::SchemaType(TypeDefinitionPosition::Object("Query".to_owned()));
    let options = good(create_initial_options(
        start,
        &node_type,
        OpGraphPathContext::new(),
        ExcludedDestinations::new(),
        ExcludedConditions::new(),
        &mut advancer,
    ));
    assert_eq!(options.len(), 1);
    assert_eq!(options[0].paths.paths[0].tail, 1);
    assert!(options.iter().all(unknown));
}

/// `Query`, `I` and its objects, which alone have the field `id`.
fn interface_graph() -> QueryGraph {
    let named = |name: &str| TypeDefinitionPosition::Object(name.to_owned());
    let interface = || CompositeTypeDefinitionPosition::Interface("I".to_owned());
    let cast = |to: &str| QueryGraphEdgeTransition::Downcast {
        source: "S1".to_owned(),
        from_type_position: interface(),
        to_type_position: object(to),
    };
    let mut sources = NameMap::new();
    sources.insert("S1".to_owned(), source(SCHEMA));
    QueryGraph {
        nodes: vec![
            schema_node("S1", TypeDefinitionPosition::Interface("I".to_owned())),
            schema_node("S1", named("T")),
            schema_node("S1", named("S")),
            schema_node("S1", TypeDefinitionPosition::Scalar("ID".to_owned())),
        ],
        edges: vec![
            edge(0, 1, cast("T")),
            edge(0, 2, cast("S")),
            edge(1, 3, collect("T", "id")),
            edge(2, 3, collect("S", "id")),
        ],
        sources,
    }
}

#[test]
fn a_field_of_an_interface_is_collected_from_its_objects() {
    let graph = interface_graph();
    let schema = parse_schema(SCHEMA);
    let operation = parse_operation(SCHEMA, "{ i { id } }");
    let id = match operation.selection_set.selections[0].selection_set() {
        Some(set) => set.selections[0].element(),
        None => panic!("expected selections"),
    };
    let overrides = OverrideConditions::new(&graph, &vec![]);
    let disabled = NameSet::new();
    let never = || Ok::<(), FederationError>(());
    let mut advancer = Advancer {
        graph: &graph,
        supergraph_schema: &schema,
        override_conditions: &overrides,
        disabled_subgraphs: &disabled,
        check_cancellation: &never,
        steps: SingleSubgraphSteps,
        selection_ids: SelectionIdCounter::new(),
        override_ids: OverrideIdCounter::new(),
    };
    let path = good(OpGraphPath::new(&graph, 0));
    let context = OpGraphPathContext::new();
    for depth in [1, 3, 100, 10000] {
        match good(path.advance_with_operation_element(&id, &context, &mut advancer, depth)).0 {
            Some(options) => {
                assert_eq!(options.len(), 1);
                let edges: Vec<Vec<Option<usize>>> =
                    options[0].paths.iter().map(|path| path.edges.clone()).collect();
                assert_eq!(edges, vec![vec![Some(0), Some(2)], vec![Some(1), Some(3)]]);
            }
            None => panic!("expected options"),
        }
    }
    assert_eq!(
        bad(path.advance_with_operation_element(&id, &context, &mut advancer, 0)).0,
        ErrorKind::NestingTooDeep
    );
}

#[test]
fn a_cast_that_the_graph_lacks_is_never_made() {
    let mut graph = interface_graph();
    graph.edges.remove(1);
    let schema = parse_schema(SCHEMA);
    let operation = parse_operation(SCHEMA, "{ i { ... on T { a } ... on S { id } } }");
    let casts = match operation.selection_set.selections[0].selection_set() {
        Some(set) => vec![set.selections[0].element(), set.selections[1].element()],
        None => panic!("expected selections"),
    };
    let overrides = OverrideConditions::new(&graph, &vec![]);
    let disabled = NameSet::new();
    let never = || Ok::<(), FederationError>(());
    let mut advancer = Advancer {
        graph: &graph,
        supergraph_schema: &schema,
        override_conditions: &overrides,
        disabled_subgraphs: &disabled,
        check_cancellation: &never,
        steps: SingleSubgraphSteps,
        selection_ids: SelectionIdCounter::new(),
        override_ids: OverrideIdCounter::new(),
    };
    let path = good(OpGraphPath::new(&graph, 0));
    let context = OpGraphPathContext::new();
    for depth in [0, 1, 20] {
        let found = path.advance_with_operation_element(&casts[0], &context, &mut advancer, depth);
        assert!(good(found).0.is_some());
        let lost = path.advance_with_operation_element(&casts[1], &context, &mut advancer, depth);
        assert_eq!(bad(lost).0, ErrorKind::NestingTooDeep);
    }
}

#[test]
fn a_path_starts_at_a_node_of_the_graph() {
    let graph = small_graph();
    assert_eq!(
        bad(OpGraphPath::new(&graph, 70)),
        (ErrorKind::Internal, "Node unexpectedly missing".to_owned())
    );
    assert_eq!(graph.root_node(SchemaRootDefinitionKind::Query), Some(0));
    assert_eq!(graph.root_node(SchemaRootDefinitionKind::Mutation), Some(4));
}

#[test]
fn all_combinations_of_options_are_made() {
    let graph = small_graph();
    let one = |head: usize| SimultaneousPaths::from_path(good(OpGraphPath::new(&graph, head)));
    let never = || Ok::<(), FederationError>(());
    let options = vec![vec![one(1), one(2)], vec![one(1)], vec![one(2), one(1)]];
    let product = good(SimultaneousPaths::flat_cartesian_product(&options, &never));
    let heads: Vec<Vec<usize>> = product
        .iter()
        .map(|paths| paths.paths.iter().map(|path| path.head).collect())
        .collect();
    assert_eq!(heads.len(), 4);
    assert_eq!(heads[0], vec![1, 1, 2]);
    assert!(heads.iter().all(|path| path.len() == 3));
    let stop = || {
        Err::<(), FederationError>(FederationError {
            kind: ErrorKind::PlanningCancelled,
            message: "stop".to_owned(),
        })
    };
    assert_eq!(
        bad(SimultaneousPaths::flat_cartesian_product(&options, &stop)),
        (ErrorKind::PlanningCancelled, "stop".to_owned())
    );
    let many: Vec<Vec<SimultaneousPaths>> = (0..20).map(|_| vec![one(1), one(2)]).collect();
    assert_eq!(
        bad(SimultaneousPaths::flat_cartesian_product(&many, &never)),
        (
            ErrorKind::QueryPlanComplexityExceeded,
            "Excessive number of combinations for a given path: 1048576".to_owned()
        )
    );
}

// Planning.

fn planner(graph: QueryGraph) -> QueryPlanner {
    let graph = RefCell::new(Some(graph));
    good(QueryPlanner::new(
        parse_schema(SCHEMA),
        |supergraph, _| Ok(supergraph),
        |_, _, _, _| match graph.borrow_mut().take() {
            Some(graph) => Ok(graph),
            None => panic!("one graph is enough"),
        },
        QueryPlannerConfig::default(),
    ))
}

type Check = fn() -> ControlFlow<()>;

fn plan_with(
    graph: QueryGraph,
    text: &str,
    name: Option<&str>,
    options: QueryPlanOptions<Check>,
) -> Result<QueryPlan, FederationError> {
    planner(graph).build_query_plan(
        &SingleSubgraphPlanning,
        &parse_document(SCHEMA, text),
        name.map(|name| name.to_owned()),
        options,
        &mut SelectionIdCounter::new(),
    )
}

fn plan(text: &str) -> Result<QueryPlan, FederationError> {
    plan_with(small_graph(), text, None, QueryPlanOptions::default())
}

fn shown_sets(fetch: &FetchNode) -> Vec<String> {
    fetch.selection_sets.iter().map(show).collect()
}

#[test]
fn a_query_is_fetched_from_its_subgraph() {
    let plan = good(plan("query Q { __typename t { a } }"));
    match plan.node {
        Some(TopLevelPlanNode::Fetch(fetch)) => {
            assert_eq!(fetch.subgraph_name, "S1");
            assert_eq!(fetch.operation_name, Some("Q".to_owned()));
            assert_eq!(fetch.operation_kind, SchemaRootDefinitionKind::Query);
            assert_eq!(shown_sets(&fetch), vec!["{ t { a } }"]);
        }
        _ => panic!("expected a fetch"),
    }
    assert_eq!(plan.statistics.best_plan_cost.bits, 0);
}

#[test]
fn the_fields_of_a_mutation_are_done_in_order() {
    let plan = good(plan("mutation { m1 { a } m2 { a } again: m1 { b } }"));
    match plan.node {
        Some(TopLevelPlanNode::Fetch(fetch)) => assert_eq!(
            shown_sets(&fetch),
            vec!["{ m1 { a } }", "{ m2 { a } }", "{ again: m1 { b } }"]
        ),
        _ => panic!("expected a fetch"),
    }
    assert!(f64::from_bits(plan.statistics.best_plan_cost.bits).is_nan());
}

#[test]
fn a_subscription_subscribes() {
    let plan = good(plan("subscription { s { a } }"));
    match plan.node {
        Some(TopLevelPlanNode::Subscription(subscription)) => {
            assert_eq!(shown_sets(&subscription.primary), vec!["{ s { a } }"]);
            assert!(subscription.rest.is_none());
        }
        _ => panic!("expected a subscription"),
    }
    assert_eq!(
        bad(plan_with(
            small_graph(),
            "subscription($v: Boolean!) { s { ... @defer(if: $v) { a } } }",
            None,
            QueryPlanOptions::default()
        ))
        .0,
        ErrorKind::DeferredSubscriptionUnsupported
    );
}

#[test]
fn a_query_for_nothing_has_an_empty_plan() {
    let plan = good(plan("{ __typename }"));
    assert!(plan.node.is_none());
}

#[test]
fn the_operation_has_to_be_known() {
    let text = "query A { t { a } } query B { t { b } }";
    let asked = |name: Option<&str>| plan_with(small_graph(), text, name, QueryPlanOptions::default());
    match good(asked(Some("B"))).node {
        Some(TopLevelPlanNode::Fetch(fetch)) => assert_eq!(shown_sets(&fetch), vec!["{ t { b } }"]),
        _ => panic!("expected a fetch"),
    }
    assert_eq!(bad(asked(Some("C"))).0, ErrorKind::UnknownOperation);
    assert_eq!(bad(asked(None)).0, ErrorKind::OperationNameNotProvided);
}

#[test]
fn a_conditional_defer_doubles_the_plan() {
    let plan = good(plan(
        "query($v: Boolean!, $w: Boolean!) { t { ... @defer(if: $v) { a } ... @defer(if: $w) { b } } }",
    ));
    match plan.node {
        Some(TopLevelPlanNode::Condition(outer)) => {
            assert_eq!(outer.condition_variable, "v");
            for clause in [&outer.if_clause, &outer.else_clause] {
                match clause.as_deref() {
                    Some(PlanNode::Condition(inner)) => {
                        assert_eq!(inner.condition_variable, "w");
                        assert!(inner.if_clause.is_some() && inner.else_clause.is_some());
                    }
                    _ => panic!("expected a condition"),
                }
            }
            match outer.else_clause.as_deref() {
                Some(PlanNode::Condition(inner)) => match inner.else_clause.as_deref() {
                    Some(PlanNode::Fetch(fetch)) => {
                        assert!(!fetch.selection_sets[0].has_defer());
                    }
                    _ => panic!("expected a fetch"),
                },
                _ => panic!("expected a condition"),
            }
        }
        _ => panic!("expected a condition"),
    }
}

#[test]
fn an_operation_needs_a_root_in_the_graph() {
    let mut graph = small_graph();
    graph.nodes[0] = root_node(SchemaRootDefinitionKind::Mutation);
    assert_eq!(
        bad(plan_with(graph, "{ t { a } }", None, QueryPlanOptions::default())),
        (
            ErrorKind::Internal,
            "Shouldn't have a query operation if the subgraphs don't have a query root".to_owned()
        )
    );
}

#[test]
fn planning_can_be_cancelled() {
    let stop: Check = || ControlFlow::Break(());
    let go_on: Check = || ControlFlow::Continue(());
    let options = |check: Check| QueryPlanOptions {
        check_for_cooperative_cancellation: Some(check),
        ..QueryPlanOptions::default()
    };
    assert_eq!(
        bad(plan_with(small_graph(), "{ t { a } }", None, options(stop))).0,
        ErrorKind::PlanningCancelled
    );
    assert!(plan_with(small_graph(), "{ t { a } }", None, options(go_on)).is_ok());
    assert!(check_cancellation_with::<Check>(&None).is_ok());
}

#[test]
fn errors_of_the_api_schema_and_the_graph_are_handed_on() {
    let error = |what: &str| FederationError {
        kind: ErrorKind::Internal,
        message: what.to_owned(),
    };
    let config = QueryPlannerConfig::default();
    let schema = || parse_schema(SCHEMA);
    let no_schema = QueryPlanner::new(
        schema(),
        |_, _| Err(error("no schema")),
        |_, _, _, _| Ok(small_graph()),
        config,
    );
    assert_eq!(bad(no_schema).1, "no schema");
    let no_graph = QueryPlanner::new(
        schema(),
        |supergraph, _| Ok(supergraph),
        |_, _, _, _| Err(error("no graph")),
        config,
    );
    assert_eq!(bad(no_graph).1, "no graph");
    let planner = planner(small_graph());
    assert!(planner.api_schema().types.contains_key("T"));
    assert!(planner.supergraph_schema().types.contains_key("U"));
    assert!(planner.subgraph_schemas().contains_key("S1"));
}

#[test]
fn interface_objects_and_inconsistent_types_are_found() {
    let mut graph = small_graph();
    graph.sources.insert(
        "S2".to_owned(),
        source(
            "directive @interfaceObject on OBJECT \
             type Query { u: U } type I @interfaceObject { id: ID! } type S { x: Int } union U = S",
        ),
    );
    let planner = planner(graph);
    assert_eq!(shown_names(&planner.interface_types_with_interface_objects), vec!["I"]);
    assert_eq!(
        shown_names(&planner.abstract_types_with_inconsistent_runtime_types),
        vec!["U"]
    );
}

#[test]
fn override_labels_have_values() {
    let mut graph = small_graph();
    for (i, label) in ["x", "y"].iter().enumerate() {
        graph.edges[i].override_condition =
            Some(OverrideCondition { label: label.to_string(), condition: true });
    }
    let conditions = OverrideConditions::new(&graph, &vec!["y".to_owned(), "z".to_owned()]);
    assert_eq!(conditions.values.get("x"), Some(&false));
    assert_eq!(conditions.values.get("y"), Some(&true));
    assert_eq!(conditions.values.get("z"), None);
}

fn fetch_node(subgraph: &str) -> FetchNode {
    FetchNode {
        subgraph_name: subgraph.to_owned(),
        operation_name: None,
        operation_kind: SchemaRootDefinitionKind::Query,
        selection_sets: vec![],
    }
}

#[test]
fn a_subscription_needs_a_fetch_at_the_start() {
    let fetch = |name: &str| PlanNode::Fetch(Box::new(fetch_node(name)));
    let sequence = |nodes: Vec<PlanNode>| Some(PlanNode::Sequence(SequenceNode { nodes }));
    match good(top_level_node(sequence(vec![fetch("a"), fetch("b")]), true)) {
        Some(TopLevelPlanNode::Subscription(subscription)) => {
            assert_eq!(subscription.primary.subgraph_name, "a");
            match subscription.rest.as_deref() {
                Some(PlanNode::Sequence(rest)) => assert_eq!(rest.nodes.len(), 1),
                _ => panic!("expected a rest"),
            }
        }
        _ => panic!("expected a subscription"),
    }
    assert_eq!(
        bad(top_level_node(sequence(vec![]), true)).1,
        "Invalid query plan: Sequence must have at least one node"
    );
    let parallel = || PlanNode::Parallel(ParallelNode { nodes: vec![] });
    assert_eq!(
        bad(top_level_node(sequence(vec![parallel()]), true)).1,
        "Invalid query plan: Primary node of a subscription is not a Fetch"
    );
    assert_eq!(
        bad(top_level_node(Some(parallel()), true)).1,
        "Invalid query plan for subscription: unexpected Parallel at root"
    );
    assert!(matches!(
        good(top_level_node(Some(parallel()), false)),
        Some(TopLevelPlanNode::Parallel(_))
    ));
    assert!(good(top_level_node(None, true)).is_none());
}

#[test]
fn a_graph_has_one_root_for_each_subgraph() {
    let schema = parse_schema(SCHEMA);
    let mut graph = FetchDependencyGraph::new(&schema, &Some(object("Query")));
    assert!(graph.primary_selection.is_some());
    assert_eq!(
        bad(only_root_subgraph(&SingleSubgraphPlanning, &graph)).1,
        "The dependency graph should have only one root."
    );
    let kind = SchemaRootDefinitionKind::Query;
    assert_eq!(graph.get_or_create_root_node(&"a".to_owned(), kind, &object("Query")), 0);
    assert_eq!(graph.get_or_create_root_node(&"a".to_owned(), kind, &object("Query")), 0);
    assert_eq!(good(only_root_subgraph(&SingleSubgraphPlanning, &graph)), "a");
    assert_eq!(graph.get_or_create_root_node(&"b".to_owned(), kind, &object("Query")), 1);
    assert!(only_root_subgraph(&SingleSubgraphPlanning, &graph).is_err());
}

#[test]
fn a_tree_enters_subgraphs_at_objects() {
    let graph = small_graph();
    let schema = parse_schema(SCHEMA);
    let tree = |edge: Option<usize>| OpPathTree {
        local_selection_sets: vec![],
        childs: vec![OpPathTreeChild { edge, tree: OpPathTree::empty() }],
    };
    let compute = |edge: Option<usize>| {
        let mut dependencies = FetchDependencyGraph::new(&schema, &None);
        let r = compute_root_fetch_groups::<SingleSubgraphPlanning, Check>(
            &SingleSubgraphPlanning,
            SchemaRootDefinitionKind::Query,
            &graph,
            &schema,
            &mut dependencies,
            &tree(edge),
            false,
            &None,
        );
        r.map(|_| dependencies.nodes.len())
    };
    assert_eq!(good(compute(Some(0))), 1);
    assert_eq!(bad(compute(None)).1, "The root edge should not be None");
    assert_eq!(
        bad(compute(Some(2))).1,
        "expected an object type for the root of a subgraph, found Int"
    );
    assert_eq!(bad(compute(Some(99))).1, "Edge unexpectedly missing");
}

// Schemas.

#[test]
fn a_type_is_inserted_once() {
    let mut schema = (*parse_schema("type Query { a: Int } type A { a: Int }")).clone();
    let scalar = |name: &str| {
        ExtendedType::Scalar(ScalarType {
            description: None,
            name: name.to_owned(),
            directives: vec![],
            built_in: false,
        })
    };
    assert!(schema.try_insert("B".to_owned(), scalar("B")).is_ok());
    assert!(schema.types.contains_key("B"));
    assert!(schema.try_insert("B".to_owned(), scalar("B")).is_ok());
    assert_eq!(
        bad(schema.try_insert("A".to_owned(), scalar("A"))).1,
        "found different type when upserting: expected Scalar(A) found Object(A)"
    );
    assert!(matches!(schema.types.get("A"), Some(ExtendedType::Object(_))));
}

// Links.

#[test]
fn links_are_read_off_the_directives_of_a_schema() {
    let schema = parse_schema(
        "extend schema @link(url: \"https://specs.apollo.dev/link/v1.0\") \
         @link(url: \"https://specs.apollo.dev/federation/v2.5\", as: \"fed\", \
         import: [\"@key\", {name: \"@requires\", as: \"@needs\"}, {name: \"FieldSet\"}, 3]) \
         @other(url: \"https://specs.apollo.dev/other/v1.0\") @link(url: 1) \
         type Query { a: Int }",
    );
    let metadata = match LinksMetadata::from_directives(&schema.schema_definition.directives) {
        Some(metadata) => metadata,
        None => panic!("expected links"),
    };
    assert_eq!(metadata.by_identity.len(), 2);
    assert_eq!(metadata.by_identity.key_at(0), "https://specs.apollo.dev/link");
    let link = match metadata.by_identity.get("https://specs.apollo.dev/federation") {
        Some(link) => link,
        None => panic!("expected a link to federation"),
    };
    assert_eq!(link.spec_name, "federation");
    assert_eq!(link.spec_name_in_schema(), "fed");
    assert_eq!(link.imports.len(), 3);
    assert_eq!(link.directive_name_in_schema("key"), "key");
    assert_eq!(link.directive_name_in_schema("requires"), "needs");
    assert_eq!(link.directive_name_in_schema("external"), "fed__external");
    assert_eq!(link.imports[2].element, "FieldSet");
    assert!(LinksMetadata::from_directives(&vec![]).is_none());
}

// Merging.

const FEDERATION: &str = "directive @key(fields: String!, resolvable: Boolean = true) repeatable on OBJECT | INTERFACE \
     directive @external on OBJECT | FIELD_DEFINITION \
     directive @requires(fields: String!) on FIELD_DEFINITION \
     directive @provides(fields: String!) on FIELD_DEFINITION \
     directive @inaccessible on FIELD_DEFINITION | OBJECT ";

fn subgraph(name: &str, schema: &str) -> ValidFederationSubgraph {
    ValidFederationSubgraph {
        name: name.to_owned(),
        url: format!("http://{name}"),
        schema: ValidFederationSchema {
            schema: (*parse_schema(&format!("{FEDERATION}{schema}"))).clone(),
            metadata: None,
        },
    }
}

fn products() -> ValidFederationSubgraph {
    subgraph(
        "products",
        "type Query { product: Product } type Product @key(fields: \"id\") { id: ID! name: String }",
    )
}

fn reviews() -> ValidFederationSubgraph {
    subgraph(
        "reviews",
        "type Query { reviews: [Review] } type Review { body: String product: Product } \
         type Product @key(fields: \"id\") { id: ID! reviews: [Review] }",
    )
}

fn merged(subgraphs: Vec<ValidFederationSubgraph>) -> Schema {
    assert!(subgraphs.iter().all(|subgraph| subgraph.has_valid_keys()));
    match merge_subgraphs(&subgraphs) {
        Ok(success) => success.schema,
        Err(failure) => panic!("{:?}", failure.errors),
    }
}

fn shown_schema(schema: &Schema) -> Vec<String> {
    (0..schema.types.len())
        .map(|i| {
            let (directives, fields) = match schema.types.value_at(i) {
                ExtendedType::Object(ty) => (
                    show_directives(&ty.directives),
                    (0..ty.fields.len())
                        .map(|k| {
                            let field = ty.fields.value_at(k);
                            format!(
                                "{}: {}{}",
                                field.name,
                                field.ty.to_text(),
                                show_directives(&field.directives)
                            )
                        })
                        .collect(),
                ),
                ExtendedType::Enum(ty) => (
                    show_directives(&ty.directives),
                    (0..ty.values.len()).map(|k| ty.values.key_at(k).clone()).collect(),
                ),
                _ => (String::new(), Vec::<String>::new()),
            };
            format!("{}{directives} {{ {} }}", schema.types.key_at(i), fields.join(" "))
        })
        .collect()
}

#[test]
fn types_of_all_subgraphs_are_merged() {
    let schema = merged(vec![reviews(), products()]);
    let shown = shown_schema(&schema);
    let product = shown.iter().find(|ty| ty.starts_with("Product "));
    assert_eq!(
        product.map(String::as_str),
        Some(
            "Product @join__type(graph: PRODUCTS, key: \"id\") \
             @join__type(graph: REVIEWS, key: \"id\") \
             { id: ID! @join__field(graph: PRODUCTS, type: \"ID!\") \
             @join__field(graph: REVIEWS, type: \"ID!\") \
             name: String @join__field(graph: PRODUCTS, type: \"String\") \
             reviews: [Review] @join__field(graph: REVIEWS, type: \"[Review]\") }"
        )
    );
    let graphs = shown.iter().find(|ty| ty.starts_with("join__Graph"));
    assert_eq!(graphs.map(String::as_str), Some("join__Graph { PRODUCTS REVIEWS }"));
    assert!(schema.directive_definitions.contains_key("join__type"));
    assert!(schema.directive_definitions.contains_key("link"));
    assert_eq!(schema.schema_definition.query, Some("Query".to_owned()));
}

#[test]
fn the_order_of_subgraphs_does_not_matter() {
    let one = merged(vec![reviews(), products()]);
    let other = merged(vec![products(), reviews()]);
    assert_eq!(shown_schema(&one), shown_schema(&other));
}

#[test]
fn subgraphs_of_one_name_are_refused() {
    match merge_subgraphs(&vec![products(), products()]) {
        Ok(_) => panic!("expected a failure"),
        Err(failure) => assert_eq!(failure.errors.len(), 1),
    }
}

#[test]
fn a_supergraph_starts_from_what_every_schema_has() {
    let schema = merged(vec![products()]);
    for name in ["Int", "Float", "String", "Boolean", "ID", "__Schema", "__TypeKind"] {
        assert!(schema.types.contains_key(name));
    }
    assert!(schema.directive_definitions.contains_key("skip"));
    assert_eq!(schema.sources.iter().filter(|file| file.id == BUILT_IN_FILE).count(), 1);
    let mut subgraphs = ValidFederationSubgraphs::new();
    assert!(subgraphs.add(products()).is_ok());
    let start = to_schema(&apollo_compiler::Schema::new(), 100);
    match (Merger::new().merge(start, &subgraphs), merge_federation_subgraphs(&subgraphs)) {
        (Ok(one), Ok(other)) => {
            assert_eq!(shown_schema(&one.schema), shown_schema(&schema));
            assert_eq!(shown_schema(&other.schema), shown_schema(&schema));
        }
        _ => panic!("expected supergraphs"),
    }
}

#[test]
fn graph_values_are_told_apart_by_numbers() {
    let schema = merged(vec![
        subgraph("a", "type Query { x: Int }"),
        subgraph("A", "type Query { y: Int }"),
    ]);
    let shown = shown_schema(&schema);
    let graphs = shown.iter().find(|ty| ty.starts_with("join__Graph"));
    assert_eq!(graphs.map(String::as_str), Some("join__Graph { A A_1 }"));

    let schema = merged(vec![
        subgraph("A", "type Query { x: Int }"),
        subgraph("A_2", "type Query { y: Int }"),
        subgraph("a", "type Query { z: Int }"),
    ]);
    let shown = shown_schema(&schema);
    let graphs = shown.iter().find(|ty| ty.starts_with("join__Graph"));
    assert_eq!(graphs.map(String::as_str), Some("join__Graph { A A_2 A_3 }"));
}

#[test]
fn a_subgraph_needs_a_name_with_a_letter() {
    match merge_subgraphs(&vec![subgraph("", "type Query { x: Int }")]) {
        Ok(_) => panic!("expected a failure"),
        Err(failure) => assert!(!failure.errors.is_empty()),
    }
}

#[test]
fn a_key_has_to_name_its_fields() {
    let mut broken = products();
    if let Some(ExtendedType::Object(ty)) = broken.schema.schema.types.get_mut("Product") {
        ty.directives[0].arguments.clear();
    }
    assert!(!broken.has_valid_keys());
    assert!(products().has_valid_keys());
}

#[test]
fn the_graph_is_built_from_the_api_schema() {
    for enable_defer in [false, true] {
        let mut config = QueryPlannerConfig::default();
        config.incremental_delivery.enable_defer = enable_defer;
        let planner = good(QueryPlanner::new(
            parse_schema(SCHEMA),
            |supergraph, include_defer| {
                assert!(supergraph.types.contains_key("T"));
                assert_eq!(include_defer, enable_defer);
                Ok(parse_schema("type Query { a: Int }"))
            },
            |supergraph, api_schema, validate, for_planning| {
                assert!(supergraph.types.contains_key("T"));
                assert!(!api_schema.types.contains_key("T"));
                assert_eq!((validate, for_planning), (Some(true), Some(true)));
                Ok(small_graph())
            },
            config,
        ));
        assert!(!planner.api_schema().types.contains_key("T"));
    }
}

#[test]
fn a_text_is_planned() {
    let read = |text: &str, ids: &mut SelectionIdCounter| {
        planner(small_graph()).plan_text(
            &SingleSubgraphPlanning,
            text,
            "query.graphql",
            QueryPlanOptions::<Check>::default(),
            ids,
        )
    };
    let mut ids = SelectionIdCounter::new();
    let first = ids.next;
    match good(read("query Q { t { a } }", &mut ids)).node {
        Some(TopLevelPlanNode::Fetch(fetch)) => {
            assert_eq!(fetch.operation_name, Some("Q".to_owned()));
            assert_eq!(shown_sets(&fetch), vec!["{ t { a } }"]);
        }
        _ => panic!("expected a fetch"),
    }
    good(read("{ t { a } ... F } fragment F on Query { t { a } }", &mut ids));
    assert!(ids.next > first);
    let counted = ids.next;
    assert_eq!(bad(read("{ t { nothing } }", &mut ids)).0, ErrorKind::InvalidGraphql);
    let two = read("query A { t { a } } query B { t { a } }", &mut ids);
    assert_eq!(bad(two).0, ErrorKind::OperationNameNotProvided);
    assert_eq!(ids.next, counted);
}

// Reading subgraphs.

#[test]
fn a_subgraph_is_read_from_text() {
    let text = "schema @link(url: \"https://specs.apollo.dev/federation/v2.3\", import: [\"@key\"]) \
                { query: Query } type Query { t: T } type T @key(fields: \"id\") { id: ID! }";
    let file = BUILT_IN_FILE + 3;
    let subgraph = good(ValidFederationSubgraph::parse("S1", "file://s1", text, file));
    assert_eq!((subgraph.name.as_str(), subgraph.url.as_str()), ("S1", "file://s1"));
    let schema = &subgraph.schema.schema;
    assert!(schema.types.contains_key("T") && schema.types.contains_key("String"));
    assert_eq!(schema.schema_definition.query, Some("Query".to_owned()));
    assert!(subgraph.has_valid_keys());
    let merged = match merge_subgraphs(&vec![subgraph]) {
        Ok(merged) => merged,
        Err(failure) => panic!("{:?}", failure.errors),
    };
    assert!(merged.schema.types.contains_key("join__Graph"));
    let wrong = ValidFederationSubgraph::parse("S1", "file://s1", "type {", file);
    assert_eq!(bad(wrong).0, ErrorKind::InvalidGraphql);
}

// Texts.

#[test]
fn numbers_are_printed_as_they_are_written() {
    let text = |value: Value| value_text(&value);
    for good in ["0", "-12", "340"] {
        assert_eq!(text(Value::Int(good.to_owned())), Some(good.to_owned()));
    }
    for bad in ["abc", "", "-", "01", "1.0"] {
        assert_eq!(text(Value::Int(bad.to_owned())), None, "{bad}");
    }
    for good in ["1.5", "-0.25", "1e10", "3.0E-2"] {
        assert_eq!(text(Value::Float(good.to_owned())), Some(good.to_owned()));
    }
    for bad in ["1", "1.", ".5", "1e", "x.5", "1.5.6"] {
        assert_eq!(text(Value::Float(bad.to_owned())), None, "{bad}");
    }
    let nested = Value::List(vec![Value::Object(vec![(
        "a".to_owned(),
        Value::Int("x".to_owned()),
    )])]);
    assert_eq!(text(nested), None);
}

#[test]
fn operations_and_their_parts_have_texts() {
    let operation = parse_operation(
        SCHEMA,
        "query Q($v: Boolean!) { i { ... on T @skip(if: $v) { x: a } } arg(a: 1) { __typename id } }",
    );
    assert_eq!(
        operation.selection_set.to_text(),
        Some(
            "{ i { ... on T @skip(if: $v) { x: a } } arg(a: 1) { __typename id } }".to_owned()
        )
    );
    assert_eq!(
        operation.selection_set.to_field_set_text(),
        Some("i { ... on T @skip(if: $v) { x: a } } arg(a: 1) { __typename id }".to_owned())
    );
    assert_eq!(
        operation.selection_set.selections[1].to_text(),
        Some("arg(a: 1) { __typename id }".to_owned())
    );
    assert_eq!(
        parse_operation(SCHEMA, "mutation M { m1 { a } }").to_text(),
        Some("mutation M {\n  m1 {\n    a\n  }\n}".to_owned())
    );
    let outer = operation.selection_set.selections[0].element();
    let fragment = match operation.selection_set.selections[0].selection_set() {
        Some(set) => set.selections[0].element(),
        None => panic!("expected selections"),
    };
    assert_eq!(outer.to_text(), Some("i".to_owned()));
    assert_eq!(fragment.to_text(), Some("... on T @skip(if: $v)".to_owned()));
    let path = OpPath(vec![outer, fragment]);
    assert_eq!(path.to_text(), Some("i::... on T @skip(if: $v)".to_owned()));
    assert_eq!(OpPath(vec![]).to_text(), Some(String::new()));
    let argument = operation.selection_set.selections[1].element();
    assert_eq!(
        OpGraphPathTrigger::OpPathElement(argument).to_text(),
        Some("arg(a: 1)".to_owned())
    );
    let context = OpGraphPathContext::new();
    assert_eq!(OpGraphPathTrigger::Context(context).to_text(), Some("[]".to_owned()));
    let mut unknown = parse_operation(SCHEMA, "{ t { a } }");
    match &mut unknown.selection_set.selections[0] {
        Selection::Field(f) => f.field.field_position.field_name = "nothing".to_owned(),
        Selection::InlineFragment(_) => panic!("expected a field"),
    }
    assert_eq!(unknown.to_text(), None);
    assert_eq!(unknown.selection_set.to_text(), None);
}

#[test]
fn paths_and_resolutions_have_texts() {
    let graph = small_graph();
    let path = || good(OpGraphPath::new(&graph, 1));
    let texts = |all: &[&str]| all.iter().map(|text| text.to_string()).collect::<Vec<String>>();
    let paths = |paths: Vec<OpGraphPath>| SimultaneousPaths { paths };
    assert_eq!(paths(vec![]).to_text(&vec![]), "<no path>");
    assert_eq!(paths(vec![path()]).to_text(&texts(&["p"])), "p");
    assert_eq!(
        paths(vec![path(), path()]).to_text(&texts(&["p", "q"])),
        "{\n  p\n  q\n}"
    );
    let closed = |selection_set: Option<SelectionSet>| ClosedPath {
        paths: paths(vec![path()]),
        selection_set,
    };
    assert_eq!(closed(None).to_text(&texts(&["p"])), Some("p".to_owned()));
    let set = parse_operation(SCHEMA, "{ t { a } }").selection_set;
    assert_eq!(
        closed(Some(set)).to_text(&texts(&["p"])),
        Some("p -> { t { a } }".to_owned())
    );
    let unsatisfied = |reason| ConditionResolution::Unsatisfied { reason };
    assert_eq!(unsatisfied(None).to_text("", "", ""), "Unsatisfied: reason=None\n");
    assert_eq!(
        unsatisfied(Some(UnsatisfiedConditionReason::NoPostRequireKey)).to_text("", "", ""),
        "Unsatisfied: reason=Some(NoPostRequireKey)\n"
    );
    assert_eq!(
        unsatisfied(Some(UnsatisfiedConditionReason::NoSetContext)).to_text("", "", ""),
        "Unsatisfied: reason=Some(NoSetContext)\n"
    );
    let satisfied = ConditionResolution::no_conditions();
    assert_eq!(satisfied.to_text("0", "tree", "map"), "Satisfied: cost=0\n");
}

#[test]
fn messages_say_what_was_found() {
    let graph = small_graph();
    let schema = parse_schema(SCHEMA);
    let overrides = OverrideConditions::new(&graph, &vec![]);
    let disabled = NameSet::new();
    let never = || Ok::<(), FederationError>(());
    let mut advancer = Advancer {
        graph: &graph,
        supergraph_schema: &schema,
        override_conditions: &overrides,
        disabled_subgraphs: &disabled,
        check_cancellation: &never,
        steps: SingleSubgraphSteps,
        selection_ids: SelectionIdCounter::new(),
        override_ids: OverrideIdCounter::new(),
    };
    let mut at_int = good(OpGraphPath::new(&graph, 2));
    at_int.tail = 3;
    let context = OpGraphPathContext::new();
    let operation = parse_operation(SCHEMA, "{ x: t { ... on I @skip(if: true) { id } } }");
    let field = operation.selection_set.selections[0].element();
    let fragment = match operation.selection_set.selections[0].selection_set() {
        Some(set) => set.selections[0].element(),
        None => panic!("expected selections"),
    };
    assert_eq!(
        bad(at_int.advance_with_operation_element(&field, &context, &mut advancer, 100)).1,
        "Unexpectedly found field x: t on non-composite type Int"
    );
    assert_eq!(
        bad(at_int.advance_with_operation_element(&fragment, &context, &mut advancer, 100)).1,
        "Unexpectedly found inline fragment ... on I @skip(if: true) on non-composite type Int"
    );
}

// Arguments.

#[test]
fn a_list_of_arguments_is_sorted() {
    let argument = |name: &str, value: Value| Argument { name: name.to_owned(), value };
    let object = |first: &str, second: &str| {
        Value::Object(vec![
            (first.to_owned(), Value::Null),
            (second.to_owned(), Value::Null),
        ])
    };
    let one = ArgumentList::from(vec![argument("b", object("x", "y")), argument("a", Value::Null)]);
    let other = ArgumentList::from(vec![argument("a", Value::Null), argument("b", object("y", "x"))]);
    assert!(one.same_as(&other));
    assert_eq!(show_arguments(&one.to_vec()), "(a: null, b: {x: null, y: null})");
    assert!(ArgumentList::from(vec![]).same_as(&ArgumentList::new()));
    assert!(ArgumentList::new().to_vec().is_empty());
    let single = ArgumentList::one(argument("b", object("y", "x")));
    assert_eq!(show_arguments(&single.to_vec()), "(b: {x: null, y: null})");
    assert!(!single.same_as(&one));
}

#[test]
fn an_alias_is_not_in_use() {
    let seen = |name: &str| SeenResponseName {
        field_name: name.to_owned(),
        field_type: Type::Named("Int".to_owned()),
        selections: None,
    };
    let mut names = NameMap::new();
    assert_eq!(gen_alias_name("a", &names), "a__alias_0");
    for used in ["a__alias_0", "a__alias_1", "b"] {
        names.insert(used.to_owned(), seen(used));
    }
    assert_eq!(gen_alias_name("a", &names), "a__alias_2");
    assert_eq!(gen_alias_name("b", &names), "b__alias_0");
}

// Types of subgraphs.

#[test]
fn the_search_for_a_difference_goes_on_to_the_next_implementation() {
    let schema = |second: &str| {
        format!(
            "directive @key(fields: String!) on OBJECT directive @shareable on FIELD_DEFINITION \
             type Query {{ i: I }} interface I {{ s: V }} \
             type A implements I @key(fields: \"id\") {{ id: ID! s: V @shareable }} \
             type B implements I @key(fields: \"id\") {{ id: ID! s: {second} @shareable }} \
             type V {{ x: Int }} type W {{ x: Int y: Int }}"
        )
    };
    let named = |name: &str| TypeDefinitionPosition::Object(name.to_owned());
    let differs = |second: &str| {
        let mut sources = NameMap::new();
        sources.insert("S1".to_owned(), source(&schema("V")));
        sources.insert("S2".to_owned(), source(&schema(second)));
        let graph = QueryGraph {
            nodes: vec![
                schema_node("S1", TypeDefinitionPosition::Interface("I".to_owned())),
                schema_node("S2", named("A")),
                schema_node("S2", named("B")),
            ],
            edges: vec![],
            sources,
        };
        let path = good(OpGraphPath::new(&graph, 0));
        good(path.has_an_entity_implementation_with_shareable_field(&graph, "S1", "I", "s"))
    };
    assert!(!differs("V"));
    assert!(differs("W"));
}

#[test]
fn a_schema_visitor_starts_outside_of_every_group() {
    let original = parse_schema(SCHEMA);
    let mut target = match Arc::try_unwrap(parse_schema("type Query { a: Int } type A { a: Int }")) {
        Ok(schema) => schema,
        Err(_) => panic!("expected one owner"),
    };
    let denied = name_set(&["defer"]);
    let scalar = |name: &str| TypeDefinitionPosition::Scalar(name.to_owned());
    assert!(good(target.try_pre_insert(&scalar("B"))));
    assert!(!good(target.try_pre_insert(&TypeDefinitionPosition::Object("A".to_owned()))));
    assert_eq!(
        bad(target.try_pre_insert(&scalar("A"))).1,
        "found different type when upserting: expected Scalar(A) found Object(A)"
    );
    let visitor: SchemaVisitor<u8, u8> = SchemaVisitor::new(&original, &mut target, &denied);
    assert!(visitor.type_stack.is_empty());
    assert!(visitor.original_schema.types.contains_key("T"));
    assert!(visitor.directive_deny_list.contains("defer"));
    let new = ExtendedType::Scalar(ScalarType {
        description: None,
        name: "B".to_owned(),
        directives: vec![],
        built_in: false,
    });
    good(visitor.to_schema.try_insert("B".to_owned(), new));
    assert!(!good(target.try_pre_insert(&scalar("B"))));
}

#[test]
fn what_does_not_fit_is_found() {
    let mut set = parse_operation(SCHEMA, "{ t { a ... on I { id } } }").selection_set;
    assert!(set.has_valid_names());
    match &mut set.selections[0] {
        Selection::Field(f) => f.field.alias = Some("1a".to_owned()),
        Selection::InlineFragment(_) => panic!("expected a field"),
    }
    assert!(!set.has_valid_names());
    let schema = |default: &str| {
        let text = format!("type Query {{ a(b: Int = {default}, c: Float = 1.5): E }} enum E {{ V }}");
        parse_schema(&text)
    };
    assert!(is_fitting_schema(&schema("7")));
    let mut changed = match Arc::try_unwrap(schema("7")) {
        Ok(schema) => schema,
        Err(_) => panic!("expected one owner"),
    };
    match changed.types.get_mut("Query") {
        Some(ExtendedType::Object(query)) => match query.fields.get_mut("a") {
            Some(field) => field.arguments[0].default_value = Some(Value::Int("x".to_owned())),
            None => panic!("expected a field"),
        },
        _ => panic!("expected a type"),
    }
    assert!(!is_fitting_schema(&changed));
}
