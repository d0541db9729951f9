use apollo_federation::ast::Type;
use apollo_federation::ast::Value;
use apollo_federation::collections::NameMap;
use apollo_federation::operation::equality::same_value;
use apollo_federation::schema::argument_composition_strategies::ArgumentCompositionStrategy;
use apollo_federation::schema::argument_composition_strategies::FixedTypeSupportValidator;
use apollo_federation::schema::Schema;
use apollo_federation::schema::SchemaDefinition;

fn number(text: &str) -> Value {
    Value::Int(text.to_owned())
}

fn list(items: &[&str]) -> Value {
    Value::List(items.iter().map(|item| Value::String(item.to_string())).collect())
}

fn schema() -> Schema {
    Schema {
        sources: vec![],
        schema_definition: SchemaDefinition {
            description: None,
            directives: vec![],
            query: None,
            mutation: None,
            subscription: None,
        },
        directive_definitions: NameMap::new(),
        types: NameMap::new(),
    }
}

fn non_null_int() -> Type {
    Type::NonNullNamed("Int".to_owned())
}

fn check(strategy: ArgumentCompositionStrategy, values: Vec<Value>, expected: Value) {
    assert!(same_value(&strategy.merge_values(&values), &expected));
}

#[test]
fn strategies_have_names() {
    assert_eq!(ArgumentCompositionStrategy::Max.name(), "MAX");
    assert_eq!(ArgumentCompositionStrategy::Min.name(), "MIN");
    assert_eq!(ArgumentCompositionStrategy::Sum.name(), "SUM");
    assert_eq!(ArgumentCompositionStrategy::Intersection.name(), "INTERSECTION");
    assert_eq!(ArgumentCompositionStrategy::Union.name(), "UNION");
}

#[test]
fn numbers_are_merged() {
    let values = || vec![number("3"), number("-10"), number("7")];
    check(ArgumentCompositionStrategy::Max, values(), number("7"));
    check(ArgumentCompositionStrategy::Min, values(), number("-10"));
    check(ArgumentCompositionStrategy::Sum, values(), number("0"));
    check(ArgumentCompositionStrategy::Max, vec![number("-5"), number("-4")], number("-4"));
    check(ArgumentCompositionStrategy::Max, vec![], number("0"));
    check(ArgumentCompositionStrategy::Min, vec![number("2147483647")], number("2147483647"));
    check(ArgumentCompositionStrategy::Sum, vec![number("-2147483648")], number("-2147483648"));
}

#[test]
fn lists_are_merged() {
    let values = || vec![list(&["a", "b", "c", "b"]), list(&["b", "c"]), list(&["c", "b", "d"])];
    check(ArgumentCompositionStrategy::Intersection, values(), list(&["b", "c", "b"]));
    check(ArgumentCompositionStrategy::Union, values(), list(&["a", "b", "c", "d"]));
    check(ArgumentCompositionStrategy::Union, vec![], list(&[]));
}

#[test]
fn only_some_types_are_supported() {
    let schema = schema();
    let list_of = || Type::NonNullList(Box::new(Type::Named("String".to_owned())));
    for strategy in [
        ArgumentCompositionStrategy::Max,
        ArgumentCompositionStrategy::Min,
        ArgumentCompositionStrategy::Sum,
    ] {
        assert_eq!(strategy.is_type_supported(&schema, &non_null_int()), Ok(()));
        assert_eq!(
            strategy.is_type_supported(&schema, &Type::Named("Int".to_owned())),
            Err("type(s) Int!".to_owned())
        );
    }
    for strategy in [ArgumentCompositionStrategy::Intersection, ArgumentCompositionStrategy::Union] {
        assert_eq!(strategy.is_type_supported(&schema, &list_of()), Ok(()));
        assert_eq!(
            strategy.is_type_supported(&schema, &non_null_int()),
            Err("non-nullable list types of any type".to_owned())
        );
        let nullable = Type::List(Box::new(non_null_int()));
        assert!(strategy.is_type_supported(&schema, &nullable).is_err());
    }
}

#[test]
fn all_supported_types_are_listed() {
    let validator = FixedTypeSupportValidator {
        supported_types: vec![non_null_int(), Type::List(Box::new(Type::Named("A".to_owned())))],
    };
    assert_eq!(
        validator.is_type_supported(&schema(), &Type::Named("B".to_owned())),
        Err("type(s) Int!, [A]".to_owned())
    );
    assert_eq!(validator.is_type_supported(&schema(), &non_null_int()), Ok(()));
}

#[test]
fn the_order_of_the_values_does_not_matter() {
    let orders = [["3", "-7", "5"], ["5", "3", "-7"], ["-7", "5", "3"]];
    for order in orders {
        let values = || order.iter().map(|text| number(text)).collect::<Vec<Value>>();
        check(ArgumentCompositionStrategy::Max, values(), number("5"));
        check(ArgumentCompositionStrategy::Min, values(), number("-7"));
        check(ArgumentCompositionStrategy::Sum, values(), number("1"));
    }
    let items = |strategy: ArgumentCompositionStrategy, lists: Vec<Value>| {
        let mut texts = match strategy.merge_values(&lists) {
            Value::List(items) => items
                .iter()
                .map(|item| match item {
                    Value::String(text) => text.clone(),
                    _ => panic!("expected a string"),
                })
                .collect::<Vec<String>>(),
            _ => panic!("expected a list"),
        };
        texts.sort();
        texts
    };
    for strategy in [ArgumentCompositionStrategy::Intersection, ArgumentCompositionStrategy::Union] {
        let one = items(strategy, vec![list(&["a", "b", "c"]), list(&["c", "b", "d"])]);
        let other = items(strategy, vec![list(&["c", "b", "d"]), list(&["a", "b", "c"])]);
        assert_eq!(one, other);
    }
}
