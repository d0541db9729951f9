use apollo_federation::ast::Directive;
use apollo_federation::collections::NameSet;
use apollo_federation::connectors::outline::NamedSelection;
use apollo_federation::connectors::outline::Outline;
use apollo_federation::connectors::outline::SubSelection;
use apollo_federation::connectors::visitors::filter_directives;
use apollo_federation::connectors::visitors::walk;

fn named(names: &[&str], selections: Option<SubSelection>) -> NamedSelection {
    NamedSelection {
        names: names.iter().map(|name| name.to_string()).collect(),
        selections,
    }
}

fn leaf(name: &str) -> NamedSelection {
    named(&[name], None)
}

fn group(name: &str, selections: Vec<NamedSelection>) -> NamedSelection {
    named(&[name], Some(SubSelection { selections }))
}

fn print_visited(visited: Vec<(usize, String)>) -> String {
    let mut result = String::new();
    for (depth, visited) in visited {
        result.push_str(&format!("{}{visited}\n", "|  ".repeat(depth)));
    }
    result
}

fn printed(selections: Vec<NamedSelection>) -> String {
    match walk(Outline::new(), &SubSelection { selections }) {
        Ok(outline) => {
            assert!(outline.depth_stack.is_empty());
            print_visited(outline.visited)
        }
        Err(error) => panic!("{error:?}"),
    }
}

#[test]
fn it_iterates_over_empty_path() {
    assert_eq!(printed(vec![]), "");
}

#[test]
fn it_iterates_over_simple_selection() {
    let selection = vec![leaf("a"), leaf("b"), leaf("c"), leaf("d")];
    assert_eq!(printed(selection), "a\nb\nc\nd\n");
}

#[test]
fn it_iterates_over_aliased_selection() {
    // a: one b: two c: three d: four
    let selection = vec![leaf("a"), leaf("b"), leaf("c"), leaf("d")];
    assert_eq!(printed(selection), "a\nb\nc\nd\n");
}

#[test]
fn it_iterates_over_nested_selection() {
    let selection = vec![
        group(
            "a",
            vec![group("b", vec![group("c", vec![group("d", vec![leaf("e")])])])],
        ),
        leaf("f"),
    ];
    assert_eq!(
        printed(selection),
        "a\n|  b\n|  |  c\n|  |  |  d\n|  |  |  |  e\nf\n"
    );
}

#[test]
fn it_iterates_over_paths() {
    // A path without a name selects what is selected below it.
    let selection = vec![
        leaf("a"),
        named(&["c", "e", "f"], Some(SubSelection { selections: vec![leaf("i")] })),
        leaf("j"),
    ];
    assert_eq!(printed(selection), "a\nc\ne\nf\n|  i\nj\n");
}

#[test]
fn it_iterates_over_complex_selection() {
    let selection = vec![
        leaf("id"),
        leaf("name"),
        leaf("username"),
        leaf("email"),
        group(
            "address",
            vec![
                leaf("street"),
                leaf("suite"),
                leaf("city"),
                leaf("zipcode"),
                group("geo", vec![leaf("lat"), leaf("lng")]),
            ],
        ),
        leaf("phone"),
        leaf("website"),
        group("company", vec![leaf("name"), leaf("catchPhrase"), leaf("bs")]),
    ];
    assert_eq!(
        printed(selection),
        "address\n|  city\n|  geo\n|  |  lat\n|  |  lng\n|  street\n|  suite\n|  zipcode\n\
         company\n|  bs\n|  catchPhrase\n|  name\nemail\nid\nname\nphone\nusername\nwebsite\n"
    );
}

#[test]
fn a_group_without_fields_is_entered_and_left() {
    assert_eq!(printed(vec![group("a", vec![]), leaf("b")]), "a\nb\n");
}

#[test]
fn denied_directives_are_filtered_out() {
    let named = |name: &str| Directive { name: name.to_owned(), arguments: vec![] };
    let mut denied = NameSet::new();
    denied.insert("connect".to_owned());
    denied.insert("source".to_owned());
    let directives = vec![named("key"), named("connect"), named("tag"), named("source")];
    let left: Vec<String> = filter_directives(&denied, &directives)
        .iter()
        .map(|d| d.name.clone())
        .collect();
    assert_eq!(left, vec!["key", "tag"]);
}
