//! Reading the directives of subgraphs and applying those of the join feature.

use crate::ast::type_text;
use crate::ast::Argument;
use crate::ast::ArgumentView;
use crate::ast::Directive;
use crate::ast::DirectiveView;
use crate::ast::Name;
use crate::ast::Type;
use crate::ast::TypeView;
use crate::ast::Value;
use crate::ast::ValueView;
use crate::collections::value_of;
use crate::link::directive_name;
use crate::link::federation_identity;
use crate::link::Link;
use crate::link::LinksMetadata;
use crate::link::LinksMetadataView;
use crate::merge::core_features::bool_argument;
use crate::merge::core_features::enum_argument;
use crate::merge::core_features::new_bool_argument;
use crate::merge::core_features::new_enum_argument;
use crate::merge::core_features::new_string_argument;
use crate::merge::core_features::string_argument;
use crate::merge::enum_value::EnumValue;
use crate::text::same;
use crate::text::Text;
use vstd::prelude::*;

verus! {

/// The names under which a subgraph uses the federation directives.
pub struct DirectiveNames {
    pub key: Name,
    pub requires_: Name,
    pub provides: Name,
    pub external: Name,
    pub interface_object: Name,
    pub override_: Name,
    pub inaccessible: Name,
}

/// The mathematical content of [`DirectiveNames`].
#[verifier::ext_equal]
pub struct DirectiveNamesView {
    pub key: Text,
    pub requires_: Text,
    pub provides: Text,
    pub external: Text,
    pub interface_object: Text,
    pub override_: Text,
    pub inaccessible: Text,
}

impl DeepView for DirectiveNames {
    type V = DirectiveNamesView;

    open spec fn deep_view(&self) -> DirectiveNamesView {
        DirectiveNamesView {
            key: self.key@,
            requires_: self.requires_@,
            provides: self.provides@,
            external: self.external@,
            interface_object: self.interface_object@,
            override_: self.override_@,
            inaccessible: self.inaccessible@,
        }
    }
}

/// The name under which a schema with the given links uses a federation directive: as its link to
/// the federation specification says, or the directive's own name where there is no such link.
pub open spec fn federation_name(metadata: Option<LinksMetadataView>, name: Text) -> Text {
    match metadata {
        Some(links) => match value_of(links.by_identity, federation_identity()) {
            Some(link) => directive_name(link, name),
            None => name,
        },
        None => name,
    }
}

/// The names under which a schema with the given links uses the federation directives.
pub open spec fn federation_names(metadata: Option<LinksMetadataView>) -> DirectiveNamesView {
    DirectiveNamesView {
        key: federation_name(metadata, "key"@),
        requires_: federation_name(metadata, "requires"@),
        provides: federation_name(metadata, "provides"@),
        external: federation_name(metadata, "external"@),
        interface_object: federation_name(metadata, "interfaceObject"@),
        override_: federation_name(metadata, "override"@),
        inaccessible: federation_name(metadata, "inaccessible"@),
    }
}

fn name_by_link(link: Option<&Link>, name: &str) -> (r: Name)
    ensures
        r@ == (match link {
            Some(l) => directive_name(l.deep_view(), name@),
            None => name@,
        }),
{
    match link {
        Some(link) => link.directive_name_in_schema(name),
        None => name.to_owned(),
    }
}

impl DirectiveNames {
    /// The names under which a schema with the given links uses the federation directives.
    pub fn for_metadata(metadata: &Option<LinksMetadata>) -> (r: Self)
        ensures
            r.deep_view() == federation_names(metadata.deep_view()),
    {
        let link: Option<&Link> = match metadata {
            Some(links) => links.by_identity.get("https://specs.apollo.dev/federation"),
            None => None,
        };
        DirectiveNames {
            key: name_by_link(link, "key"),
            requires_: name_by_link(link, "requires"),
            provides: name_by_link(link, "provides"),
            external: name_by_link(link, "external"),
            interface_object: name_by_link(link, "interfaceObject"),
            override_: name_by_link(link, "override"),
            inaccessible: name_by_link(link, "inaccessible"),
        }
    }
}

/// Whether a directive of the given name is applied.
pub open spec fn has_directive(directives: Seq<DirectiveView>, name: Text) -> bool {
    exists|i: int| 0 <= i < directives.len() && (#[trigger] directives[i]).name == name
}

/// The first directive of the given name.
pub open spec fn first_directive(directives: Seq<DirectiveView>, name: Text) -> Option<
    DirectiveView,
>
    decreases directives.len(),
{
    if directives.len() == 0 {
        None
    } else if directives[0].name == name {
        Some(directives[0])
    } else {
        first_directive(directives.drop_first(), name)
    }
}

/// The directives of the given name, in their order.
pub open spec fn directives_named(directives: Seq<DirectiveView>, name: Text) -> Seq<
    DirectiveView,
> {
    directives.filter(|d: DirectiveView| d.name == name)
}

/// The value of the first argument of the given name.
pub open spec fn argument_value(arguments: Seq<ArgumentView>, name: Text) -> Option<ValueView>
    decreases arguments.len(),
{
    if arguments.len() == 0 {
        None
    } else if arguments[0].name == name {
        Some(arguments[0].value)
    } else {
        argument_value(arguments.drop_first(), name)
    }
}

/// The string value of an argument.
pub open spec fn string_value(directive: DirectiveView, name: Text) -> Option<Text> {
    match argument_value(directive.arguments, name) {
        Some(ValueView::String(text)) => Some(text),
        _ => None,
    }
}

/// The boolean value of an argument.
pub open spec fn bool_value(directive: DirectiveView, name: Text) -> Option<bool> {
    match argument_value(directive.arguments, name) {
        Some(ValueView::Boolean(b)) => Some(b),
        _ => None,
    }
}

/// Whether a directive of the given name is applied.
pub fn is_applied(directives: &Vec<Directive>, name: &str) -> (r: bool)
    ensures
        r == has_directive(directives.deep_view(), name@),
{
    let mut i: usize = 0;
    while i < directives.len()
        invariant
            i <= directives.len(),
            forall|j: int| 0 <= j < i ==> directives@[j].deep_view().name != name@,
        decreases directives.len() - i,
    {
        if same(&directives[i].name, name) {
            assert(directives.deep_view()[i as int].name == name@);
            return true;
        }
        i += 1;
    }
    assert forall|j: int| 0 <= j < directives.deep_view().len() implies (
    #[trigger] directives.deep_view()[j]).name != name@ by {
        assert(directives@[j].deep_view().name != name@);
    }
    false
}

/// The first directive of the given name.
pub fn first<'a>(directives: &'a Vec<Directive>, name: &str) -> (r: Option<&'a Directive>)
    ensures
        r.deep_view() == first_directive(directives.deep_view(), name@),
{
    let ghost all = directives.deep_view();
    assert(all.skip(0) =~= all);
    let mut i: usize = 0;
    while i < directives.len()
        invariant
            i <= directives.len(),
            all == directives.deep_view(),
            first_directive(all, name@) == first_directive(all.skip(i as int), name@),
        decreases directives.len() - i,
    {
        assert(all.skip(i as int)[0] == directives@[i as int].deep_view());
        assert(all.skip(i as int).drop_first() =~= all.skip(i + 1));
        if same(&directives[i].name, name) {
            return Some(&directives[i]);
        }
        i += 1;
    }
    assert(all.skip(i as int).len() == 0);
    None
}

/// The directives of the given name, in their order.
pub fn get_all(directives: &Vec<Directive>, name: &str) -> (r: Vec<Directive>)
    ensures
        r.deep_view() == directives_named(directives.deep_view(), name@),
{
    let ghost all = directives.deep_view();
    let ghost named = |d: DirectiveView| d.name == name@;
    let mut r: Vec<Directive> = Vec::new();
    let mut i: usize = 0;
    assert(all.take(0).filter(named) =~= Seq::empty()) by {
        reveal(Seq::filter);
    }
    assert(r.deep_view() =~= Seq::empty());
    while i < directives.len()
        invariant
            i <= directives.len(),
            all == directives.deep_view(),
            named == (|d: DirectiveView| d.name == name@),
            r.deep_view() == all.take(i as int).filter(named),
        decreases directives.len() - i,
    {
        let ghost before = r.deep_view();
        assert(all.take(i + 1).drop_last() =~= all.take(i as int));
        assert(all.take(i + 1).last() == directives@[i as int].deep_view());
        assert(all.take(i + 1).filter(named) == (if named(all[i as int]) {
            before.push(all[i as int])
        } else {
            before
        })) by {
            reveal(Seq::filter);
        }
        if same(&directives[i].name, name) {
            r.push(directives[i].clone());
            assert(r.deep_view() =~= before.push(all[i as int]));
        }
        i += 1;
    }
    assert(all.take(i as int) =~= all);
    r
}

/// The value of the first argument of the given name.
pub fn directive_arg_value<'a>(directive: &'a Directive, arg_name: &str) -> (r: Option<&'a Value>)
    ensures
        r.deep_view() == argument_value(directive.deep_view().arguments, arg_name@),
{
    let ghost all = directive.arguments.deep_view();
    assert(all.skip(0) =~= all);
    let mut i: usize = 0;
    while i < directive.arguments.len()
        invariant
            i <= directive.arguments.len(),
            all == directive.arguments.deep_view(),
            argument_value(all, arg_name@) == argument_value(all.skip(i as int), arg_name@),
        decreases directive.arguments.len() - i,
    {
        assert(all.skip(i as int)[0] == directive.arguments@[i as int].deep_view());
        assert(all.skip(i as int).drop_first() =~= all.skip(i + 1));
        if same(&directive.arguments[i].name, arg_name) {
            return Some(&directive.arguments[i].value);
        }
        i += 1;
    }
    assert(all.skip(i as int).len() == 0);
    None
}

/// The string value of an argument.
pub fn directive_string_arg_value<'a>(directive: &'a Directive, arg_name: &str) -> (r: Option<
    &'a str,
>)
    ensures
        r.deep_view() == string_value(directive.deep_view(), arg_name@),
{
    match directive_arg_value(directive, arg_name) {
        Some(Value::String(value)) => Some(value.as_str()),
        _ => None,
    }
}

/// The boolean value of an argument.
pub fn directive_bool_arg_value(directive: &Directive, arg_name: &str) -> (r: Option<bool>)
    ensures
        r == bool_value(directive.deep_view(), arg_name@),
{
    match directive_arg_value(directive, arg_name) {
        Some(Value::Boolean(value)) => Some(*value),
        _ => None,
    }
}

/// Every one of the key directives names its fields.
pub open spec fn keys_have_fields(keys: Seq<DirectiveView>) -> bool {
    forall|i: int|
        0 <= i < keys.len() ==> string_value(#[trigger] keys[i], "fields"@) is Some
}

/// The arguments that every `@join__type` of a type in a subgraph has.
pub open spec fn join_type_arguments(graph: Text, is_interface_object: bool) -> Seq<ArgumentView> {
    if is_interface_object {
        seq![enum_argument("graph"@, graph), bool_argument("isInterfaceObject"@, true)]
    } else {
        seq![enum_argument("graph"@, graph)]
    }
}

/// The `@join__type` for one key.
pub open spec fn join_type_for_key(
    graph: Text,
    is_interface_object: bool,
    key: DirectiveView,
) -> DirectiveView {
    let with_key = join_type_arguments(graph, is_interface_object).push(
        string_argument("key"@, string_value(key, "fields"@)->0),
    );
    DirectiveView {
        name: "join__type"@,
        arguments: if bool_value(key, "resolvable"@) == Some(false) {
            with_key.push(bool_argument("resolvable"@, false))
        } else {
            with_key
        },
    }
}

/// The `@join__type` directives of a type in a subgraph: one per key, or a single one without key.
pub open spec fn join_types(
    graph: Text,
    keys: Seq<DirectiveView>,
    is_interface_object: bool,
) -> Seq<DirectiveView> {
    if keys.len() == 0 {
        seq![
            DirectiveView {
                name: "join__type"@,
                arguments: join_type_arguments(graph, is_interface_object),
            },
        ]
    } else {
        keys.map_values(|key: DirectiveView| join_type_for_key(graph, is_interface_object, key))
    }
}

/// The `@join__type` directives of a type in a subgraph.
pub fn join_type_applied_directive(
    subgraph_name: &EnumValue,
    key_directives: &Vec<Directive>,
    is_interface_object: bool,
) -> (r: Vec<Directive>)
    requires
        keys_have_fields(key_directives.deep_view()),
    ensures
        r.deep_view() == join_types(
            subgraph_name.deep_view(),
            key_directives.deep_view(),
            is_interface_object,
        ),
{
    let ghost graph = subgraph_name.deep_view();
    let ghost keys = key_directives.deep_view();
    let mut arguments: Vec<Argument> = vec![
        new_enum_argument("graph", subgraph_name.to_name()),
    ];
    if is_interface_object {
        arguments.push(new_bool_argument("isInterfaceObject", is_interface_object));
    }
    assert(arguments.deep_view() =~= join_type_arguments(graph, is_interface_object));
    let join_type_directive = Directive { name: "join__type".to_owned(), arguments };
    let mut result: Vec<Directive> = Vec::new();
    let mut i: usize = 0;
    while i < key_directives.len()
        invariant
            i <= key_directives.len(),
            graph == subgraph_name.deep_view(),
            keys == key_directives.deep_view(),
            keys_have_fields(keys),
            join_type_directive.deep_view() == (DirectiveView {
                name: "join__type"@,
                arguments: join_type_arguments(graph, is_interface_object),
            }),
            result@.len() == i,
            forall|j: int|
                0 <= j < i ==> (#[trigger] result@[j]).deep_view() == join_type_for_key(
                    graph,
                    is_interface_object,
                    keys[j],
                ),
        decreases key_directives.len() - i,
    {
        let key_directive = &key_directives[i];
        assert(keys[i as int] == key_directive.deep_view());
        let mut with_key = join_type_directive.clone();
        let ghost base = with_key.arguments.deep_view();
        let field_set = directive_string_arg_value(key_directive, "fields").unwrap();
        with_key.arguments.push(new_string_argument("key", field_set));
        let ghost keyed = base.push(string_argument("key"@, field_set@));
        assert(with_key.arguments.deep_view() =~= keyed);
        let resolvable = match directive_bool_arg_value(key_directive, "resolvable") {
            Some(b) => b,
            None => true,
        };
        if !resolvable {
            with_key.arguments.push(new_bool_argument("resolvable", false));
            assert(with_key.arguments.deep_view() =~= keyed.push(
                bool_argument("resolvable"@, false),
            ));
        }
        result.push(with_key);
        i += 1;
    }
    if result.len() == 0 {
        result.push(join_type_directive);
    }
    assert(result.deep_view() =~= join_types(graph, keys, is_interface_object));
    result
}

/// The `@join__implements` for an interface that a type implements in a subgraph.
pub open spec fn join_implements(graph: Text, interface: Text) -> DirectiveView {
    DirectiveView {
        name: "join__implements"@,
        arguments: seq![
            enum_argument("graph"@, graph),
            string_argument("interface"@, interface),
        ],
    }
}

/// The `@join__implements` for an interface that a type implements in a subgraph.
pub fn join_implements_applied_directive(subgraph_name: &EnumValue, intf_name: &str) -> (r:
    Directive)
    ensures
        r.deep_view() == join_implements(subgraph_name.deep_view(), intf_name@),
{
    let arguments: Vec<Argument> = vec![
        new_enum_argument("graph", subgraph_name.to_name()),
        new_string_argument("interface", intf_name),
    ];
    assert(arguments.deep_view() =~= join_implements(
        subgraph_name.deep_view(),
        intf_name@,
    ).arguments);
    Directive { name: "join__implements".to_owned(), arguments }
}

/// The `@join__unionMember` for a member of a union in a subgraph.
pub open spec fn join_union_member(graph: Text, member: Text) -> DirectiveView {
    DirectiveView {
        name: "join__unionMember"@,
        arguments: seq![enum_argument("graph"@, graph), string_argument("member"@, member)],
    }
}

pub(crate) fn join_union_member_applied_directive(subgraph_name: &EnumValue, member: &str) -> (r:
    Directive)
    ensures
        r.deep_view() == join_union_member(subgraph_name.deep_view(), member@),
{
    let arguments: Vec<Argument> = vec![
        new_enum_argument("graph", subgraph_name.to_name()),
        new_string_argument("member", member),
    ];
    assert(arguments.deep_view() =~= join_union_member(
        subgraph_name.deep_view(),
        member@,
    ).arguments);
    Directive { name: "join__unionMember".to_owned(), arguments }
}

/// The `@join__enumValue` for a value of an enum in a subgraph.
pub open spec fn join_enum_value(graph: Text) -> DirectiveView {
    DirectiveView {
        name: "join__enumValue"@,
        arguments: seq![enum_argument("graph"@, graph)],
    }
}

pub(crate) fn join_enum_value_applied_directive(subgraph_name: &EnumValue) -> (r: Directive)
    ensures
        r.deep_view() == join_enum_value(subgraph_name.deep_view()),
{
    let arguments: Vec<Argument> = vec![
        new_enum_argument("graph", subgraph_name.to_name()),
    ];
    assert(arguments.deep_view() =~= join_enum_value(subgraph_name.deep_view()).arguments);
    Directive { name: "join__enumValue".to_owned(), arguments }
}

/// The argument, or nothing.
pub open spec fn optional_argument(name: Text, value: Option<Text>) -> Seq<ArgumentView> {
    match value {
        Some(text) => seq![string_argument(name, text)],
        None => Seq::empty(),
    }
}

/// The arguments for an override: where the field comes from and the label of the override.
pub open spec fn override_arguments(overrides: Option<(Text, Option<Text>)>) -> Seq<ArgumentView> {
    match overrides {
        Some((from, label)) => seq![string_argument("override"@, from)] + optional_argument(
            "overrideLabel"@,
            label,
        ),
        None => Seq::empty(),
    }
}

/// The `@join__field` for a field of a type in a subgraph.
pub open spec fn join_field(
    graph: Text,
    requires_: Option<Text>,
    provides: Option<Text>,
    external: bool,
    overrides: Option<(Text, Option<Text>)>,
    ty: Option<TypeView>,
) -> DirectiveView {
    let external_arguments = if external {
        seq![bool_argument("external"@, true)]
    } else {
        Seq::empty()
    };
    let type_arguments = match ty {
        Some(t) => seq![string_argument("type"@, type_text(t))],
        None => Seq::empty(),
    };
    DirectiveView {
        name: "join__field"@,
        arguments: seq![enum_argument("graph"@, graph)] + optional_argument(
            "requires"@,
            requires_,
        ) + optional_argument("provides"@, provides) + external_arguments + override_arguments(
            overrides,
        ) + type_arguments,
    }
}

fn push_argument(arguments: &mut Vec<Argument>, argument: Argument)
    ensures
        final(arguments).deep_view() == old(arguments).deep_view() + seq![argument.deep_view()],
{
    arguments.push(argument);
    assert(arguments.deep_view() =~= old(arguments).deep_view() + seq![argument.deep_view()]);
}

/// The `@join__field` for a field of a type in a subgraph.
pub fn join_field_applied_directive(
    subgraph_name: &EnumValue,
    requires_: Option<&str>,
    provides: Option<&str>,
    external: bool,
    overrides: Option<(&str, Option<&str>)>,
    ty: Option<&Type>,
) -> (r: Directive)
    ensures
        r.deep_view() == join_field(
            subgraph_name.deep_view(),
            requires_.deep_view(),
            provides.deep_view(),
            external,
            overrides.deep_view(),
            ty.deep_view(),
        ),
{
    let mut arguments: Vec<Argument> = vec![
        new_enum_argument("graph", subgraph_name.to_name()),
    ];
    assert(arguments.deep_view() =~= seq![enum_argument("graph"@, subgraph_name.deep_view())]);
    let ghost a1 = arguments.deep_view();
    if let Some(required_fields) = requires_ {
        push_argument(&mut arguments, new_string_argument("requires", required_fields));
    }
    assert(arguments.deep_view() =~= a1 + optional_argument("requires"@, requires_.deep_view()));
    let ghost a2 = arguments.deep_view();
    if let Some(provided_fields) = provides {
        push_argument(&mut arguments, new_string_argument("provides", provided_fields));
    }
    assert(arguments.deep_view() =~= a2 + optional_argument("provides"@, provides.deep_view()));
    let ghost a3 = arguments.deep_view();
    if external {
        push_argument(&mut arguments, new_bool_argument("external", external));
    }
    assert(arguments.deep_view() =~= a3 + (if external {
        seq![bool_argument("external"@, true)]
    } else {
        Seq::empty()
    }));
    let ghost a4 = arguments.deep_view();
    if let Some((from, label)) = overrides {
        push_argument(&mut arguments, new_string_argument("override", from));
        if let Some(label) = label {
            push_argument(&mut arguments, new_string_argument("overrideLabel", label));
        }
    }
    assert(arguments.deep_view() =~= a4 + override_arguments(overrides.deep_view()));
    let ghost a5 = arguments.deep_view();
    if let Some(ty) = ty {
        push_argument(&mut arguments, new_string_argument("type", &ty.to_text()));
    }
    assert(arguments.deep_view() =~= a5 + (match ty.deep_view() {
        Some(t) => seq![string_argument("type"@, type_text(t))],
        None => Seq::empty(),
    }));
    Directive { name: "join__field".to_owned(), arguments }
}

} // verus!
