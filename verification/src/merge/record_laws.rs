//! What the supergraph records of the parts of its types in each subgraph.

use crate::ast::type_text;
use crate::ast::ArgumentView;
use crate::ast::DirectiveView;
use crate::ast::EnumValueDefinitionView;
use crate::ast::FieldView;
use crate::ast::InputValueView;
use crate::ast::TypeView;
use crate::ast::ValueView;
use crate::collections::has_key;
use crate::collections::lemma_key_index;
use crate::collections::lemma_value_of_put;
use crate::collections::put;
use crate::collections::set_with;
use crate::collections::value_of;
use crate::collections::value_or;
use crate::collections::Entries;
use crate::link::LinksMetadataView;
use crate::merge::choose_values;
use crate::merge::copies::copied_enum;
use crate::merge::copies::copied_input;
use crate::merge::copies::copied_input_object;
use crate::merge::copies::copied_interface;
use crate::merge::copies::copied_object;
use crate::merge::copies::copied_scalar;
use crate::merge::copies::copied_union;
use crate::merge::copies::is_federation_field;
use crate::merge::core_features::bool_argument;
use crate::merge::core_features::enum_argument;
use crate::merge::core_features::string_argument;
use crate::merge::core_features::with_join_feature;
use crate::merge::core_features::with_link_feature;
use crate::merge::directives::argument_value;
use crate::merge::directives::bool_value;
use crate::merge::directives::directives_named;
use crate::merge::directives::federation_name;
use crate::merge::directives::federation_names;
use crate::merge::directives::first_directive;
use crate::merge::directives::has_directive;
use crate::merge::directives::join_enum_value;
use crate::merge::directives::join_field;
use crate::merge::directives::join_implements;
use crate::merge::directives::join_types;
use crate::merge::directives::join_type_arguments;
use crate::merge::directives::join_type_for_key;
use crate::merge::directives::join_union_member;
use crate::merge::directives::optional_argument;
use crate::merge::directives::override_arguments;
use crate::merge::directives::string_value;
use crate::merge::directives::DirectiveNamesView;
use crate::merge::interface_object_field;
use crate::merge::join_laws::directives_of;
use crate::merge::join_laws::same_kind;
use crate::merge::join_laws::takes_up;
use crate::merge::mergeable_type;
use crate::merge::merged_subgraphs;
use crate::merge::merged_type;
use crate::merge::merged_types;
use crate::merge::merger::after_description;
use crate::merge::merger::after_inaccessible;
use crate::merge::merger::directive_text;
use crate::merge::merger::field_override;
use crate::merge::merger::field_stub;
use crate::merge::merger::merged_enum;
use crate::merge::merger::merged_enum_value;
use crate::merge::merger::merged_enum_values;
use crate::merge::merger::merged_implements;
use crate::merge::merger::merged_input_field;
use crate::merge::merger::merged_input_fields;
use crate::merge::merger::merged_input_object;
use crate::merge::merger::merged_interface;
use crate::merge::merger::merged_interface_field;
use crate::merge::merger::merged_interface_fields;
use crate::merge::merger::merged_interface_object;
use crate::merge::merger::merged_members;
use crate::merge::merger::merged_object;
use crate::merge::merger::merged_object_field;
use crate::merge::merger::merged_object_fields;
use crate::merge::merger::merged_union;
use crate::merge::merger::object_join_field;
use crate::merge::merger::with_inaccessible;
use crate::merge::merger::MergerView;
use crate::merge::merger::TypeEntries;
use crate::merge::merge_result;
use crate::merge::new_merger;
use crate::merge::sorted_by_name;
use crate::merge::with_implementer_fields;
use crate::merge::with_interface_fields;
use crate::merge::with_interface_object_fields;
use crate::merge::MergeOutcome;
use crate::merge::SubgraphView;
use crate::operation::defer_laws::lemma_says;
use crate::operation::defer_laws::says;
use crate::operation::defer_laws::says_nothing;
use crate::schema::implementers_of;
use crate::schema::type_is_built_in;
use crate::schema::EnumView;
use crate::schema::ExtendedTypeView;
use crate::schema::ImplementersView;
use crate::schema::InputObjectView;
use crate::schema::InterfaceView;
use crate::schema::ObjectView;
use crate::schema::ScalarView;
use crate::schema::SchemaView;
use crate::schema::UnionView;
use crate::text::Text;
use vstd::prelude::*;

verus! {

// What a directive of a subgraph tells.

/// Whether the first directive of the given name has the given text as an argument.
pub open spec fn tells(
    directives: Seq<DirectiveView>,
    name: Text,
    argument: Text,
    text: Text,
) -> bool {
    exists|i: int|
        {
            &&& 0 <= i < directives.len()
            &&& (#[trigger] directives[i]).name == name
            &&& says(directives[i].arguments, argument, ValueView::String(text))
            &&& forall|j: int| 0 <= j < i ==> (#[trigger] directives[j]).name != name
        }
}

proof fn lemma_tells(directives: Seq<DirectiveView>, name: Text, argument: Text)
    ensures
        forall|text: Text|
            tells(directives, name, argument, text) == (directive_text(directives, name, argument)
                == Some(text)),
    decreases directives.len(),
{
    if directives.len() > 0 {
        let rest = directives.drop_first();
        lemma_tells(rest, name, argument);
        lemma_says(directives[0].arguments, argument);
        assert forall|text: Text|
            tells(directives, name, argument, text) == (directive_text(directives, name, argument)
                == Some(text)) by {
            if tells(directives, name, argument, text) {
                let i = choose|i: int|
                    {
                        &&& 0 <= i < directives.len()
                        &&& (#[trigger] directives[i]).name == name
                        &&& says(directives[i].arguments, argument, ValueView::String(text))
                        &&& forall|j: int| 0 <= j < i ==> (#[trigger] directives[j]).name != name
                    };
                if i > 0 {
                    assert(directives[0].name != name);
                    assert(rest[i - 1] == directives[i]);
                    assert forall|j: int| 0 <= j < i - 1 implies (#[trigger] rest[j]).name != name by {
                        assert(rest[j] == directives[j + 1]);
                    }
                    assert(tells(rest, name, argument, text));
                }
            }
            if directive_text(directives, name, argument) == Some(text) {
                if directives[0].name == name {
                    assert(tells(directives, name, argument, text));
                } else {
                    assert(directive_text(rest, name, argument) == Some(text));
                    assert(tells(rest, name, argument, text));
                    let i = choose|i: int|
                        {
                            &&& 0 <= i < rest.len()
                            &&& (#[trigger] rest[i]).name == name
                            &&& says(rest[i].arguments, argument, ValueView::String(text))
                            &&& forall|j: int| 0 <= j < i ==> (#[trigger] rest[j]).name != name
                        };
                    assert(directives[i + 1] == rest[i]);
                    assert forall|j: int| 0 <= j < i + 1 implies (#[trigger] directives[j]).name
                        != name by {
                        if j > 0 {
                            assert(directives[j] == rest[j - 1]);
                        }
                    }
                    assert(tells(directives, name, argument, text));
                }
            }
        }
    }
}

proof fn lemma_is_applied(directives: Seq<DirectiveView>, name: Text)
    ensures
        has_directive(directives, name) == (first_directive(directives, name) is Some),
    decreases directives.len(),
{
    if directives.len() > 0 {
        let rest = directives.drop_first();
        lemma_is_applied(rest, name);
        if has_directive(directives, name) {
            let i = choose|i: int| 0 <= i < directives.len() && (#[trigger] directives[i]).name
                == name;
            if i > 0 {
                assert(rest[i - 1].name == name);
            }
        }
        if has_directive(rest, name) {
            let i = choose|i: int| 0 <= i < rest.len() && (#[trigger] rest[i]).name == name;
            assert(directives[i + 1].name == name);
        }
        if directives[0].name == name {
            assert(has_directive(directives, name));
        }
    }
}

// What a directive of the supergraph records.

/// Whether a directive records an argument as a text exactly where a condition on the text holds.
pub open spec fn records_text(
    directive: DirectiveView,
    argument: Text,
    told: spec_fn(Text) -> bool,
) -> bool {
    &&& forall|text: Text| #[trigger]
        says(directive.arguments, argument, ValueView::String(text)) == told(text)
    &&& says_nothing(directive.arguments, argument) || exists|text: Text|
        says(directive.arguments, argument, ValueView::String(text))
}

/// Whether a `@join__field` records a field of an object of a graph: what the field requires and
/// provides there, whether it is external, what it is overridden from and under which label, and
/// its type.
pub open spec fn records_field(
    directive: DirectiveView,
    graph: Text,
    links: Option<LinksMetadataView>,
    field: FieldView,
) -> bool {
    &&& directive.name == "join__field"@
    &&& says(directive.arguments, "graph"@, ValueView::Enum(graph))
    &&& records_text(
        directive,
        "requires"@,
        |text: Text|
            tells(field.directives, federation_name(links, "requires"@), "fields"@, text),
    )
    &&& records_text(
        directive,
        "provides"@,
        |text: Text|
            tells(field.directives, federation_name(links, "provides"@), "fields"@, text),
    )
    &&& records_text(
        directive,
        "override"@,
        |text: Text| tells(field.directives, federation_name(links, "override"@), "from"@, text),
    )
    &&& records_text(
        directive,
        "overrideLabel"@,
        |text: Text|
            {
                &&& tells(field.directives, federation_name(links, "override"@), "label"@, text)
                &&& exists|from: Text|
                    tells(field.directives, federation_name(links, "override"@), "from"@, from)
            },
    )
    &&& says(directive.arguments, "external"@, ValueView::Boolean(true)) == has_directive(
        field.directives,
        federation_name(links, "external"@),
    )
    &&& says_nothing(directive.arguments, "external"@) == !has_directive(
        field.directives,
        federation_name(links, "external"@),
    )
    &&& records_type(directive, field.ty)
}

/// Whether a directive records a type.
pub open spec fn records_type(directive: DirectiveView, ty: TypeView) -> bool {
    says(directive.arguments, "type"@, ValueView::String(type_text(ty)))
}

/// Whether a `@join__field` records a field of an interface or of an input object of a graph: its
/// type and nothing else.
pub open spec fn records_plain_field(directive: DirectiveView, graph: Text, ty: TypeView) -> bool {
    &&& directive.name == "join__field"@
    &&& directive.arguments.len() == 2
    &&& says(directive.arguments, "graph"@, ValueView::Enum(graph))
    &&& records_type(directive, ty)
}

/// Whether a directive of the given name says of a text that it is so in a graph, and nothing
/// else.
pub open spec fn records_name(
    directive: DirectiveView,
    name: Text,
    graph: Text,
    argument: Text,
    text: Text,
) -> bool {
    &&& directive.name == name
    &&& directive.arguments.len() == 2
    &&& says(directive.arguments, "graph"@, ValueView::Enum(graph))
    &&& says(directive.arguments, argument, ValueView::String(text))
}

/// Whether a `@join__enumValue` says that a value is in a graph.
pub open spec fn records_value(directive: DirectiveView, graph: Text) -> bool {
    &&& directive.name == "join__enumValue"@
    &&& directive.arguments.len() == 1
    &&& says(directive.arguments, "graph"@, ValueView::Enum(graph))
}

/// Whether a `@join__type` says that a type is in a graph, there as an object in the place of an
/// interface or not.
pub open spec fn records_presence(directive: DirectiveView, graph: Text, stands_in: bool) -> bool {
    &&& directive.name == "join__type"@
    &&& says(directive.arguments, "graph"@, ValueView::Enum(graph))
    &&& says(directive.arguments, "isInterfaceObject"@, ValueView::Boolean(true)) == stands_in
    &&& says_nothing(directive.arguments, "isInterfaceObject"@) == !stands_in
}

/// Whether a `@join__type` records a key of a type in a graph, and whether the graph resolves the
/// type by it.
pub open spec fn records_key(
    directive: DirectiveView,
    graph: Text,
    stands_in: bool,
    key: DirectiveView,
) -> bool {
    &&& records_presence(directive, graph, stands_in)
    &&& forall|fields: Text|
        says(key.arguments, "fields"@, ValueView::String(fields)) ==> #[trigger] says(
            directive.arguments,
            "key"@,
            ValueView::String(fields),
        )
    &&& says(directive.arguments, "resolvable"@, ValueView::Boolean(false)) == says(
        key.arguments,
        "resolvable"@,
        ValueView::Boolean(false),
    )
    &&& says_nothing(directive.arguments, "resolvable"@) == !says(
        key.arguments,
        "resolvable"@,
        ValueView::Boolean(false),
    )
}

// Reading arguments.

proof fn lemma_value_of_both(a: Seq<ArgumentView>, b: Seq<ArgumentView>, name: Text)
    ensures
        argument_value(a + b, name) == (match argument_value(a, name) {
            Some(value) => Some(value),
            None => argument_value(b, name),
        }),
    decreases a.len(),
{
    if a.len() == 0 {
        assert(a + b =~= b);
    } else {
        lemma_value_of_both(a.drop_first(), b, name);
        assert((a + b).drop_first() =~= a.drop_first() + b);
    }
}

proof fn lemma_value_of_one(argument: ArgumentView, name: Text)
    ensures
        argument_value(seq![argument], name) == (if argument.name == name {
            Some(argument.value)
        } else {
            None
        }),
{
    let one = seq![argument];
    assert(one.drop_first() =~= Seq::empty());
    assert(argument_value(one.drop_first(), name) is None);
}

proof fn lemma_optional(argument: Text, value: Option<Text>, name: Text)
    ensures
        argument_value(optional_argument(argument, value), name) == (if argument == name {
            match value {
                Some(text) => Some(ValueView::String(text)),
                None => None,
            }
        } else {
            None
        }),
{
    match value {
        Some(text) => {
            lemma_value_of_one(string_argument(argument, text), name);
        },
        None => {},
    }
}

proof fn lemma_names()
    ensures
        "graph"@ != "requires"@,
        "graph"@ != "provides"@,
        "graph"@ != "override"@,
        "graph"@ != "overrideLabel"@,
        "graph"@ != "external"@,
        "graph"@ != "type"@,
        "requires"@ != "provides"@,
        "requires"@ != "override"@,
        "requires"@ != "overrideLabel"@,
        "requires"@ != "external"@,
        "requires"@ != "type"@,
        "provides"@ != "override"@,
        "provides"@ != "overrideLabel"@,
        "provides"@ != "external"@,
        "provides"@ != "type"@,
        "override"@ != "overrideLabel"@,
        "override"@ != "external"@,
        "override"@ != "type"@,
        "overrideLabel"@ != "external"@,
        "overrideLabel"@ != "type"@,
        "external"@ != "type"@,
        "graph"@ != "isInterfaceObject"@,
        "graph"@ != "key"@,
        "graph"@ != "resolvable"@,
        "isInterfaceObject"@ != "key"@,
        "isInterfaceObject"@ != "resolvable"@,
        "key"@ != "resolvable"@,
        "graph"@ != "interface"@,
        "graph"@ != "member"@,
{
    reveal_strlit("graph");
    reveal_strlit("requires");
    reveal_strlit("provides");
    reveal_strlit("override");
    reveal_strlit("overrideLabel");
    reveal_strlit("external");
    reveal_strlit("type");
    reveal_strlit("isInterfaceObject");
    reveal_strlit("key");
    reveal_strlit("resolvable");
    reveal_strlit("interface");
    reveal_strlit("member");
    assert("graph"@[0] == 'g');
    assert("requires"@[0] == 'r' && "requires"@[2] == 'q');
    assert("provides"@[0] == 'p');
    assert("override"@[0] == 'o');
    assert("overrideLabel"@[0] == 'o');
    assert("override"@.len() == 8 && "overrideLabel"@.len() == 13);
    assert("external"@[0] == 'e');
    assert("type"@[0] == 't');
    assert("isInterfaceObject"@[0] == 'i');
    assert("key"@[0] == 'k');
    assert("resolvable"@[0] == 'r');
    assert("interface"@[0] == 'i');
    assert("member"@[0] == 'm');
}

/// The values of the arguments of a `@join__field`.
proof fn lemma_join_field(
    graph: Text,
    requires_: Option<Text>,
    provides: Option<Text>,
    external: bool,
    overrides: Option<(Text, Option<Text>)>,
    ty: TypeView,
    name: Text,
)
    ensures
        argument_value(
            join_field(graph, requires_, provides, external, overrides, Some(ty)).arguments,
            name,
        ) == (if name == "graph"@ {
            Some(ValueView::Enum(graph))
        } else if name == "requires"@ {
            match requires_ {
                Some(text) => Some(ValueView::String(text)),
                None => None,
            }
        } else if name == "provides"@ {
            match provides {
                Some(text) => Some(ValueView::String(text)),
                None => None,
            }
        } else if name == "external"@ {
            if external {
                Some(ValueView::Boolean(true))
            } else {
                None
            }
        } else if name == "override"@ {
            match overrides {
                Some((text, _)) => Some(ValueView::String(text)),
                None => None,
            }
        } else if name == "overrideLabel"@ {
            match overrides {
                Some((_, Some(text))) => Some(ValueView::String(text)),
                _ => None,
            }
        } else if name == "type"@ {
            Some(ValueView::String(type_text(ty)))
        } else {
            None
        }),
{
    lemma_names();
    let a0 = seq![enum_argument("graph"@, graph)];
    let a1 = optional_argument("requires"@, requires_);
    let a2 = optional_argument("provides"@, provides);
    let a3 = if external {
        seq![bool_argument("external"@, true)]
    } else {
        Seq::empty()
    };
    let a4 = override_arguments(overrides);
    let a5 = seq![string_argument("type"@, type_text(ty))];
    lemma_value_of_one(enum_argument("graph"@, graph), name);
    lemma_optional("requires"@, requires_, name);
    lemma_optional("provides"@, provides, name);
    lemma_value_of_one(bool_argument("external"@, true), name);
    lemma_value_of_one(string_argument("type"@, type_text(ty)), name);
    match overrides {
        Some((from, label)) => {
            lemma_value_of_one(string_argument("override"@, from), name);
            lemma_optional("overrideLabel"@, label, name);
            lemma_value_of_both(
                seq![string_argument("override"@, from)],
                optional_argument("overrideLabel"@, label),
                name,
            );
        },
        None => {},
    }
    lemma_value_of_both(a0, a1, name);
    lemma_value_of_both(a0 + a1, a2, name);
    lemma_value_of_both(a0 + a1 + a2, a3, name);
    lemma_value_of_both(a0 + a1 + a2 + a3, a4, name);
    lemma_value_of_both(a0 + a1 + a2 + a3 + a4, a5, name);
}

proof fn lemma_records_text(
    directive: DirectiveView,
    argument: Text,
    value: Option<Text>,
    told: spec_fn(Text) -> bool,
)
    requires
        argument_value(directive.arguments, argument) == (match value {
            Some(text) => Some(ValueView::String(text)),
            None => None,
        }),
        forall|text: Text| #[trigger] told(text) == (value == Some(text)),
    ensures
        records_text(directive, argument, told),
{
    lemma_says(directive.arguments, argument);
    match value {
        Some(text) => {
            assert(says(directive.arguments, argument, ValueView::String(text)));
        },
        None => {},
    }
}

/// The `@join__field` of a field records it.
proof fn lemma_records_field(graph: Text, links: Option<LinksMetadataView>, field: FieldView)
    ensures
        records_field(object_join_field(federation_names(links), graph, field), graph, links, field),
{
    let names = federation_names(links);
    let d = object_join_field(names, graph, field);
    let directives = field.directives;
    let requires_ = directive_text(directives, names.requires_, "fields"@);
    let provides = directive_text(directives, names.provides, "fields"@);
    let external = first_directive(directives, names.external) is Some;
    let overrides = field_override(names, field);
    let from = federation_name(links, "override"@);
    lemma_join_field(graph, requires_, provides, external, overrides, field.ty, "graph"@);
    lemma_join_field(graph, requires_, provides, external, overrides, field.ty, "requires"@);
    lemma_join_field(graph, requires_, provides, external, overrides, field.ty, "provides"@);
    lemma_join_field(graph, requires_, provides, external, overrides, field.ty, "external"@);
    lemma_join_field(graph, requires_, provides, external, overrides, field.ty, "override"@);
    lemma_join_field(graph, requires_, provides, external, overrides, field.ty, "overrideLabel"@);
    lemma_join_field(graph, requires_, provides, external, overrides, field.ty, "type"@);
    lemma_names();
    lemma_tells(directives, federation_name(links, "requires"@), "fields"@);
    lemma_tells(directives, federation_name(links, "provides"@), "fields"@);
    lemma_tells(directives, from, "from"@);
    lemma_tells(directives, from, "label"@);
    lemma_is_applied(directives, federation_name(links, "external"@));
    lemma_says(d.arguments, "graph"@);
    lemma_says(d.arguments, "external"@);
    lemma_says(d.arguments, "type"@);
    lemma_records_text(
        d,
        "requires"@,
        requires_,
        |text: Text| tells(directives, federation_name(links, "requires"@), "fields"@, text),
    );
    lemma_records_text(
        d,
        "provides"@,
        provides,
        |text: Text| tells(directives, federation_name(links, "provides"@), "fields"@, text),
    );
    lemma_records_text(
        d,
        "override"@,
        directive_text(directives, from, "from"@),
        |text: Text| tells(directives, from, "from"@, text),
    );
    let label = match overrides {
        Some((_, label)) => label,
        None => None,
    };
    let told = |text: Text|
        {
            &&& tells(directives, from, "label"@, text)
            &&& exists|origin: Text| tells(directives, from, "from"@, origin)
        };
    assert forall|text: Text| #[trigger] told(text) == (label == Some(text)) by {
        if overrides is Some {
            let (origin, _) = overrides->0;
            assert(tells(directives, from, "from"@, origin));
        }
    }
    lemma_records_text(d, "overrideLabel"@, label, told);
}

/// Merging a field of an object of a subgraph adds to the field of the supergraph one
/// `@join__field`, which records the field: it says `requires` exactly if the field has
/// `@requires` in the subgraph, with the fields of that directive, and `provides` exactly if it
/// has `@provides`, with the fields of that one. What the field of the supergraph had stays, and
/// no other `@join__field` is added.
pub proof fn law_object_fields_are_recorded(
    m: MergerView,
    links: Option<LinksMetadataView>,
    graph: Text,
    merged: FieldView,
    new: FieldView,
)
    ensures
        ({
            let before = merged.directives;
            let after = merged_object_field(m, federation_names(links), graph, merged, new).1.directives;
            &&& before.len() < after.len()
            &&& after.take(before.len() as int) == before
            &&& records_field(after.last(), graph, links, new)
            &&& forall|i: int|
                before.len() <= i < after.len() - 1 ==> (#[trigger] after[i]).name
                    == "inaccessible"@
        }),
{
    lemma_records_field(graph, links, new);
    let after = merged_object_field(m, federation_names(links), graph, merged, new).1.directives;
    assert(after.take(merged.directives.len() as int) =~= merged.directives);
}

// The other directives.

proof fn lemma_records_plain_field(graph: Text, ty: TypeView)
    ensures
        records_plain_field(join_field(graph, None, None, false, None, Some(ty)), graph, ty),
{
    let d = join_field(graph, None, None, false, None, Some(ty));
    lemma_names();
    lemma_join_field(graph, None, None, false, None, ty, "graph"@);
    lemma_join_field(graph, None, None, false, None, ty, "type"@);
    lemma_says(d.arguments, "graph"@);
    lemma_says(d.arguments, "type"@);
}

proof fn lemma_two(a: ArgumentView, b: ArgumentView)
    requires
        a.name != b.name,
    ensures
        says(seq![a, b], a.name, a.value),
        says(seq![a, b], b.name, b.value),
{
    let both = seq![a, b];
    assert(both[0] == a && both[1] == b);
}

proof fn lemma_records_names(graph: Text, text: Text)
    ensures
        records_name(
            join_implements(graph, text),
            "join__implements"@,
            graph,
            "interface"@,
            text,
        ),
        records_name(join_union_member(graph, text), "join__unionMember"@, graph, "member"@, text),
        records_value(join_enum_value(graph), graph),
{
    lemma_names();
    lemma_two(enum_argument("graph"@, graph), string_argument("interface"@, text));
    lemma_two(enum_argument("graph"@, graph), string_argument("member"@, text));
    let value = join_enum_value(graph);
    assert(value.arguments[0] == enum_argument("graph"@, graph));
}

proof fn lemma_records_presence(graph: Text, stands_in: bool)
    ensures
        records_presence(
            DirectiveView {
                name: "join__type"@,
                arguments: join_type_arguments(graph, stands_in),
            },
            graph,
            stands_in,
        ),
        says_nothing(join_type_arguments(graph, stands_in), "key"@),
{
    let arguments = join_type_arguments(graph, stands_in);
    lemma_names();
    lemma_says(arguments, "isInterfaceObject"@);
    if stands_in {
        lemma_two(enum_argument("graph"@, graph), bool_argument("isInterfaceObject"@, true));
    } else {
        assert(arguments[0] == enum_argument("graph"@, graph));
        assert(says(arguments, "graph"@, ValueView::Enum(graph)));
        assert(says_nothing(arguments, "isInterfaceObject"@));
    }
}

proof fn lemma_records_key(graph: Text, stands_in: bool, key: DirectiveView)
    ensures
        records_key(join_type_for_key(graph, stands_in, key), graph, stands_in, key),
{
    let start = join_type_arguments(graph, stands_in);
    let fields = string_argument("key"@, string_value(key, "fields"@)->0);
    let d = join_type_for_key(graph, stands_in, key);
    let rest = if bool_value(key, "resolvable"@) == Some(false) {
        seq![fields, bool_argument("resolvable"@, false)]
    } else {
        seq![fields]
    };
    assert(d.arguments =~= start + rest);
    lemma_names();
    lemma_records_presence(graph, stands_in);
    lemma_says(start, "graph"@);
    lemma_says(start, "isInterfaceObject"@);
    lemma_says(start, "key"@);
    assert(says_nothing(start, "resolvable"@));
    lemma_says(start, "resolvable"@);
    lemma_says(d.arguments, "graph"@);
    lemma_says(d.arguments, "isInterfaceObject"@);
    lemma_says(d.arguments, "key"@);
    lemma_says(d.arguments, "resolvable"@);
    lemma_says(key.arguments, "fields"@);
    lemma_says(key.arguments, "resolvable"@);
    lemma_value_of_both(start, rest, "graph"@);
    lemma_value_of_both(start, rest, "isInterfaceObject"@);
    lemma_value_of_both(start, rest, "key"@);
    lemma_value_of_both(start, rest, "resolvable"@);
    lemma_says(rest, "isInterfaceObject"@);
    lemma_says(rest, "resolvable"@);
    lemma_says(rest, "key"@);
    assert(says_nothing(rest, "isInterfaceObject"@));
    assert(rest[0] == fields);
    assert(says(rest, "key"@, fields.value));
    if bool_value(key, "resolvable"@) == Some(false) {
        lemma_two(fields, bool_argument("resolvable"@, false));
    } else {
        assert(says_nothing(rest, "resolvable"@));
    }
}

// What is said of a part of a type.

/// Whether one of the directives has a property.
pub open spec fn some_directive(
    directives: Seq<DirectiveView>,
    property: spec_fn(DirectiveView) -> bool,
) -> bool {
    exists|i: int| 0 <= i < directives.len() && property(#[trigger] directives[i])
}

/// The directives of a type, or of its field or value of the given name.
pub open spec fn directives_at(ty: ExtendedTypeView, part: Option<Text>) -> Seq<DirectiveView> {
    match part {
        None => directives_of(ty),
        Some(name) => match ty {
            ExtendedTypeView::Object(t) => match value_of(t.fields, name) {
                Some(field) => field.directives,
                None => Seq::empty(),
            },
            ExtendedTypeView::Interface(t) => match value_of(t.fields, name) {
                Some(field) => field.directives,
                None => Seq::empty(),
            },
            ExtendedTypeView::InputObject(t) => match value_of(t.fields, name) {
                Some(field) => field.directives,
                None => Seq::empty(),
            },
            ExtendedTypeView::Enum(t) => match value_of(t.values, name) {
                Some(value) => value.directives,
                None => Seq::empty(),
            },
            _ => Seq::empty(),
        },
    }
}

/// Whether one of the directives of a type or of its part has a property.
pub open spec fn said(
    ty: ExtendedTypeView,
    part: Option<Text>,
    property: spec_fn(DirectiveView) -> bool,
) -> bool {
    some_directive(directives_at(ty, part), property)
}

/// Whether a mark of a subgraph that something is inaccessible shows in a property.
spec fn marks(
    names: DirectiveNamesView,
    original: Seq<DirectiveView>,
    property: spec_fn(DirectiveView) -> bool,
) -> bool {
    has_directive(original, names.inaccessible) && forall|d: DirectiveView|
        d.name == "inaccessible"@ ==> #[trigger] property(d)
}

proof fn lemma_begin(
    after: Seq<DirectiveView>,
    before: Seq<DirectiveView>,
    property: spec_fn(DirectiveView) -> bool,
)
    requires
        before.len() <= after.len(),
        forall|i: int| 0 <= i < before.len() ==> #[trigger] after[i] == before[i],
        some_directive(before, property),
    ensures
        some_directive(after, property),
{
    let i = choose|i: int| 0 <= i < before.len() && property(#[trigger] before[i]);
    assert(property(after[i]));
}

proof fn lemma_marked(
    names: DirectiveNamesView,
    merged: Seq<DirectiveView>,
    original: Seq<DirectiveView>,
    property: spec_fn(DirectiveView) -> bool,
)
    ensures
        some_directive(merged, property) || marks(names, original, property) ==> some_directive(
            with_inaccessible(names, merged, original),
            property,
        ),
{
    let after = with_inaccessible(names, merged, original);
    if some_directive(merged, property) {
        lemma_begin(after, merged, property);
    } else if marks(names, original, property) {
        if has_directive(merged, "inaccessible"@) {
            let i = choose|i: int| 0 <= i < merged.len() && (#[trigger] merged[i]).name
                == "inaccessible"@;
            assert(property(after[i]));
        } else {
            assert(after.last().name == "inaccessible"@);
            assert(property(after[merged.len() as int]));
        }
    }
}

/// The directives of a part with the mark of a subgraph and one more.
proof fn lemma_pushed(
    names: DirectiveNamesView,
    merged: Seq<DirectiveView>,
    original: Seq<DirectiveView>,
    last: DirectiveView,
    property: spec_fn(DirectiveView) -> bool,
)
    ensures
        some_directive(merged, property) || marks(names, original, property) || property(last)
            ==> some_directive(
            with_inaccessible(names, merged, original).push(last),
            property,
        ),
{
    lemma_marked(names, merged, original, property);
    let marked = with_inaccessible(names, merged, original);
    let after = marked.push(last);
    assert(after[marked.len() as int] == last);
    if some_directive(marked, property) {
        lemma_begin(after, marked, property);
    }
}

// Fields and values.

/// Whether the first entry of the given name has a directive with a property.
spec fn entry_says<T>(
    entries: Entries<T>,
    name: Text,
    directives: spec_fn(T) -> Seq<DirectiveView>,
    property: spec_fn(DirectiveView) -> bool,
) -> bool {
    value_of(entries, name) matches Some(entry) && some_directive(directives(entry), property)
}

proof fn lemma_put_says<T>(
    entries: Entries<T>,
    key: Text,
    value: T,
    name: Text,
    directives: spec_fn(T) -> Seq<DirectiveView>,
    property: spec_fn(DirectiveView) -> bool,
)
    requires
        entry_says(entries, key, directives, property) ==> some_directive(
            directives(value),
            property,
        ),
    ensures
        entry_says(entries, name, directives, property) ==> entry_says(
            put(entries, key, value),
            name,
            directives,
            property,
        ),
        key == name && some_directive(directives(value), property) ==> entry_says(
            put(entries, key, value),
            name,
            directives,
            property,
        ),
{
    lemma_value_of_put(entries, key, value, name);
}

spec fn field_directives() -> spec_fn(FieldView) -> Seq<DirectiveView> {
    |field: FieldView| field.directives
}

spec fn input_directives() -> spec_fn(InputValueView) -> Seq<DirectiveView> {
    |field: InputValueView| field.directives
}

spec fn value_directives() -> spec_fn(EnumValueDefinitionView) -> Seq<DirectiveView> {
    |value: EnumValueDefinitionView| value.directives
}

proof fn lemma_object_fields_say(
    m: MergerView,
    names: DirectiveNamesView,
    graph: Text,
    merged: Entries<FieldView>,
    new: Entries<FieldView>,
    n: nat,
    part: Text,
    property: spec_fn(DirectiveView) -> bool,
)
    requires
        n <= new.len(),
    ensures
        ({
            let after = merged_object_fields(m, names, graph, merged, new, n).1;
            &&& entry_says(merged, part, field_directives(), property) ==> entry_says(
                after,
                part,
                field_directives(),
                property,
            )
            &&& forall|j: int|
                0 <= j < n && (#[trigger] new[j]).0 == part && !is_federation_field(part) && (
                property(object_join_field(names, graph, new[j].1)) || marks(
                    names,
                    new[j].1.directives,
                    property,
                )) ==> entry_says(after, part, field_directives(), property)
        }),
    decreases n,
{
    if n > 0 {
        lemma_object_fields_say(m, names, graph, merged, new, (n - 1) as nat, part, property);
        let (m1, before) = merged_object_fields(m, names, graph, merged, new, (n - 1) as nat);
        let (name, field) = new[n - 1];
        if !is_federation_field(name) {
            let start = value_or(before, name, field_stub(field));
            let result = merged_object_field(m1, names, graph, start, field).1;
            lemma_pushed(
                names,
                start.directives,
                field.directives,
                object_join_field(names, graph, field),
                property,
            );
            lemma_put_says(before, name, result, part, field_directives(), property);
        }
    }
}

proof fn lemma_interface_fields_say(
    m: MergerView,
    names: DirectiveNamesView,
    graph: Text,
    merged: Entries<FieldView>,
    new: Entries<FieldView>,
    n: nat,
    part: Text,
    property: spec_fn(DirectiveView) -> bool,
)
    requires
        n <= new.len(),
    ensures
        ({
            let after = merged_interface_fields(m, names, graph, merged, new, n).1;
            &&& entry_says(merged, part, field_directives(), property) ==> entry_says(
                after,
                part,
                field_directives(),
                property,
            )
            &&& forall|j: int|
                0 <= j < n && (#[trigger] new[j]).0 == part && (property(
                    join_field(graph, None, None, false, None, Some(new[j].1.ty)),
                ) || marks(names, new[j].1.directives, property)) ==> entry_says(
                    after,
                    part,
                    field_directives(),
                    property,
                )
        }),
    decreases n,
{
    if n > 0 {
        lemma_interface_fields_say(m, names, graph, merged, new, (n - 1) as nat, part, property);
        let (m1, before) = merged_interface_fields(m, names, graph, merged, new, (n - 1) as nat);
        let (name, field) = new[n - 1];
        let start = value_or(before, name, field_stub(field));
        let result = merged_interface_field(m1, names, graph, start, field).1;
        lemma_pushed(
            names,
            start.directives,
            field.directives,
            join_field(graph, None, None, false, None, Some(field.ty)),
            property,
        );
        lemma_put_says(before, name, result, part, field_directives(), property);
    }
}

proof fn lemma_input_fields_say(
    m: MergerView,
    names: DirectiveNamesView,
    graph: Text,
    merged: Entries<InputValueView>,
    new: Entries<InputValueView>,
    n: nat,
    part: Text,
    property: spec_fn(DirectiveView) -> bool,
)
    requires
        n <= new.len(),
    ensures
        ({
            let after = merged_input_fields(m, names, graph, merged, new, n).1;
            &&& entry_says(merged, part, input_directives(), property) ==> entry_says(
                after,
                part,
                input_directives(),
                property,
            )
            &&& forall|j: int|
                0 <= j < n && (#[trigger] new[j]).0 == part && (property(
                    join_field(graph, None, None, false, None, Some(new[j].1.ty)),
                ) || marks(names, new[j].1.directives, property)) ==> entry_says(
                    after,
                    part,
                    input_directives(),
                    property,
                )
        }),
    decreases n,
{
    if n > 0 {
        lemma_input_fields_say(m, names, graph, merged, new, (n - 1) as nat, part, property);
        let (m1, before) = merged_input_fields(m, names, graph, merged, new, (n - 1) as nat);
        let (name, field) = new[n - 1];
        let start = value_or(before, name, copied_input(field));
        let result = merged_input_field(m1, names, graph, start, field).1;
        lemma_pushed(
            names,
            start.directives,
            field.directives,
            join_field(graph, None, None, false, None, Some(field.ty)),
            property,
        );
        lemma_put_says(before, name, result, part, input_directives(), property);
    }
}

proof fn lemma_enum_values_say(
    m: MergerView,
    names: DirectiveNamesView,
    graph: Text,
    merged: Entries<EnumValueDefinitionView>,
    new: Entries<EnumValueDefinitionView>,
    n: nat,
    part: Text,
    property: spec_fn(DirectiveView) -> bool,
)
    requires
        n <= new.len(),
    ensures
        ({
            let after = merged_enum_values(m, names, graph, merged, new, n).1;
            &&& entry_says(merged, part, value_directives(), property) ==> entry_says(
                after,
                part,
                value_directives(),
                property,
            )
            &&& forall|j: int|
                0 <= j < n && (#[trigger] new[j]).0 == part && (property(join_enum_value(graph))
                    || marks(names, new[j].1.directives, property)) ==> entry_says(
                    after,
                    part,
                    value_directives(),
                    property,
                )
        }),
    decreases n,
{
    if n > 0 {
        lemma_enum_values_say(m, names, graph, merged, new, (n - 1) as nat, part, property);
        let (m1, before) = merged_enum_values(m, names, graph, merged, new, (n - 1) as nat);
        let (name, value) = new[n - 1];
        let stub = EnumValueDefinitionView {
            value: value.value,
            description: None,
            directives: Seq::empty(),
        };
        let start = value_or(before, name, stub);
        let result = merged_enum_value(m1, names, graph, start, value).1;
        lemma_pushed(
            names,
            start.directives,
            value.directives,
            join_enum_value(graph),
            property,
        );
        lemma_put_says(before, name, result, part, value_directives(), property);
    }
}

proof fn lemma_implements_say(
    graph: Text,
    interfaces: Seq<Text>,
    directives: Seq<DirectiveView>,
    new: Seq<Text>,
    n: nat,
    property: spec_fn(DirectiveView) -> bool,
)
    requires
        n <= new.len(),
    ensures
        ({
            let after = merged_implements(graph, interfaces, directives, new, n).1;
            &&& some_directive(directives, property) ==> some_directive(after, property)
            &&& forall|j: int|
                0 <= j < n && property(join_implements(graph, #[trigger] new[j]))
                    ==> some_directive(after, property)
        }),
    decreases n,
{
    if n > 0 {
        lemma_implements_say(graph, interfaces, directives, new, (n - 1) as nat, property);
        let before = merged_implements(graph, interfaces, directives, new, (n - 1) as nat).1;
        let after = merged_implements(graph, interfaces, directives, new, n).1;
        if some_directive(before, property) {
            lemma_begin(after, before, property);
        }
        assert(after[before.len() as int] == join_implements(graph, new[n - 1]));
    }
}

proof fn lemma_members_say(
    graph: Text,
    members: Seq<Text>,
    directives: Seq<DirectiveView>,
    new: Seq<Text>,
    n: nat,
    property: spec_fn(DirectiveView) -> bool,
)
    requires
        n <= new.len(),
    ensures
        ({
            let after = merged_members(graph, members, directives, new, n).1;
            &&& some_directive(directives, property) ==> some_directive(after, property)
            &&& forall|j: int|
                0 <= j < n && property(join_union_member(graph, #[trigger] new[j]))
                    ==> some_directive(after, property)
        }),
    decreases n,
{
    if n > 0 {
        lemma_members_say(graph, members, directives, new, (n - 1) as nat, property);
        let before = merged_members(graph, members, directives, new, (n - 1) as nat).1;
        let after = merged_members(graph, members, directives, new, n).1;
        if some_directive(before, property) {
            lemma_begin(after, before, property);
        }
        assert(after[before.len() as int] == join_union_member(graph, new[n - 1]));
    }
}

// One type.

/// The keys that a type has in a subgraph.
spec fn keys_of(names: DirectiveNamesView, ty: ExtendedTypeView) -> Seq<DirectiveView> {
    match ty {
        ExtendedTypeView::Object(t) => directives_named(t.directives, names.key),
        ExtendedTypeView::Interface(t) => directives_named(t.directives, names.key),
        _ => Seq::empty(),
    }
}

/// Whether a type of a subgraph adds a directive with a property to its part in the supergraph.
spec fn adds(
    names: DirectiveNamesView,
    graph: Text,
    stands_in: bool,
    ty: ExtendedTypeView,
    part: Option<Text>,
    property: spec_fn(DirectiveView) -> bool,
) -> bool {
    match part {
        None => {
            ||| marks(names, directives_of(ty), property)
            ||| some_directive(join_types(graph, keys_of(names, ty), stands_in), property)
            ||| match ty {
                ExtendedTypeView::Object(t) => !stands_in && exists|j: int|
                    0 <= j < t.implements_interfaces.len() && property(
                        join_implements(graph, #[trigger] t.implements_interfaces[j]),
                    ),
                ExtendedTypeView::Interface(t) => exists|j: int|
                    0 <= j < t.implements_interfaces.len() && property(
                        join_implements(graph, #[trigger] t.implements_interfaces[j]),
                    ),
                ExtendedTypeView::Union(t) => exists|j: int|
                    0 <= j < t.members.len() && property(
                        join_union_member(graph, #[trigger] t.members[j]),
                    ),
                _ => false,
            }
        },
        Some(name) => match ty {
            ExtendedTypeView::Object(t) => exists|j: int|
                0 <= j < t.fields.len() && (#[trigger] t.fields[j]).0 == name
                    && !is_federation_field(name) && (property(
                    object_join_field(names, graph, t.fields[j].1),
                ) || marks(names, t.fields[j].1.directives, property)),
            ExtendedTypeView::Interface(t) => exists|j: int|
                0 <= j < t.fields.len() && (#[trigger] t.fields[j]).0 == name && (property(
                    join_field(graph, None, None, false, None, Some(t.fields[j].1.ty)),
                ) || marks(names, t.fields[j].1.directives, property)),
            ExtendedTypeView::InputObject(t) => exists|j: int|
                0 <= j < t.fields.len() && (#[trigger] t.fields[j]).0 == name && (property(
                    join_field(graph, None, None, false, None, Some(t.fields[j].1.ty)),
                ) || marks(names, t.fields[j].1.directives, property)),
            ExtendedTypeView::Enum(t) => exists|j: int|
                0 <= j < t.values.len() && (#[trigger] t.values[j]).0 == name && (property(
                    join_enum_value(graph),
                ) || marks(names, t.values[j].1.directives, property)),
            _ => false,
        },
    }
}

/// Whether a merged type says what the one before it said and what a type of a subgraph adds.
spec fn is_said(
    merged: ExtendedTypeView,
    start: ExtendedTypeView,
    names: DirectiveNamesView,
    graph: Text,
    ty: ExtendedTypeView,
    part: Option<Text>,
    property: spec_fn(DirectiveView) -> bool,
) -> bool {
    said(start, part, property) || adds(
        names,
        graph,
        merged is Interface && ty is Object,
        ty,
        part,
        property,
    ) ==> said(merged, part, property)
}

proof fn lemma_type_directives(
    names: DirectiveNamesView,
    graph: Text,
    start: Seq<DirectiveView>,
    keys: Seq<DirectiveView>,
    stands_in: bool,
    original: Seq<DirectiveView>,
    property: spec_fn(DirectiveView) -> bool,
)
    ensures
        some_directive(start, property) || some_directive(
            join_types(graph, keys, stands_in),
            property,
        ) || marks(names, original, property) ==> some_directive(
            with_inaccessible(names, start + join_types(graph, keys, stands_in), original),
            property,
        ),
{
    let added = join_types(graph, keys, stands_in);
    let joined = start + added;
    lemma_marked(names, joined, original, property);
    if some_directive(start, property) {
        lemma_begin(joined, start, property);
    }
    if some_directive(added, property) {
        let i = choose|i: int| 0 <= i < added.len() && property(#[trigger] added[i]);
        assert(joined[start.len() + i] == added[i]);
    }
}

proof fn lemma_enum_says(
    m: MergerView,
    names: DirectiveNamesView,
    graph: Text,
    start: EnumView,
    new: EnumView,
    part: Option<Text>,
    property: spec_fn(DirectiveView) -> bool,
)
    ensures
        is_said(
            ExtendedTypeView::Enum(merged_enum(m, names, graph, start, new).1),
            ExtendedTypeView::Enum(start),
            names,
            graph,
            ExtendedTypeView::Enum(new),
            part,
            property,
        ),
{
    let joined = start.directives + join_types(graph, Seq::empty(), false);
    let marked = with_inaccessible(names, joined, new.directives);
    let m1 = after_inaccessible(m, names, joined, new.directives);
    let m2 = after_description(m1, start.description, new.description);
    match part {
        None => {
            lemma_type_directives(names, graph, start.directives, Seq::empty(), false, new.directives, property);
        },
        Some(name) => {
            lemma_enum_values_say(m2, names, graph, start.values, new.values, new.values.len(), name, property);
            assert(said(ExtendedTypeView::Enum(start), part, property) == entry_says(
                start.values,
                name,
                value_directives(),
                property,
            ));
        },
    }
}

proof fn lemma_input_says(
    m: MergerView,
    names: DirectiveNamesView,
    graph: Text,
    start: InputObjectView,
    new: InputObjectView,
    part: Option<Text>,
    property: spec_fn(DirectiveView) -> bool,
)
    ensures
        is_said(
            ExtendedTypeView::InputObject(merged_input_object(m, names, graph, start, new).1),
            ExtendedTypeView::InputObject(start),
            names,
            graph,
            ExtendedTypeView::InputObject(new),
            part,
            property,
        ),
{
    let joined = start.directives + join_types(graph, Seq::empty(), false);
    let marked = with_inaccessible(names, joined, new.directives);
    let m1 = after_inaccessible(m, names, joined, new.directives);
    match part {
        None => {
            lemma_type_directives(names, graph, start.directives, Seq::empty(), false, new.directives, property);
        },
        Some(name) => {
            lemma_input_fields_say(m1, names, graph, start.fields, new.fields, new.fields.len(), name, property);
            assert(said(ExtendedTypeView::InputObject(start), part, property) == entry_says(
                start.fields,
                name,
                input_directives(),
                property,
            ));
        },
    }
}

proof fn lemma_interface_says(
    m: MergerView,
    names: DirectiveNamesView,
    graph: Text,
    start: InterfaceView,
    new: InterfaceView,
    part: Option<Text>,
    property: spec_fn(DirectiveView) -> bool,
)
    ensures
        is_said(
            ExtendedTypeView::Interface(merged_interface(m, names, graph, start, new).1),
            ExtendedTypeView::Interface(start),
            names,
            graph,
            ExtendedTypeView::Interface(new),
            part,
            property,
        ),
{
    let joined = start.directives + join_types(graph, directives_named(new.directives, names.key), false);
    let marked = with_inaccessible(names, joined, new.directives);
    let m1 = after_inaccessible(m, names, joined, new.directives);
    match part {
        None => {
            lemma_type_directives(names, graph, start.directives, directives_named(new.directives, names.key), false, new.directives, property);
            lemma_implements_say(
                graph,
                start.implements_interfaces,
                marked,
                new.implements_interfaces,
                new.implements_interfaces.len(),
                property,
            );
        },
        Some(name) => {
            lemma_interface_fields_say(m1, names, graph, start.fields, new.fields, new.fields.len(), name, property);
            assert(said(ExtendedTypeView::Interface(start), part, property) == entry_says(
                start.fields,
                name,
                field_directives(),
                property,
            ));
        },
    }
}

proof fn lemma_object_says(
    m: MergerView,
    names: DirectiveNamesView,
    graph: Text,
    start: ObjectView,
    new: ObjectView,
    part: Option<Text>,
    property: spec_fn(DirectiveView) -> bool,
)
    ensures
        is_said(
            ExtendedTypeView::Object(merged_object(m, names, graph, start, new).1),
            ExtendedTypeView::Object(start),
            names,
            graph,
            ExtendedTypeView::Object(new),
            part,
            property,
        ),
{
    let joined = start.directives + join_types(graph, directives_named(new.directives, names.key), false);
    let marked = with_inaccessible(names, joined, new.directives);
    let m1 = after_description(m, start.description, new.description);
    let m2 = after_inaccessible(m1, names, joined, new.directives);
    match part {
        None => {
            lemma_type_directives(names, graph, start.directives, directives_named(new.directives, names.key), false, new.directives, property);
            lemma_implements_say(
                graph,
                start.implements_interfaces,
                marked,
                new.implements_interfaces,
                new.implements_interfaces.len(),
                property,
            );
        },
        Some(name) => {
            lemma_object_fields_say(m2, names, graph, start.fields, new.fields, new.fields.len(), name, property);
            assert(said(ExtendedTypeView::Object(start), part, property) == entry_says(
                start.fields,
                name,
                field_directives(),
                property,
            ));
        },
    }
}

proof fn lemma_interface_object_says(
    m: MergerView,
    names: DirectiveNamesView,
    graph: Text,
    start: InterfaceView,
    new: ObjectView,
    part: Option<Text>,
    property: spec_fn(DirectiveView) -> bool,
)
    ensures
        is_said(
            ExtendedTypeView::Interface(merged_interface_object(m, names, graph, start, new).1),
            ExtendedTypeView::Interface(start),
            names,
            graph,
            ExtendedTypeView::Object(new),
            part,
            property,
        ),
{
    let joined = start.directives + join_types(graph, directives_named(new.directives, names.key), true);
    let marked = with_inaccessible(names, joined, new.directives);
    let m0 = MergerView { interface_objects: set_with(m.interface_objects, start.name), ..m };
    let m1 = after_description(m0, start.description, new.description);
    let m2 = after_inaccessible(m1, names, joined, new.directives);
    match part {
        None => {
            lemma_type_directives(names, graph, start.directives, directives_named(new.directives, names.key), true, new.directives, property);
        },
        Some(name) => {
            lemma_object_fields_say(m2, names, graph, start.fields, new.fields, new.fields.len(), name, property);
            assert(said(ExtendedTypeView::Interface(start), part, property) == entry_says(
                start.fields,
                name,
                field_directives(),
                property,
            ));
        },
    }
}

proof fn lemma_union_says(
    m: MergerView,
    names: DirectiveNamesView,
    graph: Text,
    start: UnionView,
    new: UnionView,
    part: Option<Text>,
    property: spec_fn(DirectiveView) -> bool,
)
    ensures
        is_said(
            ExtendedTypeView::Union(merged_union(m, names, graph, start, new).1),
            ExtendedTypeView::Union(start),
            names,
            graph,
            ExtendedTypeView::Union(new),
            part,
            property,
        ),
{
    let joined = start.directives + join_types(graph, Seq::empty(), false);
    let marked = with_inaccessible(names, joined, new.directives);
    match part {
        None => {
            lemma_type_directives(names, graph, start.directives, Seq::empty(), false, new.directives, property);
            lemma_members_say(graph, start.members, marked, new.members, new.members.len(), property);
        },
        Some(name) => {
        },
    }
}

/// Whether what some types say of a part is still said.
spec fn keeps(
    after: TypeEntries,
    before: TypeEntries,
    k: Text,
    part: Option<Text>,
    property: spec_fn(DirectiveView) -> bool,
) -> bool {
    value_of(before, k) matches Some(a) ==> (value_of(after, k) matches Some(b) && same_kind(b, a)
        && (said(a, part, property) ==> said(b, part, property)))
}

/// Whether what a type of a subgraph adds to a part is said of the type of that name.
spec fn is_told(
    types: TypeEntries,
    names: DirectiveNamesView,
    graph: Text,
    name: Text,
    ty: ExtendedTypeView,
    part: Option<Text>,
    property: spec_fn(DirectiveView) -> bool,
) -> bool {
    value_of(types, name) matches Some(merged) && (takes_up(merged, ty) && adds(
        names,
        graph,
        merged is Interface && ty is Object,
        ty,
        part,
        property,
    ) ==> said(merged, part, property))
}

proof fn lemma_type_told(
    m: MergerView,
    types: TypeEntries,
    names: DirectiveNamesView,
    graph: Text,
    name: Text,
    ty: ExtendedTypeView,
    k: Text,
    part: Option<Text>,
    property: spec_fn(DirectiveView) -> bool,
)
    ensures
        ({
            let after = merged_type(m, types, names, graph, name, ty).1;
            &&& keeps(after, types, k, part, property)
            &&& !type_is_built_in(ty) && mergeable_type(name) ==> is_told(
                after,
                names,
                graph,
                name,
                ty,
                part,
                property,
            )
        }),
{
    if !type_is_built_in(ty) && mergeable_type(name) {
        if has_key(types, name) {
            lemma_key_index(types, name);
        }
        let start = value_or(
            types,
            name,
            match ty {
                ExtendedTypeView::Enum(t) => copied_enum(name, t),
                ExtendedTypeView::InputObject(t) => copied_input_object(name, t),
                ExtendedTypeView::Interface(t) => copied_interface(name, t),
                ExtendedTypeView::Object(t) => copied_object(
                    name,
                    t,
                    has_directive(t.directives, names.interface_object),
                ),
                ExtendedTypeView::Union(t) => copied_union(name, t.description),
                ExtendedTypeView::Scalar(t) => copied_scalar(name, t),
            },
        );
        let after = merged_type(m, types, names, graph, name, ty).1;
        let merged = match (start, ty) {
            (ExtendedTypeView::Enum(a), ExtendedTypeView::Enum(b)) => {
                lemma_enum_says(m, names, graph, a, b, part, property);
                ExtendedTypeView::Enum(merged_enum(m, names, graph, a, b).1)
            },
            (ExtendedTypeView::InputObject(a), ExtendedTypeView::InputObject(b)) => {
                lemma_input_says(m, names, graph, a, b, part, property);
                ExtendedTypeView::InputObject(merged_input_object(m, names, graph, a, b).1)
            },
            (ExtendedTypeView::Interface(a), ExtendedTypeView::Interface(b)) => {
                lemma_interface_says(m, names, graph, a, b, part, property);
                ExtendedTypeView::Interface(merged_interface(m, names, graph, a, b).1)
            },
            (ExtendedTypeView::Object(a), ExtendedTypeView::Object(b)) => {
                lemma_object_says(m, names, graph, a, b, part, property);
                ExtendedTypeView::Object(merged_object(m, names, graph, a, b).1)
            },
            (ExtendedTypeView::Interface(a), ExtendedTypeView::Object(b)) => {
                lemma_interface_object_says(m, names, graph, a, b, part, property);
                ExtendedTypeView::Interface(merged_interface_object(m, names, graph, a, b).1)
            },
            (ExtendedTypeView::Union(a), ExtendedTypeView::Union(b)) => {
                lemma_union_says(m, names, graph, a, b, part, property);
                ExtendedTypeView::Union(merged_union(m, names, graph, a, b).1)
            },
            (ExtendedTypeView::Scalar(a), ExtendedTypeView::Scalar(b)) => {
                lemma_type_directives(
                    names,
                    graph,
                    a.directives,
                    Seq::empty(),
                    false,
                    b.directives,
                    property,
                );
                let joined = a.directives + join_types(graph, Seq::empty(), false);
                ExtendedTypeView::Scalar(
                    ScalarView {
                        directives: with_inaccessible(names, joined, b.directives),
                        ..a
                    },
                )
            },
            _ => start,
        };
        assert(after == put(types, name, merged));
        lemma_value_of_put(types, name, merged, k);
        lemma_value_of_put(types, name, merged, name);
    }
}

// All types of all subgraphs.

proof fn lemma_types_told(
    m: MergerView,
    types: TypeEntries,
    names: DirectiveNamesView,
    graph: Text,
    new: TypeEntries,
    n: nat,
    i: int,
    k: Text,
    part: Option<Text>,
    property: spec_fn(DirectiveView) -> bool,
)
    requires
        n <= new.len(),
    ensures
        keeps(merged_types(m, types, names, graph, new, n).1, types, k, part, property),
        0 <= i < n && !type_is_built_in(new[i].1) && mergeable_type(new[i].0) && new[i].0 == k
            ==> is_told(
            merged_types(m, types, names, graph, new, n).1,
            names,
            graph,
            k,
            new[i].1,
            part,
            property,
        ),
    decreases n,
{
    if n > 0 {
        lemma_types_told(m, types, names, graph, new, (n - 1) as nat, i, k, part, property);
        let (m1, before) = merged_types(m, types, names, graph, new, (n - 1) as nat);
        let (name, ty) = new[n - 1];
        lemma_type_told(m1, before, names, graph, name, ty, k, part, property);
    }
}

proof fn lemma_subgraphs_told(
    m: MergerView,
    supergraph: SchemaView,
    graphs: Seq<(SubgraphView, Text)>,
    n: nat,
    g: int,
    i: int,
    part: Option<Text>,
    property: spec_fn(DirectiveView) -> bool,
)
    requires
        0 <= g < n <= graphs.len(),
        0 <= i < graphs[g].0.schema.schema.types.len(),
        !type_is_built_in(graphs[g].0.schema.schema.types[i].1),
        mergeable_type(graphs[g].0.schema.schema.types[i].0),
    ensures
        is_told(
            merged_subgraphs(m, supergraph, graphs, n).1.types,
            federation_names(graphs[g].0.schema.metadata),
            graphs[g].1,
            graphs[g].0.schema.schema.types[i].0,
            graphs[g].0.schema.schema.types[i].1,
            part,
            property,
        ),
    decreases n,
{
    let (m1, before) = merged_subgraphs(m, supergraph, graphs, (n - 1) as nat);
    let (subgraph, graph) = graphs[n - 1];
    let new = subgraph.schema.schema;
    let m2 = after_description(
        m1,
        before.schema_definition.description,
        new.schema_definition.description,
    );
    lemma_types_told(
        m2,
        before.types,
        federation_names(subgraph.schema.metadata),
        graph,
        new.types,
        new.types.len(),
        i,
        graphs[g].0.schema.schema.types[i].0,
        part,
        property,
    );
    if g < n - 1 {
        lemma_subgraphs_told(m, supergraph, graphs, (n - 1) as nat, g, i, part, property);
    }
}

// Fields of interface objects.

proof fn lemma_interface_fields_stay(
    fields: Entries<FieldView>,
    more: Entries<FieldView>,
    n: nat,
    name: Text,
)
    requires
        value_of(fields, name) is Some,
    ensures
        value_of(with_interface_fields(fields, more, n), name) == value_of(fields, name),
    decreases n,
{
    if n > 0 {
        lemma_interface_fields_stay(fields, more, (n - 1) as nat, name);
        let before = with_interface_fields(fields, more, (n - 1) as nat);
        let (key, field) = more[n - 1];
        if !has_key(before, key) {
            lemma_value_of_put(before, key, interface_object_field(field), name);
        }
    }
}

proof fn lemma_implementers_keep(
    types: TypeEntries,
    implementers: Seq<Text>,
    fields: Entries<FieldView>,
    n: nat,
    k: Text,
    part: Option<Text>,
    property: spec_fn(DirectiveView) -> bool,
)
    ensures
        keeps(with_implementer_fields(types, implementers, fields, n), types, k, part, property),
    decreases n,
{
    if n > 0 {
        lemma_implementers_keep(types, implementers, fields, (n - 1) as nat, k, part, property);
        let before = with_implementer_fields(types, implementers, fields, (n - 1) as nat);
        let name = implementers[n - 1];
        match value_of(before, name) {
            Some(ExtendedTypeView::Object(o)) => {
                let extended = ExtendedTypeView::Object(
                    ObjectView {
                        fields: with_interface_fields(o.fields, fields, fields.len()),
                        ..o
                    },
                );
                lemma_value_of_put(before, name, extended, k);
                match part {
                    Some(field) => {
                        if value_of(o.fields, field) is Some {
                            lemma_interface_fields_stay(o.fields, fields, fields.len(), field);
                        }
                    },
                    None => {},
                }
            },
            _ => {},
        }
    }
}

proof fn lemma_interface_objects_keep(
    types: TypeEntries,
    map: Entries<ImplementersView>,
    interface_objects: Seq<Text>,
    n: nat,
    k: Text,
    part: Option<Text>,
    property: spec_fn(DirectiveView) -> bool,
)
    ensures
        keeps(
            with_interface_object_fields(types, map, interface_objects, n).1,
            types,
            k,
            part,
            property,
        ),
    decreases n,
{
    if n > 0 {
        lemma_interface_objects_keep(
            types,
            map,
            interface_objects,
            (n - 1) as nat,
            k,
            part,
            property,
        );
        let before = with_interface_object_fields(
            types,
            map,
            interface_objects,
            (n - 1) as nat,
        ).1;
        let name = interface_objects[n - 1];
        match (value_of(before, name), value_of(map, name)) {
            (Some(ExtendedTypeView::Interface(interface)), Some(implementers)) => {
                lemma_implementers_keep(
                    before,
                    implementers.objects + implementers.interfaces,
                    interface.fields,
                    implementers.objects.len() + implementers.interfaces.len(),
                    k,
                    part,
                    property,
                );
            },
            _ => {},
        }
    }
}

/// What a type of a subgraph adds to a part is said in the supergraph.
proof fn lemma_told(
    base: SchemaView,
    subgraphs: Seq<SubgraphView>,
    g: int,
    i: int,
    part: Option<Text>,
    property: spec_fn(DirectiveView) -> bool,
)
    requires
        ({
            let sorted = sorted_by_name(subgraphs);
            let chosen = choose_values(Seq::empty(), sorted, sorted.len()).chosen;
            &&& 0 <= g < chosen.len()
            &&& 0 <= i < chosen[g].0.schema.schema.types.len()
            &&& !type_is_built_in(chosen[g].0.schema.schema.types[i].1)
            &&& mergeable_type(chosen[g].0.schema.schema.types[i].0)
        }),
    ensures
        ({
            let sorted = sorted_by_name(subgraphs);
            let (subgraph, graph) = choose_values(Seq::empty(), sorted, sorted.len()).chosen[g];
            let (name, ty) = subgraph.schema.schema.types[i];
            merge_result(new_merger(), base, subgraphs).1 matches MergeOutcome::Success {
                schema,
                hints,
            } ==> is_told(
                schema.types,
                federation_names(subgraph.schema.metadata),
                graph,
                name,
                ty,
                part,
                property,
            )
        }),
{
    let m = new_merger();
    let sorted = sorted_by_name(subgraphs);
    let chosen = choose_values(Seq::empty(), sorted, sorted.len()).chosen;
    let start = with_join_feature(with_link_feature(base), chosen);
    assert(MergerView { errors: Seq::empty(), ..m } == m);
    assert(m.errors =~= Seq::empty());
    lemma_subgraphs_told(m, start, chosen, chosen.len(), g, i, part, property);
    let (merged, stubs) = merged_subgraphs(m, start, chosen, chosen.len());
    let map = implementers_of(stubs.types, stubs.types.len());
    let all = merged.interface_objects;
    let (name, ty) = chosen[g].0.schema.schema.types[i];
    lemma_interface_objects_keep(stubs.types, map, all, all.len(), name, part, property);
}

// The supergraph.

/// The subgraphs of a supergraph with the values that stand for them.
pub open spec fn graphs_of(subgraphs: Seq<SubgraphView>) -> Seq<(SubgraphView, Text)> {
    let sorted = sorted_by_name(subgraphs);
    choose_values(Seq::empty(), sorted, sorted.len()).chosen
}

/// Whether composition takes over the type `i` of the subgraph `g`.
pub open spec fn is_taken_over(subgraphs: Seq<SubgraphView>, g: int, i: int) -> bool {
    &&& 0 <= g < graphs_of(subgraphs).len()
    &&& 0 <= i < graphs_of(subgraphs)[g].0.schema.schema.types.len()
    &&& !type_is_built_in(graphs_of(subgraphs)[g].0.schema.schema.types[i].1)
    &&& mergeable_type(graphs_of(subgraphs)[g].0.schema.schema.types[i].0)
}

/// The type `i` of the subgraph `g`.
pub open spec fn type_of(subgraphs: Seq<SubgraphView>, g: int, i: int) -> ExtendedTypeView {
    graphs_of(subgraphs)[g].0.schema.schema.types[i].1
}

/// Every field of an object of a subgraph, but for those of the federation machinery, has in the
/// supergraph a `@join__field` that records it: `requires` is there exactly if the field has
/// `@requires` in the subgraph, with the fields of that directive, `provides` exactly if it has
/// `@provides`, with the fields of that one, and so on.
pub proof fn law_every_field_is_recorded(
    base: SchemaView,
    subgraphs: Seq<SubgraphView>,
    g: int,
    i: int,
    j: int,
)
    requires
        is_taken_over(subgraphs, g, i),
        type_of(subgraphs, g, i) is Object,
        0 <= j < (type_of(subgraphs, g, i)->Object_0).fields.len(),
        (type_of(subgraphs, g, i)->Object_0).fields[j].0 != "_service"@,
        (type_of(subgraphs, g, i)->Object_0).fields[j].0 != "_entities"@,
    ensures
        ({
            let (subgraph, graph) = graphs_of(subgraphs)[g];
            let (name, ty) = subgraph.schema.schema.types[i];
            merge_result(new_merger(), base, subgraphs).1 matches MergeOutcome::Success {
                schema,
                hints,
            } ==> (value_of(schema.types, name) matches Some(merged) && (merged is Object
                || merged is Interface ==> said(
                merged,
                Some((ty->Object_0).fields[j].0),
                |d: DirectiveView|
                    records_field(d, graph, subgraph.schema.metadata, (ty->Object_0).fields[j].1),
            )))
        }),
{
    let (subgraph, graph) = graphs_of(subgraphs)[g];
    let (name, ty) = subgraph.schema.schema.types[i];
    let links = subgraph.schema.metadata;
    let names = federation_names(links);
    let (field_name, field) = (ty->Object_0).fields[j];
    let property = |d: DirectiveView| records_field(d, graph, links, field);
    lemma_records_field(graph, links, field);
    assert(property(object_join_field(names, graph, field)));
    lemma_told(base, subgraphs, g, i, Some(field_name), property);
}

/// Every field of an interface of a subgraph has in the supergraph a `@join__field` with the graph
/// and its type there.
pub proof fn law_every_interface_field_is_recorded(
    base: SchemaView,
    subgraphs: Seq<SubgraphView>,
    g: int,
    i: int,
    j: int,
)
    requires
        is_taken_over(subgraphs, g, i),
        type_of(subgraphs, g, i) is Interface,
        0 <= j < (type_of(subgraphs, g, i)->Interface_0).fields.len(),
    ensures
        ({
            let (subgraph, graph) = graphs_of(subgraphs)[g];
            let (name, ty) = subgraph.schema.schema.types[i];
            merge_result(new_merger(), base, subgraphs).1 matches MergeOutcome::Success {
                schema,
                hints,
            } ==> (value_of(schema.types, name) matches Some(merged) && (merged is Interface
                ==> said(
                merged,
                Some((ty->Interface_0).fields[j].0),
                |d: DirectiveView| records_plain_field(d, graph, (ty->Interface_0).fields[j].1.ty),
            )))
        }),
{
    let (subgraph, graph) = graphs_of(subgraphs)[g];
    let (name, ty) = subgraph.schema.schema.types[i];
    let links = subgraph.schema.metadata;
    let names = federation_names(links);
    let (field_name, field) = (ty->Interface_0).fields[j];
    let property = |d: DirectiveView| records_plain_field(d, graph, field.ty);
    lemma_records_plain_field(graph, field.ty);
    assert(property(join_field(graph, None, None, false, None, Some(field.ty))));
    lemma_told(base, subgraphs, g, i, Some(field_name), property);
}

/// Every field of an input object of a subgraph has in the supergraph a `@join__field` with the
/// graph and its type there.
pub proof fn law_every_input_field_is_recorded(
    base: SchemaView,
    subgraphs: Seq<SubgraphView>,
    g: int,
    i: int,
    j: int,
)
    requires
        is_taken_over(subgraphs, g, i),
        type_of(subgraphs, g, i) is InputObject,
        0 <= j < (type_of(subgraphs, g, i)->InputObject_0).fields.len(),
    ensures
        ({
            let (subgraph, graph) = graphs_of(subgraphs)[g];
            let (name, ty) = subgraph.schema.schema.types[i];
            merge_result(new_merger(), base, subgraphs).1 matches MergeOutcome::Success {
                schema,
                hints,
            } ==> (value_of(schema.types, name) matches Some(merged) && (merged is InputObject
                ==> said(
                merged,
                Some((ty->InputObject_0).fields[j].0),
                |d: DirectiveView|
                    records_plain_field(d, graph, (ty->InputObject_0).fields[j].1.ty),
            )))
        }),
{
    let (subgraph, graph) = graphs_of(subgraphs)[g];
    let (name, ty) = subgraph.schema.schema.types[i];
    let links = subgraph.schema.metadata;
    let names = federation_names(links);
    let (field_name, field) = (ty->InputObject_0).fields[j];
    let property = |d: DirectiveView| records_plain_field(d, graph, field.ty);
    lemma_records_plain_field(graph, field.ty);
    assert(property(join_field(graph, None, None, false, None, Some(field.ty))));
    lemma_told(base, subgraphs, g, i, Some(field_name), property);
}

/// Every value of an enum of a subgraph has in the supergraph a `@join__enumValue` with the graph.
pub proof fn law_every_enum_value_is_recorded(
    base: SchemaView,
    subgraphs: Seq<SubgraphView>,
    g: int,
    i: int,
    j: int,
)
    requires
        is_taken_over(subgraphs, g, i),
        type_of(subgraphs, g, i) is Enum,
        0 <= j < (type_of(subgraphs, g, i)->Enum_0).values.len(),
    ensures
        ({
            let (subgraph, graph) = graphs_of(subgraphs)[g];
            let (name, ty) = subgraph.schema.schema.types[i];
            merge_result(new_merger(), base, subgraphs).1 matches MergeOutcome::Success {
                schema,
                hints,
            } ==> (value_of(schema.types, name) matches Some(merged) && (merged is Enum ==> said(
                merged,
                Some((ty->Enum_0).values[j].0),
                |d: DirectiveView| records_value(d, graph),
            )))
        }),
{
    let (subgraph, graph) = graphs_of(subgraphs)[g];
    let (name, ty) = subgraph.schema.schema.types[i];
    let links = subgraph.schema.metadata;
    let names = federation_names(links);
    let (value_name, value) = (ty->Enum_0).values[j];
    let property = |d: DirectiveView| records_value(d, graph);
    lemma_records_names(graph, name);
    assert(property(join_enum_value(graph)));
    lemma_told(base, subgraphs, g, i, Some(value_name), property);
}

/// Every member of a union of a subgraph is recorded in the supergraph: the union has a
/// `@join__unionMember` with the graph and the member.
pub proof fn law_every_member_is_recorded(
    base: SchemaView,
    subgraphs: Seq<SubgraphView>,
    g: int,
    i: int,
    j: int,
)
    requires
        is_taken_over(subgraphs, g, i),
        type_of(subgraphs, g, i) is Union,
        0 <= j < (type_of(subgraphs, g, i)->Union_0).members.len(),
    ensures
        ({
            let (subgraph, graph) = graphs_of(subgraphs)[g];
            let (name, ty) = subgraph.schema.schema.types[i];
            merge_result(new_merger(), base, subgraphs).1 matches MergeOutcome::Success {
                schema,
                hints,
            } ==> (value_of(schema.types, name) matches Some(merged) && (merged is Union ==> said(
                merged,
                None,
                |d: DirectiveView|
                    records_name(
                        d,
                        "join__unionMember"@,
                        graph,
                        "member"@,
                        (ty->Union_0).members[j],
                    ),
            )))
        }),
{
    let (subgraph, graph) = graphs_of(subgraphs)[g];
    let (name, ty) = subgraph.schema.schema.types[i];
    let links = subgraph.schema.metadata;
    let names = federation_names(links);
    let member = (ty->Union_0).members[j];
    let property = |d: DirectiveView|
        records_name(d, "join__unionMember"@, graph, "member"@, member);
    lemma_records_names(graph, member);
    assert(property(join_union_member(graph, member)));
    lemma_told(base, subgraphs, g, i, None, property);
}

/// Every interface that an object of a subgraph implements is recorded in the supergraph: the
/// object has a `@join__implements` with the graph and the interface.
pub proof fn law_every_interface_of_an_object_is_recorded(
    base: SchemaView,
    subgraphs: Seq<SubgraphView>,
    g: int,
    i: int,
    j: int,
)
    requires
        is_taken_over(subgraphs, g, i),
        type_of(subgraphs, g, i) is Object,
        0 <= j < (type_of(subgraphs, g, i)->Object_0).implements_interfaces.len(),
    ensures
        ({
            let (subgraph, graph) = graphs_of(subgraphs)[g];
            let (name, ty) = subgraph.schema.schema.types[i];
            merge_result(new_merger(), base, subgraphs).1 matches MergeOutcome::Success {
                schema,
                hints,
            } ==> (value_of(schema.types, name) matches Some(merged) && (merged is Object ==> said(
                merged,
                None,
                |d: DirectiveView|
                    records_name(
                        d,
                        "join__implements"@,
                        graph,
                        "interface"@,
                        (ty->Object_0).implements_interfaces[j],
                    ),
            )))
        }),
{
    let (subgraph, graph) = graphs_of(subgraphs)[g];
    let (name, ty) = subgraph.schema.schema.types[i];
    let links = subgraph.schema.metadata;
    let names = federation_names(links);
    let interface = (ty->Object_0).implements_interfaces[j];
    let property = |d: DirectiveView|
        records_name(d, "join__implements"@, graph, "interface"@, interface);
    lemma_records_names(graph, interface);
    assert(property(join_implements(graph, interface)));
    lemma_told(base, subgraphs, g, i, None, property);
}

/// Every interface that an interface of a subgraph implements is recorded in the supergraph.
pub proof fn law_every_interface_of_an_interface_is_recorded(
    base: SchemaView,
    subgraphs: Seq<SubgraphView>,
    g: int,
    i: int,
    j: int,
)
    requires
        is_taken_over(subgraphs, g, i),
        type_of(subgraphs, g, i) is Interface,
        0 <= j < (type_of(subgraphs, g, i)->Interface_0).implements_interfaces.len(),
    ensures
        ({
            let (subgraph, graph) = graphs_of(subgraphs)[g];
            let (name, ty) = subgraph.schema.schema.types[i];
            merge_result(new_merger(), base, subgraphs).1 matches MergeOutcome::Success {
                schema,
                hints,
            } ==> (value_of(schema.types, name) matches Some(merged) && (merged is Interface
                ==> said(
                merged,
                None,
                |d: DirectiveView|
                    records_name(
                        d,
                        "join__implements"@,
                        graph,
                        "interface"@,
                        (ty->Interface_0).implements_interfaces[j],
                    ),
            )))
        }),
{
    let (subgraph, graph) = graphs_of(subgraphs)[g];
    let (name, ty) = subgraph.schema.schema.types[i];
    let links = subgraph.schema.metadata;
    let names = federation_names(links);
    let interface = (ty->Interface_0).implements_interfaces[j];
    let property = |d: DirectiveView|
        records_name(d, "join__implements"@, graph, "interface"@, interface);
    lemma_records_names(graph, interface);
    assert(property(join_implements(graph, interface)));
    lemma_told(base, subgraphs, g, i, None, property);
}

/// Every `@key` of an object or interface of a subgraph is recorded in the supergraph: the type has
/// a `@join__type` with the graph and the fields of the key, which says whether the graph resolves
/// the type by it and whether it has an object in the place of an interface.
pub proof fn law_every_key_is_recorded(
    base: SchemaView,
    subgraphs: Seq<SubgraphView>,
    g: int,
    i: int,
    j: int,
)
    requires
        is_taken_over(subgraphs, g, i),
        type_of(subgraphs, g, i) is Object || type_of(subgraphs, g, i) is Interface,
        0 <= j < directives_of(type_of(subgraphs, g, i)).len(),
        directives_of(type_of(subgraphs, g, i))[j].name == federation_name(
            graphs_of(subgraphs)[g].0.schema.metadata,
            "key"@,
        ),
    ensures
        ({
            let (subgraph, graph) = graphs_of(subgraphs)[g];
            let (name, ty) = subgraph.schema.schema.types[i];
            merge_result(new_merger(), base, subgraphs).1 matches MergeOutcome::Success {
                schema,
                hints,
            } ==> (value_of(schema.types, name) matches Some(merged) && (takes_up(merged, ty)
                ==> said(
                merged,
                None,
                |d: DirectiveView|
                    records_key(
                        d,
                        graph,
                        merged is Interface && ty is Object,
                        directives_of(ty)[j],
                    ),
            )))
        }),
{
    let (subgraph, graph) = graphs_of(subgraphs)[g];
    let (name, ty) = subgraph.schema.schema.types[i];
    let links = subgraph.schema.metadata;
    let names = federation_names(links);
    let key = directives_of(ty)[j];
    let keys = keys_of(names, ty);
    directives_of(ty).lemma_filter_contains(|d: DirectiveView| d.name == names.key, j);
    let x = keys.index_of(key);
    let as_is = |d: DirectiveView| records_key(d, graph, false, key);
    let standing_in = |d: DirectiveView| records_key(d, graph, true, key);
    lemma_records_key(graph, false, key);
    lemma_records_key(graph, true, key);
    assert(as_is(join_types(graph, keys, false)[x]));
    assert(standing_in(join_types(graph, keys, true)[x]));
    lemma_told(base, subgraphs, g, i, None, as_is);
    lemma_told(base, subgraphs, g, i, None, standing_in);
}

/// A type of a subgraph without `@key` is recorded in the supergraph by a `@join__type` with the
/// graph and without a key.
pub proof fn law_every_type_is_recorded(
    base: SchemaView,
    subgraphs: Seq<SubgraphView>,
    g: int,
    i: int,
)
    requires
        is_taken_over(subgraphs, g, i),
        forall|j: int|
            0 <= j < directives_of(type_of(subgraphs, g, i)).len() ==> (#[trigger] directives_of(
                type_of(subgraphs, g, i),
            )[j]).name != federation_name(graphs_of(subgraphs)[g].0.schema.metadata, "key"@),
    ensures
        ({
            let (subgraph, graph) = graphs_of(subgraphs)[g];
            let (name, ty) = subgraph.schema.schema.types[i];
            merge_result(new_merger(), base, subgraphs).1 matches MergeOutcome::Success {
                schema,
                hints,
            } ==> (value_of(schema.types, name) matches Some(merged) && (takes_up(merged, ty)
                ==> said(
                merged,
                None,
                |d: DirectiveView|
                    records_presence(d, graph, merged is Interface && ty is Object)
                        && says_nothing(d.arguments, "key"@),
            )))
        }),
{
    let (subgraph, graph) = graphs_of(subgraphs)[g];
    let (name, ty) = subgraph.schema.schema.types[i];
    let links = subgraph.schema.metadata;
    let names = federation_names(links);
    let keys = keys_of(names, ty);
    if keys.len() > 0 {
        let is_key = |d: DirectiveView| d.name == names.key;
        directives_of(ty).lemma_filter_pred(is_key, 0);
        directives_of(ty).lemma_filter_contains_rev(is_key, keys[0]);
    }
    let as_is = |d: DirectiveView|
        records_presence(d, graph, false) && says_nothing(d.arguments, "key"@);
    let standing_in = |d: DirectiveView|
        records_presence(d, graph, true) && says_nothing(d.arguments, "key"@);
    lemma_records_presence(graph, false);
    lemma_records_presence(graph, true);
    assert(as_is(join_types(graph, keys, false)[0]));
    assert(standing_in(join_types(graph, keys, true)[0]));
    lemma_told(base, subgraphs, g, i, None, as_is);
    lemma_told(base, subgraphs, g, i, None, standing_in);
}

/// What a subgraph marks as inaccessible, a type or its field or value, is marked in the
/// supergraph.
pub proof fn law_inaccessible_stays_so(
    base: SchemaView,
    subgraphs: Seq<SubgraphView>,
    g: int,
    i: int,
    part: Option<Text>,
)
    requires
        is_taken_over(subgraphs, g, i),
        part matches Some(name) ==> name != "_service"@ && name != "_entities"@,
        has_directive(
            directives_at(type_of(subgraphs, g, i), part),
            federation_name(graphs_of(subgraphs)[g].0.schema.metadata, "inaccessible"@),
        ),
    ensures
        ({
            let (subgraph, graph) = graphs_of(subgraphs)[g];
            let (name, ty) = subgraph.schema.schema.types[i];
            merge_result(new_merger(), base, subgraphs).1 matches MergeOutcome::Success {
                schema,
                hints,
            } ==> (value_of(schema.types, name) matches Some(merged) && (takes_up(merged, ty)
                ==> has_directive(directives_at(merged, part), "inaccessible"@)))
        }),
{
    let (subgraph, graph) = graphs_of(subgraphs)[g];
    let (name, ty) = subgraph.schema.schema.types[i];
    let links = subgraph.schema.metadata;
    let names = federation_names(links);
    let property = |d: DirectiveView| d.name == "inaccessible"@;
    match part {
        None => {},
        Some(k) => {
            match ty {
                ExtendedTypeView::Object(t) => {
                    lemma_key_index(t.fields, k);
                },
                ExtendedTypeView::Interface(t) => {
                    lemma_key_index(t.fields, k);
                },
                ExtendedTypeView::InputObject(t) => {
                    lemma_key_index(t.fields, k);
                },
                ExtendedTypeView::Enum(t) => {
                    lemma_key_index(t.values, k);
                },
                _ => {},
            }
        },
    }
    lemma_told(base, subgraphs, g, i, part, property);
}

// Nothing else.

/// Whether directives are others with one more at the end, and at most the mark that something is
/// inaccessible before it.
pub open spec fn has_one_more(
    after: Seq<DirectiveView>,
    before: Seq<DirectiveView>,
    last: spec_fn(DirectiveView) -> bool,
) -> bool {
    &&& before.len() < after.len() <= before.len() + 2
    &&& after.take(before.len() as int) == before
    &&& last(after.last())
    &&& after.len() == before.len() + 2 ==> after[before.len() as int].name == "inaccessible"@
}

/// Merging a field of an interface, a field of an input object or a value of an enum adds one
/// directive that records it, and nothing else but a mark that it is inaccessible.
pub proof fn law_parts_are_recorded_once(
    m: MergerView,
    names: DirectiveNamesView,
    graph: Text,
    field: FieldView,
    new_field: FieldView,
    input: InputValueView,
    new_input: InputValueView,
    value: EnumValueDefinitionView,
    new_value: EnumValueDefinitionView,
)
    ensures
        has_one_more(
            merged_interface_field(m, names, graph, field, new_field).1.directives,
            field.directives,
            |d: DirectiveView| records_plain_field(d, graph, new_field.ty),
        ),
        has_one_more(
            merged_input_field(m, names, graph, input, new_input).1.directives,
            input.directives,
            |d: DirectiveView| records_plain_field(d, graph, new_input.ty),
        ),
        has_one_more(
            merged_enum_value(m, names, graph, value, new_value).1.directives,
            value.directives,
            |d: DirectiveView| records_value(d, graph),
        ),
{
    lemma_records_plain_field(graph, new_field.ty);
    lemma_records_plain_field(graph, new_input.ty);
    lemma_records_names(graph, graph);
    let a = merged_interface_field(m, names, graph, field, new_field).1.directives;
    assert(a.take(field.directives.len() as int) =~= field.directives);
    let b = merged_input_field(m, names, graph, input, new_input).1.directives;
    assert(b.take(input.directives.len() as int) =~= input.directives);
    let c = merged_enum_value(m, names, graph, value, new_value).1.directives;
    assert(c.take(value.directives.len() as int) =~= value.directives);
}

/// Whether a directive says of a type no more than that it is in a graph, there as an object in
/// the place of an interface or not, or that it is inaccessible.
pub open spec fn says_where(directive: DirectiveView, graph: Text, stands_in: bool) -> bool {
    directive.name == "inaccessible"@ || records_presence(directive, graph, stands_in)
}

/// Whether one of some names is recorded for a graph.
pub open spec fn records_one(
    directive: DirectiveView,
    name: Text,
    graph: Text,
    argument: Text,
    texts: Seq<Text>,
) -> bool {
    exists|j: int|
        0 <= j < texts.len() && records_name(directive, name, graph, argument, #[trigger] texts[j])
}

proof fn lemma_start_says_where(
    names: DirectiveNamesView,
    graph: Text,
    start: Seq<DirectiveView>,
    keys: Seq<DirectiveView>,
    stands_in: bool,
    original: Seq<DirectiveView>,
)
    ensures
        ({
            let after = with_inaccessible(
                names,
                start + join_types(graph, keys, stands_in),
                original,
            );
            &&& start.len() <= after.len()
            &&& after.take(start.len() as int) == start
            &&& forall|i: int|
                start.len() <= i < after.len() ==> says_where(
                    #[trigger] after[i],
                    graph,
                    stands_in,
                )
        }),
{
    let added = join_types(graph, keys, stands_in);
    let joined = start + added;
    let after = with_inaccessible(names, joined, original);
    assert(after.take(start.len() as int) =~= start);
    lemma_records_presence(graph, stands_in);
    assert forall|i: int| start.len() <= i < after.len() implies says_where(
        #[trigger] after[i],
        graph,
        stands_in,
    ) by {
        if i < joined.len() {
            assert(after[i] == added[i - start.len()]);
            if keys.len() > 0 {
                lemma_records_key(graph, stands_in, keys[i - start.len()]);
            }
        }
    }
}

proof fn lemma_implements_added(
    graph: Text,
    interfaces: Seq<Text>,
    directives: Seq<DirectiveView>,
    new: Seq<Text>,
    n: nat,
)
    requires
        n <= new.len(),
    ensures
        ({
            let after = merged_implements(graph, interfaces, directives, new, n).1;
            &&& directives.len() <= after.len()
            &&& after.take(directives.len() as int) == directives
            &&& forall|i: int|
                directives.len() <= i < after.len() ==> records_one(
                    #[trigger] after[i],
                    "join__implements"@,
                    graph,
                    "interface"@,
                    new,
                )
        }),
    decreases n,
{
    let after = merged_implements(graph, interfaces, directives, new, n).1;
    if n > 0 {
        lemma_implements_added(graph, interfaces, directives, new, (n - 1) as nat);
        let before = merged_implements(graph, interfaces, directives, new, (n - 1) as nat).1;
        lemma_records_names(graph, new[n - 1]);
        assert(after.take(directives.len() as int) =~= before.take(directives.len() as int));
        assert forall|i: int| directives.len() <= i < after.len() implies records_one(
            #[trigger] after[i],
            "join__implements"@,
            graph,
            "interface"@,
            new,
        ) by {
            if i < before.len() {
                assert(after[i] == before[i]);
            } else {
                assert(records_name(
                    after[i],
                    "join__implements"@,
                    graph,
                    "interface"@,
                    new[n - 1],
                ));
            }
        }
    } else {
        assert(after.take(directives.len() as int) =~= directives);
    }
}

proof fn lemma_members_added(
    graph: Text,
    members: Seq<Text>,
    directives: Seq<DirectiveView>,
    new: Seq<Text>,
    n: nat,
)
    requires
        n <= new.len(),
    ensures
        ({
            let after = merged_members(graph, members, directives, new, n).1;
            &&& directives.len() <= after.len()
            &&& after.take(directives.len() as int) == directives
            &&& forall|i: int|
                directives.len() <= i < after.len() ==> records_one(
                    #[trigger] after[i],
                    "join__unionMember"@,
                    graph,
                    "member"@,
                    new,
                )
        }),
    decreases n,
{
    let after = merged_members(graph, members, directives, new, n).1;
    if n > 0 {
        lemma_members_added(graph, members, directives, new, (n - 1) as nat);
        let before = merged_members(graph, members, directives, new, (n - 1) as nat).1;
        lemma_records_names(graph, new[n - 1]);
        assert(after.take(directives.len() as int) =~= before.take(directives.len() as int));
        assert forall|i: int| directives.len() <= i < after.len() implies records_one(
            #[trigger] after[i],
            "join__unionMember"@,
            graph,
            "member"@,
            new,
        ) by {
            if i < before.len() {
                assert(after[i] == before[i]);
            } else {
                assert(records_name(
                    after[i],
                    "join__unionMember"@,
                    graph,
                    "member"@,
                    new[n - 1],
                ));
            }
        }
    } else {
        assert(after.take(directives.len() as int) =~= directives);
    }
}

/// Whether a type has the directives that it had, and behind them only such as say that it is in a
/// graph, which names belong to it there, or that it is inaccessible.
pub open spec fn gets_only(
    after: Seq<DirectiveView>,
    before: Seq<DirectiveView>,
    graph: Text,
    stands_in: bool,
    name: Text,
    argument: Text,
    texts: Seq<Text>,
) -> bool {
    &&& before.len() <= after.len()
    &&& after.take(before.len() as int) == before
    &&& forall|i: int|
        before.len() <= i < after.len() ==> says_where(#[trigger] after[i], graph, stands_in)
            || records_one(after[i], name, graph, argument, texts)
}

proof fn lemma_gets_only(
    after: Seq<DirectiveView>,
    marked: Seq<DirectiveView>,
    before: Seq<DirectiveView>,
    graph: Text,
    stands_in: bool,
    name: Text,
    argument: Text,
    texts: Seq<Text>,
)
    requires
        before.len() <= marked.len() <= after.len(),
        marked.take(before.len() as int) == before,
        after.take(marked.len() as int) == marked,
        forall|i: int|
            before.len() <= i < marked.len() ==> says_where(#[trigger] marked[i], graph, stands_in),
        forall|i: int|
            marked.len() <= i < after.len() ==> records_one(
                #[trigger] after[i],
                name,
                graph,
                argument,
                texts,
            ),
    ensures
        gets_only(after, before, graph, stands_in, name, argument, texts),
{
    assert(after.take(before.len() as int) =~= marked.take(before.len() as int)) by {
        assert forall|i: int| 0 <= i < before.len() implies after[i] == marked[i] by {
            assert(after.take(marked.len() as int)[i] == marked[i]);
        }
    }
    assert forall|i: int| before.len() <= i < after.len() implies says_where(
        #[trigger] after[i],
        graph,
        stands_in,
    ) || records_one(after[i], name, graph, argument, texts) by {
        if i < marked.len() {
            assert(after.take(marked.len() as int)[i] == marked[i]);
        }
    }
}

/// Merging an object, an interface or a union adds to its directives only those that say that it is
/// in the graph, which interfaces it implements or which members it has there, and a mark that it
/// is inaccessible.
pub proof fn law_types_get_no_other_directives(
    m: MergerView,
    names: DirectiveNamesView,
    graph: Text,
    object: ObjectView,
    new_object: ObjectView,
    interface: InterfaceView,
    new_interface: InterfaceView,
    union: UnionView,
    new_union: UnionView,
)
    ensures
        gets_only(
            merged_object(m, names, graph, object, new_object).1.directives,
            object.directives,
            graph,
            false,
            "join__implements"@,
            "interface"@,
            new_object.implements_interfaces,
        ),
        gets_only(
            merged_interface(m, names, graph, interface, new_interface).1.directives,
            interface.directives,
            graph,
            false,
            "join__implements"@,
            "interface"@,
            new_interface.implements_interfaces,
        ),
        gets_only(
            merged_interface_object(m, names, graph, interface, new_object).1.directives,
            interface.directives,
            graph,
            true,
            "join__implements"@,
            "interface"@,
            Seq::empty(),
        ),
        gets_only(
            merged_union(m, names, graph, union, new_union).1.directives,
            union.directives,
            graph,
            false,
            "join__unionMember"@,
            "member"@,
            new_union.members,
        ),
{
    let keys = directives_named(new_object.directives, names.key);
    lemma_start_says_where(
        names,
        graph,
        object.directives,
        keys,
        false,
        new_object.directives,
    );
    let marked = with_inaccessible(
        names,
        object.directives + join_types(graph, keys, false),
        new_object.directives,
    );
    let all = new_object.implements_interfaces;
    lemma_implements_added(graph, object.implements_interfaces, marked, all, all.len());
    lemma_gets_only(
        merged_object(m, names, graph, object, new_object).1.directives,
        marked,
        object.directives,
        graph,
        false,
        "join__implements"@,
        "interface"@,
        all,
    );
    let keys = directives_named(new_interface.directives, names.key);
    lemma_start_says_where(
        names,
        graph,
        interface.directives,
        keys,
        false,
        new_interface.directives,
    );
    let marked = with_inaccessible(
        names,
        interface.directives + join_types(graph, keys, false),
        new_interface.directives,
    );
    let all = new_interface.implements_interfaces;
    lemma_implements_added(graph, interface.implements_interfaces, marked, all, all.len());
    lemma_gets_only(
        merged_interface(m, names, graph, interface, new_interface).1.directives,
        marked,
        interface.directives,
        graph,
        false,
        "join__implements"@,
        "interface"@,
        all,
    );
    let keys = directives_named(new_object.directives, names.key);
    lemma_start_says_where(
        names,
        graph,
        interface.directives,
        keys,
        true,
        new_object.directives,
    );
    let marked = with_inaccessible(
        names,
        interface.directives + join_types(graph, keys, true),
        new_object.directives,
    );
    assert(marked.take(marked.len() as int) =~= marked);
    lemma_gets_only(
        marked,
        marked,
        interface.directives,
        graph,
        true,
        "join__implements"@,
        "interface"@,
        Seq::empty(),
    );
    lemma_start_says_where(
        names,
        graph,
        union.directives,
        Seq::empty(),
        false,
        new_union.directives,
    );
    let marked = with_inaccessible(
        names,
        union.directives + join_types(graph, Seq::empty(), false),
        new_union.directives,
    );
    lemma_members_added(graph, union.members, marked, new_union.members, new_union.members.len());
    lemma_gets_only(
        merged_union(m, names, graph, union, new_union).1.directives,
        marked,
        union.directives,
        graph,
        false,
        "join__unionMember"@,
        "member"@,
        new_union.members,
    );
}

} // verus!
