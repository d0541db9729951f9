//! The directives of the supergraph are applied as they are defined.

use crate::ast::type_text;
use crate::ast::ArgumentView;
use crate::ast::DirectiveDefinitionView;
use crate::ast::DirectiveLocation;
use crate::ast::DirectiveView;
use crate::ast::InputValueView;
use crate::ast::TypeView;
use crate::ast::ValueView;
use crate::collections::lemma_value_of_put;
use crate::collections::put;
use crate::collections::value_of;
use crate::merge::choose_values;
use crate::merge::content_laws::law_definitions_are_united;
use crate::merge::core_features::bool_argument;
use crate::merge::core_features::enum_argument;
use crate::merge::core_features::graph_value;
use crate::merge::core_features::inaccessible_definition;
use crate::merge::core_features::join_directive_definition;
use crate::merge::core_features::join_enum_value_definition;
use crate::merge::core_features::join_field_definition;
use crate::merge::core_features::join_graph_definition;
use crate::merge::core_features::join_implements_definition;
use crate::merge::core_features::join_type_definition;
use crate::merge::core_features::join_union_member_definition;
use crate::merge::core_features::string_argument;
use crate::merge::core_features::with_join_feature;
use crate::merge::core_features::with_link_feature;
use crate::merge::directives::join_enum_value;
use crate::merge::directives::join_field;
use crate::merge::directives::join_implements;
use crate::merge::directives::join_types;
use crate::merge::directives::join_type_arguments;
use crate::merge::directives::join_union_member;
use crate::merge::directives::optional_argument;
use crate::merge::directives::override_arguments;
use crate::merge::directives::string_value;
use crate::merge::merged_subgraphs;
use crate::merge::merger::MergerView;
use crate::merge::merge_result;
use crate::merge::new_merger;
use crate::merge::sorted_by_name;
use crate::merge::MergeOutcome;
use crate::merge::SubgraphView;
use crate::schema::SchemaView;
use crate::text::Text;
use vstd::prelude::*;

verus! {

/// Whether a value can be given for a type of the arguments of the supergraph: a graph, a text or a
/// boolean.
pub open spec fn accepts(ty: TypeView, value: ValueView) -> bool {
    let name = match ty {
        TypeView::Named(name) => Some(name),
        TypeView::NonNullNamed(name) => Some(name),
        _ => None,
    };
    match value {
        ValueView::Enum(_) => name == Some("join__Graph"@),
        ValueView::String(_) => name == Some("String"@) || name == Some("join__FieldSet"@),
        ValueView::Boolean(_) => name == Some("Boolean"@),
        _ => false,
    }
}

/// Whether a definition has an argument that can be given.
pub open spec fn defines(definition: DirectiveDefinitionView, argument: ArgumentView) -> bool {
    exists|k: int|
        0 <= k < definition.arguments.len() && (#[trigger] definition.arguments[k]).name
            == argument.name && accepts(definition.arguments[k].ty, argument.value)
}

/// Whether a definition has all of some arguments.
pub open spec fn defines_all(
    definition: DirectiveDefinitionView,
    arguments: Seq<ArgumentView>,
) -> bool {
    forall|i: int| 0 <= i < arguments.len() ==> defines(definition, #[trigger] arguments[i])
}

/// Whether an argument has to be given.
pub open spec fn is_needed(argument: InputValueView) -> bool {
    argument.default_value is None && (argument.ty is NonNullNamed || argument.ty is NonNullList)
}

/// Whether a directive is applied as it is defined: at a place where it can be, with arguments that
/// it has, and with all that it needs.
pub open spec fn fits(
    directive: DirectiveView,
    definition: DirectiveDefinitionView,
    location: DirectiveLocation,
) -> bool {
    &&& directive.name == definition.name
    &&& definition.locations.contains(location)
    &&& defines_all(definition, directive.arguments)
    &&& forall|k: int|
        0 <= k < definition.arguments.len() && is_needed(#[trigger] definition.arguments[k])
            ==> exists|i: int|
            0 <= i < directive.arguments.len() && (#[trigger] directive.arguments[i]).name
                == definition.arguments[k].name
}

proof fn lemma_defines_both(
    definition: DirectiveDefinitionView,
    a: Seq<ArgumentView>,
    b: Seq<ArgumentView>,
)
    requires
        defines_all(definition, a),
        defines_all(definition, b),
    ensures
        defines_all(definition, a + b),
{
}

proof fn lemma_defines_one(definition: DirectiveDefinitionView, k: int, argument: ArgumentView)
    requires
        0 <= k < definition.arguments.len(),
        definition.arguments[k].name == argument.name,
        accepts(definition.arguments[k].ty, argument.value),
    ensures
        defines(definition, argument),
        defines_all(definition, seq![argument]),
{
}

proof fn lemma_join_field_fits(
    graph: Text,
    requires_: Option<Text>,
    provides: Option<Text>,
    external: bool,
    overrides: Option<(Text, Option<Text>)>,
    ty: Option<TypeView>,
    location: DirectiveLocation,
)
    requires
        location == DirectiveLocation::FieldDefinition || location
            == DirectiveLocation::InputFieldDefinition,
    ensures
        fits(
            join_field(graph, requires_, provides, external, overrides, ty),
            join_field_definition(),
            location,
        ),
{
    let def = join_field_definition();
    let a0 = seq![enum_argument("graph"@, graph)];
    let a1 = optional_argument("requires"@, requires_);
    let a2 = optional_argument("provides"@, provides);
    let a3 = if external {
        seq![bool_argument("external"@, true)]
    } else {
        Seq::empty()
    };
    let a4 = override_arguments(overrides);
    let a5 = match ty {
        Some(t) => seq![string_argument("type"@, type_text(t))],
        None => Seq::empty(),
    };
    lemma_defines_one(def, 0, enum_argument("graph"@, graph));
    if let Some(text) = requires_ {
        lemma_defines_one(def, 1, string_argument("requires"@, text));
    }
    if let Some(text) = provides {
        lemma_defines_one(def, 2, string_argument("provides"@, text));
    }
    lemma_defines_one(def, 4, bool_argument("external"@, true));
    if let Some((from, label)) = overrides {
        lemma_defines_one(def, 5, string_argument("override"@, from));
        if let Some(text) = label {
            lemma_defines_one(def, 6, string_argument("overrideLabel"@, text));
        }
        lemma_defines_both(
            def,
            seq![string_argument("override"@, from)],
            optional_argument("overrideLabel"@, label),
        );
    }
    if let Some(t) = ty {
        lemma_defines_one(def, 3, string_argument("type"@, type_text(t)));
    }
    lemma_defines_both(def, a0, a1);
    lemma_defines_both(def, a0 + a1, a2);
    lemma_defines_both(def, a0 + a1 + a2, a3);
    lemma_defines_both(def, a0 + a1 + a2 + a3, a4);
    lemma_defines_both(def, a0 + a1 + a2 + a3 + a4, a5);
    assert(def.locations[0] == DirectiveLocation::FieldDefinition);
    assert(def.locations[1] == DirectiveLocation::InputFieldDefinition);
}

/// Whatever it says, a `@join__field` fits its definition, on fields of objects and interfaces and
/// on those of input objects.
pub proof fn law_join_field_fits(
    graph: Text,
    requires_: Option<Text>,
    provides: Option<Text>,
    external: bool,
    overrides: Option<(Text, Option<Text>)>,
    ty: Option<TypeView>,
)
    ensures
        fits(
            join_field(graph, requires_, provides, external, overrides, ty),
            join_field_definition(),
            DirectiveLocation::FieldDefinition,
        ),
        fits(
            join_field(graph, requires_, provides, external, overrides, ty),
            join_field_definition(),
            DirectiveLocation::InputFieldDefinition,
        ),
{
    lemma_join_field_fits(
        graph,
        requires_,
        provides,
        external,
        overrides,
        ty,
        DirectiveLocation::FieldDefinition,
    );
    lemma_join_field_fits(
        graph,
        requires_,
        provides,
        external,
        overrides,
        ty,
        DirectiveLocation::InputFieldDefinition,
    );
}

/// Whether types can have the directives at a place.
pub open spec fn is_type_location(location: DirectiveLocation) -> bool {
    match location {
        DirectiveLocation::Scalar => true,
        DirectiveLocation::Object => true,
        DirectiveLocation::Interface => true,
        DirectiveLocation::Union => true,
        DirectiveLocation::Enum => true,
        DirectiveLocation::InputObject => true,
        _ => false,
    }
}

/// Every `@join__type` fits its definition, on types of any kind.
pub proof fn law_join_type_fits(
    graph: Text,
    keys: Seq<DirectiveView>,
    stands_in: bool,
    location: DirectiveLocation,
    i: int,
)
    requires
        is_type_location(location),
        0 <= i < join_types(graph, keys, stands_in).len(),
    ensures
        fits(join_types(graph, keys, stands_in)[i], join_type_definition(), location),
{
    let def = join_type_definition();
    let directive = join_types(graph, keys, stands_in)[i];
    let start = join_type_arguments(graph, stands_in);
    lemma_defines_one(def, 0, enum_argument("graph"@, graph));
    lemma_defines_one(def, 4, bool_argument("isInterfaceObject"@, true));
    lemma_defines_one(def, 3, bool_argument("resolvable"@, false));
    assert(defines_all(def, start));
    if keys.len() > 0 {
        let text = string_value(keys[i], "fields"@)->0;
        lemma_defines_one(def, 1, string_argument("key"@, text));
        let keyed = start.push(string_argument("key"@, text));
        assert(keyed =~= start + seq![string_argument("key"@, text)]);
        lemma_defines_both(def, start, seq![string_argument("key"@, text)]);
        lemma_defines_both(def, keyed, seq![bool_argument("resolvable"@, false)]);
        assert(keyed.push(bool_argument("resolvable"@, false)) =~= keyed + seq![
            bool_argument("resolvable"@, false),
        ]);
    }
    assert(directive.arguments[0] == enum_argument("graph"@, graph));
    let places = def.locations;
    assert(places[0] == DirectiveLocation::Enum);
    assert(places[1] == DirectiveLocation::InputObject);
    assert(places[2] == DirectiveLocation::Interface);
    assert(places[3] == DirectiveLocation::Object);
    assert(places[4] == DirectiveLocation::Scalar);
    assert(places[5] == DirectiveLocation::Union);
    assert(places.contains(location));
    assert forall|k: int|
        0 <= k < def.arguments.len() && is_needed(#[trigger] def.arguments[k]) implies exists|
        j: int,
    |
        0 <= j < directive.arguments.len() && (#[trigger] directive.arguments[j]).name
            == def.arguments[k].name by {
        assert(k == 0);
        assert(directive.arguments[0].name == def.arguments[0].name);
    }
}

/// The directives for interfaces, members, values and graphs fit their definitions.
pub proof fn law_other_join_directives_fit(
    graph: Text,
    text: Text,
    subgraph: SubgraphView,
    value: Text,
)
    ensures
        fits(
            join_implements(graph, text),
            join_implements_definition(),
            DirectiveLocation::Object,
        ),
        fits(
            join_implements(graph, text),
            join_implements_definition(),
            DirectiveLocation::Interface,
        ),
        fits(
            join_union_member(graph, text),
            join_union_member_definition(),
            DirectiveLocation::Union,
        ),
        fits(join_enum_value(graph), join_enum_value_definition(), DirectiveLocation::EnumValue),
        graph_value(subgraph, value).directives.len() == 1,
        fits(
            graph_value(subgraph, value).directives[0],
            join_graph_definition(),
            DirectiveLocation::EnumValue,
        ),
{
    let implements = join_implements_definition();
    lemma_defines_one(implements, 0, enum_argument("graph"@, graph));
    lemma_defines_one(implements, 1, string_argument("interface"@, text));
    assert(implements.locations[0] == DirectiveLocation::Interface);
    assert(implements.locations[1] == DirectiveLocation::Object);
    lemma_two_needed(join_implements(graph, text), implements);
    let member = join_union_member_definition();
    lemma_defines_one(member, 0, enum_argument("graph"@, graph));
    lemma_defines_one(member, 1, string_argument("member"@, text));
    assert(member.locations[0] == DirectiveLocation::Union);
    lemma_two_needed(join_union_member(graph, text), member);
    let one = join_enum_value_definition();
    lemma_defines_one(one, 0, enum_argument("graph"@, graph));
    assert(one.locations[0] == DirectiveLocation::EnumValue);
    assert(join_enum_value(graph).arguments[0].name == one.arguments[0].name);
    let named = join_graph_definition();
    let applied = graph_value(subgraph, value).directives[0];
    lemma_defines_one(named, 0, string_argument("name"@, subgraph.name));
    lemma_defines_one(named, 1, string_argument("url"@, subgraph.url));
    assert(named.locations[0] == DirectiveLocation::EnumValue);
    lemma_two_needed(applied, named);
}

proof fn lemma_two_needed(directive: DirectiveView, definition: DirectiveDefinitionView)
    requires
        directive.arguments.len() == 2,
        definition.arguments.len() == 2,
        directive.arguments[0].name == definition.arguments[0].name,
        directive.arguments[1].name == definition.arguments[1].name,
    ensures
        forall|k: int|
            0 <= k < definition.arguments.len() && is_needed(#[trigger] definition.arguments[k])
                ==> exists|i: int|
                0 <= i < directive.arguments.len() && (#[trigger] directive.arguments[i]).name
                    == definition.arguments[k].name,
{
    assert forall|k: int|
        0 <= k < definition.arguments.len() && is_needed(
            #[trigger] definition.arguments[k],
        ) implies exists|i: int|
        0 <= i < directive.arguments.len() && (#[trigger] directive.arguments[i]).name
            == definition.arguments[k].name by {
        assert(directive.arguments[k].name == definition.arguments[k].name);
    }
}

// The definitions are there.

proof fn lemma_definitions_stay(
    m: MergerView,
    supergraph: SchemaView,
    graphs: Seq<(SubgraphView, Text)>,
    n: nat,
    name: Text,
)
    requires
        n <= graphs.len(),
        value_of(supergraph.directive_definitions, name) is Some,
    ensures
        value_of(merged_subgraphs(m, supergraph, graphs, n).1.directive_definitions, name)
            == value_of(supergraph.directive_definitions, name),
    decreases n,
{
    if n > 0 {
        lemma_definitions_stay(m, supergraph, graphs, (n - 1) as nat, name);
        let before = merged_subgraphs(m, supergraph, graphs, (n - 1) as nat).1;
        let new = graphs[n - 1].0.schema.schema.directive_definitions;
        law_definitions_are_united(before.directive_definitions, new, new.len(), name);
    }
}

/// Whether a definition is one of those that types and their parts are joined to graphs by.
pub open spec fn is_join_definition(definition: DirectiveDefinitionView) -> bool {
    ||| definition == join_graph_definition()
    ||| definition == join_type_definition()
    ||| definition == join_field_definition()
    ||| definition == join_implements_definition()
    ||| definition == join_union_member_definition()
    ||| definition == join_enum_value_definition()
}

/// The names of the definitions differ.
proof fn lemma_names_of_definitions()
    ensures
        "join__graph"@ != "join__type"@,
        "join__graph"@ != "join__field"@,
        "join__graph"@ != "join__implements"@,
        "join__graph"@ != "join__unionMember"@,
        "join__graph"@ != "join__enumValue"@,
        "join__graph"@ != "join__directive"@,
        "join__type"@ != "join__field"@,
        "join__type"@ != "join__implements"@,
        "join__type"@ != "join__unionMember"@,
        "join__type"@ != "join__enumValue"@,
        "join__type"@ != "join__directive"@,
        "join__field"@ != "join__implements"@,
        "join__field"@ != "join__unionMember"@,
        "join__field"@ != "join__enumValue"@,
        "join__field"@ != "join__directive"@,
        "join__implements"@ != "join__unionMember"@,
        "join__implements"@ != "join__enumValue"@,
        "join__implements"@ != "join__directive"@,
        "join__unionMember"@ != "join__enumValue"@,
        "join__unionMember"@ != "join__directive"@,
        "join__enumValue"@ != "join__directive"@,
        "inaccessible"@ != "join__graph"@,
        "inaccessible"@ != "join__type"@,
        "inaccessible"@ != "join__field"@,
        "inaccessible"@ != "join__implements"@,
        "inaccessible"@ != "join__unionMember"@,
        "inaccessible"@ != "join__enumValue"@,
{
    reveal_strlit("join__graph");
    reveal_strlit("join__type");
    reveal_strlit("join__field");
    reveal_strlit("join__implements");
    reveal_strlit("join__unionMember");
    reveal_strlit("join__enumValue");
    reveal_strlit("join__directive");
    reveal_strlit("inaccessible");
    assert("join__graph"@[6] == 'g');
    assert("join__type"@[6] == 't');
    assert("join__field"@[6] == 'f');
    assert("join__implements"@[6] == 'i');
    assert("join__unionMember"@[6] == 'u');
    assert("join__enumValue"@[6] == 'e');
    assert("join__directive"@[6] == 'd');
    assert("inaccessible"@[0] == 'i' && "join__graph"@[0] == 'j' && "join__type"@[0] == 'j'
        && "join__field"@[0] == 'j' && "join__implements"@[0] == 'j' && "join__unionMember"@[0]
        == 'j' && "join__enumValue"@[0] == 'j');
}

proof fn lemma_defined_at_first(
    base: SchemaView,
    graphs: Seq<(SubgraphView, Text)>,
    definition: DirectiveDefinitionView,
)
    requires
        is_join_definition(definition),
    ensures
        value_of(
            with_join_feature(with_link_feature(base), graphs).directive_definitions,
            definition.name,
        ) == Some(definition),
{
    lemma_names_of_definitions();
    let d0 = with_link_feature(base).directive_definitions;
    let name = definition.name;
    let d1 = put(d0, "join__graph"@, join_graph_definition());
    let d2 = put(d1, "join__type"@, join_type_definition());
    let d3 = put(d2, "join__field"@, join_field_definition());
    let d4 = put(d3, "join__implements"@, join_implements_definition());
    let d5 = put(d4, "join__unionMember"@, join_union_member_definition());
    let d6 = put(d5, "join__enumValue"@, join_enum_value_definition());
    lemma_value_of_put(d0, "join__graph"@, join_graph_definition(), name);
    lemma_value_of_put(d1, "join__type"@, join_type_definition(), name);
    lemma_value_of_put(d2, "join__field"@, join_field_definition(), name);
    lemma_value_of_put(d3, "join__implements"@, join_implements_definition(), name);
    lemma_value_of_put(d4, "join__unionMember"@, join_union_member_definition(), name);
    lemma_value_of_put(d5, "join__enumValue"@, join_enum_value_definition(), name);
    lemma_value_of_put(d6, "join__directive"@, join_directive_definition(), name);
}

/// The supergraph has the definitions of the directives that it is joined by, whatever definitions
/// the subgraphs have.
pub proof fn law_join_directives_are_defined(
    base: SchemaView,
    subgraphs: Seq<SubgraphView>,
    definition: DirectiveDefinitionView,
)
    requires
        is_join_definition(definition),
    ensures
        merge_result(new_merger(), base, subgraphs).1 matches MergeOutcome::Success {
            schema,
            hints,
        } ==> value_of(schema.directive_definitions, definition.name) == Some(definition),
{
    let m = new_merger();
    let sorted = sorted_by_name(subgraphs);
    let chosen = choose_values(Seq::empty(), sorted, sorted.len()).chosen;
    let start = with_join_feature(with_link_feature(base), chosen);
    assert(MergerView { errors: Seq::empty(), ..m } == m);
    assert(m.errors =~= Seq::empty());
    lemma_defined_at_first(base, chosen, definition);
    lemma_definitions_stay(m, start, chosen, chosen.len(), definition.name);
    let stubs = merged_subgraphs(m, start, chosen, chosen.len()).1;
    lemma_names_of_definitions();
    lemma_value_of_put(
        stubs.directive_definitions,
        "inaccessible"@,
        inaccessible_definition(),
        definition.name,
    );
}

/// Where something is marked as inaccessible, the supergraph has the definition of the mark.
pub proof fn law_marks_are_defined(base: SchemaView, subgraphs: Seq<SubgraphView>)
    ensures
        ({
            let (merger, outcome) = merge_result(new_merger(), base, subgraphs);
            outcome matches MergeOutcome::Success { schema, hints } ==> (merger.needs_inaccessible
                ==> value_of(schema.directive_definitions, "inaccessible"@) == Some(
                inaccessible_definition(),
            ))
        }),
{
    let m = new_merger();
    let sorted = sorted_by_name(subgraphs);
    let chosen = choose_values(Seq::empty(), sorted, sorted.len()).chosen;
    let start = with_join_feature(with_link_feature(base), chosen);
    assert(MergerView { errors: Seq::empty(), ..m } == m);
    assert(m.errors =~= Seq::empty());
    let stubs = merged_subgraphs(m, start, chosen, chosen.len()).1;
    lemma_value_of_put(
        stubs.directive_definitions,
        "inaccessible"@,
        inaccessible_definition(),
        "inaccessible"@,
    );
}

} // verus!
