//! What the supergraph says of the subgraphs that its types come from.

use crate::ast::DirectiveView;
use crate::ast::EnumValueDefinitionView;
use crate::ast::FieldView;
use crate::ast::InputValueView;
use crate::ast::ValueView;
use crate::collections::has_key;
use crate::collections::lemma_key_index;
use crate::collections::lemma_value_of_put;
use crate::collections::put;
use crate::collections::set_with;
use crate::collections::value_of;
use crate::collections::value_or;
use crate::collections::Entries;
use crate::merge::choose_values;
use crate::merge::copies::copied_enum;
use crate::merge::copies::copied_input_object;
use crate::merge::copies::copied_interface;
use crate::merge::copies::copied_object;
use crate::merge::copies::copied_scalar;
use crate::merge::copies::copied_union;
use crate::merge::copies::is_federation_field;
use crate::merge::core_features::with_join_feature;
use crate::merge::core_features::with_link_feature;
use crate::merge::directives::argument_value;
use crate::merge::directives::directives_named;
use crate::merge::directives::federation_names;
use crate::merge::directives::has_directive;
use crate::merge::directives::join_types;
use crate::merge::directives::DirectiveNamesView;
use crate::merge::merge_result;
use crate::merge::mergeable_type;
use crate::merge::merged_subgraph;
use crate::merge::merged_subgraphs;
use crate::merge::merged_type;
use crate::merge::merged_types;
use crate::merge::merger::after_description;
use crate::merge::merger::after_inaccessible;
use crate::merge::merger::merged_enum;
use crate::merge::merger::merged_enum_values;
use crate::merge::merger::merged_implements;
use crate::merge::merger::merged_input_fields;
use crate::merge::merger::merged_input_object;
use crate::merge::merger::merged_interface;
use crate::merge::merger::merged_interface_fields;
use crate::merge::merger::merged_interface_object;
use crate::merge::merger::merged_members;
use crate::merge::merger::merged_object;
use crate::merge::merger::merged_object_fields;
use crate::merge::merger::merged_union;
use crate::merge::merger::with_inaccessible;
use crate::merge::merger::MergerView;
use crate::merge::merger::TypeEntries;
use crate::merge::new_merger;
use crate::merge::sorted_by_name;
use crate::merge::with_implementer_fields;
use crate::merge::with_interface_fields;
use crate::merge::with_interface_object_fields;
use crate::merge::MergeOutcome;
use crate::merge::SubgraphView;
use crate::schema::implementers_of;
use crate::schema::type_is_built_in;
use crate::schema::EnumView;
use crate::schema::ExtendedTypeView;
use crate::schema::ImplementersView;
use crate::schema::InputObjectView;
use crate::schema::InterfaceView;
use crate::schema::ObjectView;
use crate::schema::ScalarView;
use crate::schema::SchemaView;
use crate::schema::UnionView;
use crate::text::Text;
use vstd::prelude::*;

verus! {

/// The directives of a type.
pub open spec fn directives_of(ty: ExtendedTypeView) -> Seq<DirectiveView> {
    match ty {
        ExtendedTypeView::Scalar(t) => t.directives,
        ExtendedTypeView::Object(t) => t.directives,
        ExtendedTypeView::Interface(t) => t.directives,
        ExtendedTypeView::Union(t) => t.directives,
        ExtendedTypeView::Enum(t) => t.directives,
        ExtendedTypeView::InputObject(t) => t.directives,
    }
}

/// Whether a directive says that a type is in the given graph.
pub open spec fn joins(directive: DirectiveView, graph: Text) -> bool {
    directive.name == "join__type"@ && argument_value(directive.arguments, "graph"@) == Some(
        ValueView::Enum(graph),
    )
}

/// Whether a type is said to be in the given graph.
pub open spec fn is_joined(ty: ExtendedTypeView, graph: Text) -> bool {
    exists|i: int| 0 <= i < directives_of(ty).len() && joins(#[trigger] directives_of(ty)[i], graph)
}

/// Whether a type has a field, a value or a member of the given name.
pub open spec fn has_part(ty: ExtendedTypeView, name: Text) -> bool {
    match ty {
        ExtendedTypeView::Scalar(_) => false,
        ExtendedTypeView::Object(t) => has_key(t.fields, name),
        ExtendedTypeView::Interface(t) => has_key(t.fields, name),
        ExtendedTypeView::Union(t) => t.members.contains(name),
        ExtendedTypeView::Enum(t) => has_key(t.values, name),
        ExtendedTypeView::InputObject(t) => has_key(t.fields, name),
    }
}

/// Whether two types are of one kind.
pub open spec fn same_kind(a: ExtendedTypeView, b: ExtendedTypeView) -> bool {
    match a {
        ExtendedTypeView::Scalar(_) => b is Scalar,
        ExtendedTypeView::Object(_) => b is Object,
        ExtendedTypeView::Interface(_) => b is Interface,
        ExtendedTypeView::Union(_) => b is Union,
        ExtendedTypeView::Enum(_) => b is Enum,
        ExtendedTypeView::InputObject(_) => b is InputObject,
    }
}

/// Whether a type of the supergraph can take up one of a subgraph: they are of one kind, or an
/// object stands for an interface.
pub open spec fn takes_up(merged: ExtendedTypeView, new: ExtendedTypeView) -> bool {
    same_kind(merged, new) || (merged is Interface && new is Object)
}

/// Whether the supergraph has all of a type of a subgraph, but for fields of the federation
/// machinery, and says that it is in the graph. A type that is of another kind there is not taken
/// up.
pub open spec fn represents(
    types: TypeEntries,
    name: Text,
    ty: ExtendedTypeView,
    graph: Text,
) -> bool {
    value_of(types, name) matches Some(merged) && (takes_up(merged, ty) ==> is_joined(merged, graph)
        && forall|part: Text|
        has_part(ty, part) && !(ty is Object && is_federation_field(part)) ==> #[trigger] has_part(
            merged,
            part,
        ))
}

/// Whether one type has all that another one has.
spec fn covers(new: ExtendedTypeView, old_ty: ExtendedTypeView) -> bool {
    &&& same_kind(new, old_ty)
    &&& forall|graph: Text| is_joined(old_ty, graph) ==> #[trigger] is_joined(new, graph)
    &&& forall|part: Text| has_part(old_ty, part) ==> #[trigger] has_part(new, part)
}

/// Whether nothing of some types is lost.
spec fn extends(after: TypeEntries, before: TypeEntries) -> bool {
    forall|k: Text|
        #![trigger value_of(before, k)]
        #![trigger value_of(after, k)]
        value_of(before, k) matches Some(old_ty) ==> (value_of(after, k) matches Some(new) && covers(
            new,
            old_ty,
        ))
}

proof fn lemma_extends(c: TypeEntries, b: TypeEntries, a: TypeEntries)
    requires
        extends(c, b),
        extends(b, a),
    ensures
        extends(c, a),
{
    assert forall|k: Text|
        #![trigger value_of(a, k)]
        #![trigger value_of(c, k)]
        value_of(a, k) matches Some(old_ty) implies (value_of(c, k) matches Some(new) && covers(
        new,
        value_of(a, k)->0,
    )) by {
        let x = value_of(a, k)->0;
        let y = value_of(b, k)->0;
        let z = value_of(c, k)->0;
        assert(covers(y, x) && covers(z, y));
        assert forall|graph: Text| is_joined(x, graph) implies #[trigger] is_joined(z, graph) by {
            assert(is_joined(y, graph));
        }
        assert forall|part: Text| has_part(x, part) implies #[trigger] has_part(z, part) by {
            assert(has_part(y, part));
        }
    }
}

proof fn lemma_represents(
    after: TypeEntries,
    before: TypeEntries,
    name: Text,
    ty: ExtendedTypeView,
    graph: Text,
)
    requires
        extends(after, before),
        represents(before, name, ty, graph),
    ensures
        represents(after, name, ty, graph),
{
    let x = value_of(before, name)->0;
    let y = value_of(after, name)->0;
    assert(covers(y, x));
    if takes_up(y, ty) {
        assert(takes_up(x, ty));
        assert(is_joined(y, graph));
        assert forall|part: Text|
            has_part(ty, part) && !(ty is Object && is_federation_field(
                part,
            )) implies #[trigger] has_part(y, part) by {
            assert(has_part(x, part));
        }
    }
}

proof fn lemma_put_extends(types: TypeEntries, name: Text, merged: ExtendedTypeView)
    requires
        value_of(types, name) matches Some(old_ty) ==> covers(merged, old_ty),
    ensures
        extends(put(types, name, merged), types),
        value_of(put(types, name, merged), name) == Some(merged),
{
    let after = put(types, name, merged);
    lemma_value_of_put(types, name, merged, name);
    assert forall|k: Text|
        #![trigger value_of(types, k)]
        #![trigger value_of(after, k)]
        value_of(types, k) matches Some(old_ty) implies (value_of(after, k) matches Some(new)
        && covers(new, value_of(types, k)->0)) by {
        lemma_value_of_put(types, name, merged, k);
    }
}

// Directives.

/// Whether directives begin with others.
spec fn begins(all: Seq<DirectiveView>, first: Seq<DirectiveView>) -> bool {
    first.len() <= all.len() && forall|i: int|
        0 <= i < first.len() ==> #[trigger] all[i] == first[i]
}

proof fn lemma_implements_begin(
    graph: Text,
    interfaces: Seq<Text>,
    directives: Seq<DirectiveView>,
    new: Seq<Text>,
    n: nat,
)
    ensures
        begins(merged_implements(graph, interfaces, directives, new, n).1, directives),
    decreases n,
{
    if n > 0 {
        lemma_implements_begin(graph, interfaces, directives, new, (n - 1) as nat);
    }
}

proof fn lemma_members_begin(
    graph: Text,
    members: Seq<Text>,
    directives: Seq<DirectiveView>,
    new: Seq<Text>,
    n: nat,
    part: Text,
)
    requires
        n <= new.len(),
    ensures
        begins(merged_members(graph, members, directives, new, n).1, directives),
        members.contains(part) || new.take(n as int).contains(part) ==> merged_members(
            graph,
            members,
            directives,
            new,
            n,
        ).0.contains(part),
    decreases n,
{
    if n > 0 {
        lemma_members_begin(graph, members, directives, new, (n - 1) as nat, part);
        let before = merged_members(graph, members, directives, new, (n - 1) as nat).0;
        let after = set_with(before, new[n - 1]);
        assert(new.take(n as int) =~= new.take(n - 1).push(new[n - 1]));
        if before.contains(part) {
            let i = choose|i: int| 0 <= i < before.len() && before[i] == part;
            assert(after[i] == part);
        } else if part == new[n - 1] {
            assert(after[before.len() as int] == part);
        }
    }
}

/// A type that got the directives of a graph is joined to it, and stays joined to others.
proof fn lemma_joined(
    old_ty: ExtendedTypeView,
    new: ExtendedTypeView,
    graph: Text,
    keys: Seq<DirectiveView>,
    is_interface_object: bool,
    names: DirectiveNamesView,
    original: Seq<DirectiveView>,
)
    requires
        begins(
            directives_of(new),
            with_inaccessible(
                names,
                directives_of(old_ty) + join_types(graph, keys, is_interface_object),
                original,
            ),
        ),
    ensures
        is_joined(new, graph),
        forall|other: Text| is_joined(old_ty, other) ==> #[trigger] is_joined(new, other),
{
    let before = directives_of(old_ty);
    let added = join_types(graph, keys, is_interface_object);
    let joined = before + added;
    let all = with_inaccessible(names, joined, original);
    let after = directives_of(new);
    assert(joins(added[0], graph));
    assert(all[before.len() as int] == added[0]);
    assert(joins(after[before.len() as int], graph));
    assert forall|other: Text| is_joined(old_ty, other) implies #[trigger] is_joined(new, other) by {
        let i = choose|i: int|
            0 <= i < directives_of(old_ty).len() && joins(
                #[trigger] directives_of(old_ty)[i],
                other,
            );
        assert(all[i] == before[i]);
        assert(joins(after[i], other));
    }
}

// Parts.

/// Whether one of the first `n` entries is of the given name.
spec fn among<T>(entries: Entries<T>, n: nat, name: Text) -> bool {
    exists|i: int| 0 <= i < n && (#[trigger] entries[i]).0 == name
}

proof fn lemma_among<T>(entries: Entries<T>, n: nat, name: Text)
    requires
        0 < n <= entries.len(),
    ensures
        among(entries, n, name) == (among(entries, (n - 1) as nat, name) || entries[n - 1].0
            == name),
{
    if among(entries, (n - 1) as nat, name) {
        let i = choose|i: int| 0 <= i < n - 1 && (#[trigger] entries[i]).0 == name;
        assert(entries[i].0 == name);
    }
}

proof fn lemma_object_parts(
    m: MergerView,
    names: DirectiveNamesView,
    graph: Text,
    merged: Entries<FieldView>,
    new: Entries<FieldView>,
    n: nat,
    part: Text,
)
    requires
        n <= new.len(),
    ensures
        has_key(merged, part) || (among(new, n, part) && !is_federation_field(part)) ==> has_key(
            merged_object_fields(m, names, graph, merged, new, n).1,
            part,
        ),
    decreases n,
{
    if n > 0 {
        lemma_object_parts(m, names, graph, merged, new, (n - 1) as nat, part);
        lemma_among(new, n, part);
        let before = merged_object_fields(m, names, graph, merged, new, (n - 1) as nat).1;
        let name = new[n - 1].0;
        if !is_federation_field(name) {
            assert forall|v: FieldView| has_key(#[trigger] put(before, name, v), part) == (part
                == name || has_key(before, part)) by {
                lemma_value_of_put(before, name, v, part);
            }
        }
    }
}

proof fn lemma_interface_parts(
    m: MergerView,
    names: DirectiveNamesView,
    graph: Text,
    merged: Entries<FieldView>,
    new: Entries<FieldView>,
    n: nat,
    part: Text,
)
    requires
        n <= new.len(),
    ensures
        has_key(merged, part) || among(new, n, part) ==> has_key(
            merged_interface_fields(m, names, graph, merged, new, n).1,
            part,
        ),
    decreases n,
{
    if n > 0 {
        lemma_interface_parts(m, names, graph, merged, new, (n - 1) as nat, part);
        lemma_among(new, n, part);
        let before = merged_interface_fields(m, names, graph, merged, new, (n - 1) as nat).1;
        let name = new[n - 1].0;
        assert forall|v: FieldView| has_key(#[trigger] put(before, name, v), part) == (part == name
            || has_key(before, part)) by {
            lemma_value_of_put(before, name, v, part);
        }
    }
}

proof fn lemma_input_parts(
    m: MergerView,
    names: DirectiveNamesView,
    graph: Text,
    merged: Entries<InputValueView>,
    new: Entries<InputValueView>,
    n: nat,
    part: Text,
)
    requires
        n <= new.len(),
    ensures
        has_key(merged, part) || among(new, n, part) ==> has_key(
            merged_input_fields(m, names, graph, merged, new, n).1,
            part,
        ),
    decreases n,
{
    if n > 0 {
        lemma_input_parts(m, names, graph, merged, new, (n - 1) as nat, part);
        lemma_among(new, n, part);
        let before = merged_input_fields(m, names, graph, merged, new, (n - 1) as nat).1;
        let name = new[n - 1].0;
        assert forall|v: InputValueView| has_key(#[trigger] put(before, name, v), part) == (part
            == name || has_key(before, part)) by {
            lemma_value_of_put(before, name, v, part);
        }
    }
}

proof fn lemma_enum_parts(
    m: MergerView,
    names: DirectiveNamesView,
    graph: Text,
    merged: Entries<EnumValueDefinitionView>,
    new: Entries<EnumValueDefinitionView>,
    n: nat,
    part: Text,
)
    requires
        n <= new.len(),
    ensures
        has_key(merged, part) || among(new, n, part) ==> has_key(
            merged_enum_values(m, names, graph, merged, new, n).1,
            part,
        ),
    decreases n,
{
    if n > 0 {
        lemma_enum_parts(m, names, graph, merged, new, (n - 1) as nat, part);
        lemma_among(new, n, part);
        let before = merged_enum_values(m, names, graph, merged, new, (n - 1) as nat).1;
        let name = new[n - 1].0;
        assert forall|v: EnumValueDefinitionView| has_key(#[trigger] put(before, name, v), part)
            == (part == name || has_key(before, part)) by {
            lemma_value_of_put(before, name, v, part);
        }
    }
}

// One type.

/// What a type of a subgraph leads to, given what the supergraph has or starts from.
spec fn is_taken_up(
    merged: ExtendedTypeView,
    start: ExtendedTypeView,
    ty: ExtendedTypeView,
    graph: Text,
) -> bool {
    &&& covers(merged, start)
    &&& is_joined(merged, graph)
    &&& forall|part: Text|
        has_part(ty, part) && !(ty is Object && is_federation_field(part)) ==> #[trigger] has_part(
            merged,
            part,
        )
}

proof fn lemma_enum_taken_up(
    m: MergerView,
    names: DirectiveNamesView,
    graph: Text,
    start: EnumView,
    new: EnumView,
)
    ensures
        is_taken_up(
            ExtendedTypeView::Enum(merged_enum(m, names, graph, start, new).1),
            ExtendedTypeView::Enum(start),
            ExtendedTypeView::Enum(new),
            graph,
        ),
{
    let merged = merged_enum(m, names, graph, start, new).1;
    let before = ExtendedTypeView::Enum(start);
    let after = ExtendedTypeView::Enum(merged);
    lemma_joined(before, after, graph, Seq::empty(), false, names, new.directives);
    let joined = start.directives + join_types(graph, Seq::empty(), false);
    let m1 = after_inaccessible(m, names, joined, new.directives);
    let m2 = after_description(m1, start.description, new.description);
    assert forall|part: Text|
        has_key(start.values, part) || has_key(new.values, part) implies #[trigger] has_part(
        after,
        part,
    ) by {
        lemma_enum_parts(m2, names, graph, start.values, new.values, new.values.len(), part);
    }
}

proof fn lemma_input_taken_up(
    m: MergerView,
    names: DirectiveNamesView,
    graph: Text,
    start: InputObjectView,
    new: InputObjectView,
)
    ensures
        is_taken_up(
            ExtendedTypeView::InputObject(merged_input_object(m, names, graph, start, new).1),
            ExtendedTypeView::InputObject(start),
            ExtendedTypeView::InputObject(new),
            graph,
        ),
{
    let merged = merged_input_object(m, names, graph, start, new).1;
    let before = ExtendedTypeView::InputObject(start);
    let after = ExtendedTypeView::InputObject(merged);
    lemma_joined(before, after, graph, Seq::empty(), false, names, new.directives);
    let joined = start.directives + join_types(graph, Seq::empty(), false);
    let m1 = after_inaccessible(m, names, joined, new.directives);
    assert forall|part: Text|
        has_key(start.fields, part) || has_key(new.fields, part) implies #[trigger] has_part(
        after,
        part,
    ) by {
        lemma_input_parts(m1, names, graph, start.fields, new.fields, new.fields.len(), part);
    }
}

proof fn lemma_interface_taken_up(
    m: MergerView,
    names: DirectiveNamesView,
    graph: Text,
    start: InterfaceView,
    new: InterfaceView,
)
    ensures
        is_taken_up(
            ExtendedTypeView::Interface(merged_interface(m, names, graph, start, new).1),
            ExtendedTypeView::Interface(start),
            ExtendedTypeView::Interface(new),
            graph,
        ),
{
    let merged = merged_interface(m, names, graph, start, new).1;
    let before = ExtendedTypeView::Interface(start);
    let after = ExtendedTypeView::Interface(merged);
    let keys = directives_named(new.directives, names.key);
    let joined = start.directives + join_types(graph, keys, false);
    lemma_implements_begin(
        graph,
        start.implements_interfaces,
        with_inaccessible(names, joined, new.directives),
        new.implements_interfaces,
        new.implements_interfaces.len(),
    );
    lemma_joined(before, after, graph, keys, false, names, new.directives);
    let m1 = after_inaccessible(m, names, joined, new.directives);
    assert forall|part: Text|
        has_key(start.fields, part) || has_key(new.fields, part) implies #[trigger] has_part(
        after,
        part,
    ) by {
        lemma_interface_parts(m1, names, graph, start.fields, new.fields, new.fields.len(), part);
    }
}

proof fn lemma_object_taken_up(
    m: MergerView,
    names: DirectiveNamesView,
    graph: Text,
    start: ObjectView,
    new: ObjectView,
)
    ensures
        is_taken_up(
            ExtendedTypeView::Object(merged_object(m, names, graph, start, new).1),
            ExtendedTypeView::Object(start),
            ExtendedTypeView::Object(new),
            graph,
        ),
{
    let merged = merged_object(m, names, graph, start, new).1;
    let before = ExtendedTypeView::Object(start);
    let after = ExtendedTypeView::Object(merged);
    let keys = directives_named(new.directives, names.key);
    let joined = start.directives + join_types(graph, keys, false);
    lemma_implements_begin(
        graph,
        start.implements_interfaces,
        with_inaccessible(names, joined, new.directives),
        new.implements_interfaces,
        new.implements_interfaces.len(),
    );
    lemma_joined(before, after, graph, keys, false, names, new.directives);
    let m1 = after_description(m, start.description, new.description);
    let m2 = after_inaccessible(m1, names, joined, new.directives);
    assert forall|part: Text|
        has_key(start.fields, part) || (has_key(new.fields, part) && !is_federation_field(
            part,
        )) implies #[trigger] has_part(after, part) by {
        lemma_object_parts(m2, names, graph, start.fields, new.fields, new.fields.len(), part);
    }
}

proof fn lemma_interface_object_taken_up(
    m: MergerView,
    names: DirectiveNamesView,
    graph: Text,
    start: InterfaceView,
    new: ObjectView,
)
    ensures
        is_taken_up(
            ExtendedTypeView::Interface(merged_interface_object(m, names, graph, start, new).1),
            ExtendedTypeView::Interface(start),
            ExtendedTypeView::Object(new),
            graph,
        ),
{
    let merged = merged_interface_object(m, names, graph, start, new).1;
    let before = ExtendedTypeView::Interface(start);
    let after = ExtendedTypeView::Interface(merged);
    let keys = directives_named(new.directives, names.key);
    let joined = start.directives + join_types(graph, keys, true);
    lemma_joined(before, after, graph, keys, true, names, new.directives);
    let m0 = MergerView { interface_objects: set_with(m.interface_objects, start.name), ..m };
    let m1 = after_description(m0, start.description, new.description);
    let m2 = after_inaccessible(m1, names, joined, new.directives);
    assert forall|part: Text|
        has_key(start.fields, part) || (has_key(new.fields, part) && !is_federation_field(
            part,
        )) implies #[trigger] has_part(after, part) by {
        lemma_object_parts(m2, names, graph, start.fields, new.fields, new.fields.len(), part);
    }
}

proof fn lemma_union_taken_up(
    m: MergerView,
    names: DirectiveNamesView,
    graph: Text,
    start: UnionView,
    new: UnionView,
)
    ensures
        is_taken_up(
            ExtendedTypeView::Union(merged_union(m, names, graph, start, new).1),
            ExtendedTypeView::Union(start),
            ExtendedTypeView::Union(new),
            graph,
        ),
{
    let merged = merged_union(m, names, graph, start, new).1;
    let before = ExtendedTypeView::Union(start);
    let after = ExtendedTypeView::Union(merged);
    let joined = start.directives + join_types(graph, Seq::empty(), false);
    let marked = with_inaccessible(names, joined, new.directives);
    lemma_members_begin(graph, start.members, marked, new.members, new.members.len(), graph);
    lemma_joined(before, after, graph, Seq::empty(), false, names, new.directives);
    assert(new.members.take(new.members.len() as int) =~= new.members);
    assert forall|part: Text|
        start.members.contains(part) || new.members.contains(part) implies #[trigger] has_part(
        after,
        part,
    ) by {
        lemma_members_begin(graph, start.members, marked, new.members, new.members.len(), part);
    }
}

/// What is there of a type once one of a subgraph was merged.
proof fn lemma_type_represented(
    m: MergerView,
    types: TypeEntries,
    names: DirectiveNamesView,
    graph: Text,
    name: Text,
    ty: ExtendedTypeView,
)
    ensures
        ({
            let after = merged_type(m, types, names, graph, name, ty).1;
            &&& extends(after, types)
            &&& !type_is_built_in(ty) && mergeable_type(name) ==> represents(after, name, ty, graph)
        }),
{
    if type_is_built_in(ty) || !mergeable_type(name) {
    } else {
        if has_key(types, name) {
            lemma_key_index(types, name);
        }
        let start = value_or(
            types,
            name,
            match ty {
                ExtendedTypeView::Enum(t) => copied_enum(name, t),
                ExtendedTypeView::InputObject(t) => copied_input_object(name, t),
                ExtendedTypeView::Interface(t) => copied_interface(name, t),
                ExtendedTypeView::Object(t) => copied_object(
                    name,
                    t,
                    has_directive(t.directives, names.interface_object),
                ),
                ExtendedTypeView::Union(t) => copied_union(name, t.description),
                ExtendedTypeView::Scalar(t) => copied_scalar(name, t),
            },
        );
        let after = merged_type(m, types, names, graph, name, ty).1;
        let merged = match (start, ty) {
            (ExtendedTypeView::Enum(a), ExtendedTypeView::Enum(b)) => {
                lemma_enum_taken_up(m, names, graph, a, b);
                ExtendedTypeView::Enum(merged_enum(m, names, graph, a, b).1)
            },
            (ExtendedTypeView::InputObject(a), ExtendedTypeView::InputObject(b)) => {
                lemma_input_taken_up(m, names, graph, a, b);
                ExtendedTypeView::InputObject(merged_input_object(m, names, graph, a, b).1)
            },
            (ExtendedTypeView::Interface(a), ExtendedTypeView::Interface(b)) => {
                lemma_interface_taken_up(m, names, graph, a, b);
                ExtendedTypeView::Interface(merged_interface(m, names, graph, a, b).1)
            },
            (ExtendedTypeView::Object(a), ExtendedTypeView::Object(b)) => {
                lemma_object_taken_up(m, names, graph, a, b);
                ExtendedTypeView::Object(merged_object(m, names, graph, a, b).1)
            },
            (ExtendedTypeView::Interface(a), ExtendedTypeView::Object(b)) => {
                lemma_interface_object_taken_up(m, names, graph, a, b);
                ExtendedTypeView::Interface(merged_interface_object(m, names, graph, a, b).1)
            },
            (ExtendedTypeView::Union(a), ExtendedTypeView::Union(b)) => {
                lemma_union_taken_up(m, names, graph, a, b);
                ExtendedTypeView::Union(merged_union(m, names, graph, a, b).1)
            },
            (ExtendedTypeView::Scalar(a), ExtendedTypeView::Scalar(b)) => {
                let joined = a.directives + join_types(graph, Seq::empty(), false);
                let merged = ExtendedTypeView::Scalar(
                    ScalarView {
                        directives: with_inaccessible(names, joined, b.directives),
                        ..a
                    },
                );
                lemma_joined(start, merged, graph, Seq::empty(), false, names, b.directives);
                merged
            },
            _ => start,
        };
        assert(covers(start, start));
        assert(covers(merged, start));
        lemma_put_extends(types, name, merged);
        assert(after == put(types, name, merged));
    }
}

// All types of all subgraphs.

proof fn lemma_types_represented(
    m: MergerView,
    types: TypeEntries,
    names: DirectiveNamesView,
    graph: Text,
    new: TypeEntries,
    n: nat,
    i: int,
)
    requires
        n <= new.len(),
    ensures
        extends(merged_types(m, types, names, graph, new, n).1, types),
        0 <= i < n && !type_is_built_in(new[i].1) && mergeable_type(new[i].0) ==> represents(
            merged_types(m, types, names, graph, new, n).1,
            new[i].0,
            new[i].1,
            graph,
        ),
    decreases n,
{
    if n > 0 {
        lemma_types_represented(m, types, names, graph, new, (n - 1) as nat, i);
        let (m1, before) = merged_types(m, types, names, graph, new, (n - 1) as nat);
        let (name, ty) = new[n - 1];
        lemma_type_represented(m1, before, names, graph, name, ty);
        let after = merged_types(m, types, names, graph, new, n).1;
        lemma_extends(after, before, types);
        if 0 <= i < n - 1 && !type_is_built_in(new[i].1) && mergeable_type(new[i].0) {
            lemma_represents(after, before, new[i].0, new[i].1, graph);
        }
    } else {
        lemma_same_extends(types);
    }
}

proof fn lemma_same_extends(types: TypeEntries)
    ensures
        extends(types, types),
{
}

proof fn lemma_subgraphs_represented(
    m: MergerView,
    supergraph: SchemaView,
    graphs: Seq<(SubgraphView, Text)>,
    n: nat,
    g: int,
    i: int,
)
    requires
        0 <= g < n <= graphs.len(),
        0 <= i < graphs[g].0.schema.schema.types.len(),
        !type_is_built_in(graphs[g].0.schema.schema.types[i].1),
        mergeable_type(graphs[g].0.schema.schema.types[i].0),
    ensures
        represents(
            merged_subgraphs(m, supergraph, graphs, n).1.types,
            graphs[g].0.schema.schema.types[i].0,
            graphs[g].0.schema.schema.types[i].1,
            graphs[g].1,
        ),
    decreases n,
{
    let (m1, before) = merged_subgraphs(m, supergraph, graphs, (n - 1) as nat);
    let (subgraph, graph) = graphs[n - 1];
    let after = merged_subgraph(m1, before, subgraph, graph).1;
    let new = subgraph.schema.schema;
    let m2 = after_description(
        m1,
        before.schema_definition.description,
        new.schema_definition.description,
    );
    lemma_types_represented(
        m2,
        before.types,
        federation_names(subgraph.schema.metadata),
        graph,
        new.types,
        new.types.len(),
        i,
    );
    if g < n - 1 {
        lemma_subgraphs_represented(m, supergraph, graphs, (n - 1) as nat, g, i);
        let (name, ty) = graphs[g].0.schema.schema.types[i];
        lemma_represents(after.types, before.types, name, ty, graphs[g].1);
    }
}

// Fields of interface objects.

proof fn lemma_interface_fields_kept(
    fields: Entries<FieldView>,
    more: Entries<FieldView>,
    n: nat,
    part: Text,
)
    requires
        has_key(fields, part),
    ensures
        has_key(with_interface_fields(fields, more, n), part),
    decreases n,
{
    if n > 0 {
        lemma_interface_fields_kept(fields, more, (n - 1) as nat, part);
        let before = with_interface_fields(fields, more, (n - 1) as nat);
        let after = with_interface_fields(fields, more, n);
        let i = choose|i: int| 0 <= i < before.len() && (#[trigger] before[i]).0 == part;
        assert(after[i] == before[i]);
    }
}

proof fn lemma_implementers_extend(
    types: TypeEntries,
    implementers: Seq<Text>,
    fields: Entries<FieldView>,
    n: nat,
)
    ensures
        extends(with_implementer_fields(types, implementers, fields, n), types),
    decreases n,
{
    if n > 0 {
        lemma_implementers_extend(types, implementers, fields, (n - 1) as nat);
        let before = with_implementer_fields(types, implementers, fields, (n - 1) as nat);
        let after = with_implementer_fields(types, implementers, fields, n);
        let name = implementers[n - 1];
        match value_of(before, name) {
            Some(ExtendedTypeView::Object(o)) => {
                let start = ExtendedTypeView::Object(o);
                let extended = ExtendedTypeView::Object(
                    ObjectView {
                        fields: with_interface_fields(o.fields, fields, fields.len()),
                        ..o
                    },
                );
                assert forall|part: Text| has_part(start, part) implies #[trigger] has_part(
                    extended,
                    part,
                ) by {
                    lemma_interface_fields_kept(o.fields, fields, fields.len(), part);
                }
                assert(directives_of(extended) == directives_of(start));
                assert forall|graph: Text| is_joined(start, graph) implies #[trigger] is_joined(
                    extended,
                    graph,
                ) by {
                    let i = choose|i: int|
                        0 <= i < directives_of(start).len() && joins(
                            #[trigger] directives_of(start)[i],
                            graph,
                        );
                    assert(joins(directives_of(extended)[i], graph));
                }
                assert(covers(extended, start));
                lemma_put_extends(before, name, extended);
                lemma_extends(after, before, types);
            },
            _ => {},
        }
    } else {
        lemma_same_extends(types);
    }
}

proof fn lemma_interface_objects_extend(
    types: TypeEntries,
    map: Entries<ImplementersView>,
    interface_objects: Seq<Text>,
    n: nat,
)
    ensures
        extends(with_interface_object_fields(types, map, interface_objects, n).1, types),
    decreases n,
{
    if n > 0 {
        lemma_interface_objects_extend(types, map, interface_objects, (n - 1) as nat);
        let (error, before) = with_interface_object_fields(
            types,
            map,
            interface_objects,
            (n - 1) as nat,
        );
        let after = with_interface_object_fields(types, map, interface_objects, n).1;
        let name = interface_objects[n - 1];
        lemma_same_extends(before);
        match (value_of(before, name), value_of(map, name)) {
            (Some(ExtendedTypeView::Interface(interface)), Some(implementers)) => {
                lemma_implementers_extend(
                    before,
                    implementers.objects + implementers.interfaces,
                    interface.fields,
                    implementers.objects.len() + implementers.interfaces.len(),
                );
            },
            _ => {},
        }
        lemma_extends(after, before, types);
    } else {
        lemma_same_extends(types);
    }
}

/// The supergraph has every type of every subgraph that composition takes over, with all its
/// fields, values and members, and says that it is in the subgraph.
pub proof fn law_types_are_represented(
    base: SchemaView,
    subgraphs: Seq<SubgraphView>,
    g: int,
    i: int,
)
    requires
        ({
            let sorted = sorted_by_name(subgraphs);
            let chosen = choose_values(Seq::empty(), sorted, sorted.len()).chosen;
            &&& 0 <= g < chosen.len()
            &&& 0 <= i < chosen[g].0.schema.schema.types.len()
            &&& !type_is_built_in(chosen[g].0.schema.schema.types[i].1)
            &&& mergeable_type(chosen[g].0.schema.schema.types[i].0)
        }),
    ensures
        ({
            let sorted = sorted_by_name(subgraphs);
            let (subgraph, graph) = choose_values(Seq::empty(), sorted, sorted.len()).chosen[g];
            let (name, ty) = subgraph.schema.schema.types[i];
            merge_result(new_merger(), base, subgraphs).1 matches MergeOutcome::Success {
                schema,
                hints,
            } ==> represents(schema.types, name, ty, graph)
        }),
{
    let m = new_merger();
    let sorted = sorted_by_name(subgraphs);
    let chosen = choose_values(Seq::empty(), sorted, sorted.len()).chosen;
    let start = with_join_feature(with_link_feature(base), chosen);
    assert(MergerView { errors: Seq::empty(), ..m } == m);
    assert(m.errors =~= Seq::empty());
    lemma_subgraphs_represented(m, start, chosen, chosen.len(), g, i);
    let (merged, stubs) = merged_subgraphs(m, start, chosen, chosen.len());
    let map = implementers_of(stubs.types, stubs.types.len());
    let all = merged.interface_objects;
    lemma_interface_objects_extend(stubs.types, map, all, all.len());
    let (name, ty) = chosen[g].0.schema.schema.types[i];
    lemma_represents(
        with_interface_object_fields(stubs.types, map, all, all.len()).1,
        stubs.types,
        name,
        ty,
        chosen[g].1,
    );
}

} // verus!
