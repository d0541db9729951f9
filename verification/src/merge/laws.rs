//! What holds of composition as a whole.

use crate::ast::EnumValueDefinitionView;
use crate::ast::FieldView;
use crate::ast::InputValueView;
use crate::collections::has_key;
use crate::collections::key_index;
use crate::collections::lemma_key_index;
use crate::collections::lemma_value_of_put;
use crate::collections::put;
use crate::collections::set_with;
use crate::collections::value_of;
use crate::collections::value_or;
use crate::collections::Entries;
use crate::merge::choose_values;
use crate::merge::core_features::graph_value;
use crate::merge::core_features::graph_values;
use crate::merge::core_features::join_graph_enum;
use crate::merge::core_features::with_join_feature;
use crate::merge::core_features::with_link_feature;
use crate::merge::directives::federation_names;
use crate::merge::directives::DirectiveNamesView;
use crate::merge::enum_value::enum_char;
use crate::merge::enum_value::enum_value_text;
use crate::merge::enum_value::prefixed;
use crate::merge::free_number;
use crate::merge::insert_by_name;
use crate::merge::mergeable_type;
use crate::merge::merged_subgraphs;
use crate::merge::merged_type;
use crate::merge::merged_types;
use crate::merge::merger::after_description;
use crate::merge::merger::after_inaccessible;
use crate::merge::merger::field_stub;
use crate::merge::merger::merged_arguments;
use crate::merge::merger::merged_enum_values;
use crate::merge::merger::merged_input_fields;
use crate::merge::merger::merged_interface_fields;
use crate::merge::merger::merged_object_fields;
use crate::merge::merger::MergerView;
use crate::merge::merger::TypeEntries;
use crate::merge::merge_result;
use crate::merge::new_merger;
use crate::merge::numbered_value;
use crate::merge::sorted_by_name;
use crate::merge::with_implementer_fields;
use crate::merge::with_interface_fields;
use crate::merge::with_interface_object_fields;
use crate::merge::MergeOutcome;
use crate::merge::SubgraphView;
use crate::schema::implementers_of;
use crate::schema::type_is_built_in;
use crate::schema::ExtendedTypeView;
use crate::schema::ImplementersView;
use crate::schema::ObjectView;
use crate::schema::SchemaView;
use crate::text::decimal;
use crate::text::lemma_decimals_differ;
use crate::text::lemma_decimal_has_digits;
use crate::text::text_le;
use crate::text::text_lt;
use crate::text::text_order_is_strict;
use crate::text::text_order_is_total;
use crate::text::text_order_is_transitive;
use crate::text::Text;
use vstd::prelude::*;

verus! {

/// No two of the subgraphs have the same name.
pub open spec fn names_distinct(subgraphs: Seq<SubgraphView>) -> bool {
    forall|i: int, j: int|
        0 <= i < j < subgraphs.len() ==> (#[trigger] subgraphs[i]).name != (
        #[trigger] subgraphs[j]).name
}

/// The subgraphs stand in the order of their names.
pub open spec fn in_name_order(subgraphs: Seq<SubgraphView>) -> bool {
    forall|i: int, j: int|
        0 <= i < j < subgraphs.len() ==> text_le(
            (#[trigger] subgraphs[i]).name,
            (#[trigger] subgraphs[j]).name,
        )
}

proof fn lemma_le_transitive(a: Text, b: Text, c: Text)
    requires
        text_le(a, b),
        text_le(b, c),
    ensures
        text_le(a, c),
{
    if a != b && b != c {
        text_order_is_transitive(a, b, c);
    }
}

proof fn lemma_insert(sorted: Seq<SubgraphView>, new: SubgraphView)
    requires
        in_name_order(sorted),
    ensures
        in_name_order(insert_by_name(sorted, new)),
        insert_by_name(sorted, new).to_multiset() =~= sorted.to_multiset().insert(new),
        insert_by_name(sorted, new).len() == sorted.len() + 1,
        sorted.len() > 0 && !text_lt(new.name, sorted[0].name) ==> insert_by_name(sorted, new)[0]
            == sorted[0],
        sorted.len() == 0 || text_lt(new.name, sorted[0].name) ==> insert_by_name(sorted, new)[0]
            == new,
    decreases sorted.len(),
{
    broadcast use vstd::seq_lib::group_to_multiset_ensures;

    let r = insert_by_name(sorted, new);
    if sorted.len() == 0 {
        assert(sorted =~= Seq::empty());
        assert(r =~= sorted.push(new));
    } else if text_lt(new.name, sorted[0].name) {
        assert(r =~= sorted.insert(0, new));
        assert forall|i: int, j: int| 0 <= i < j < r.len() implies text_le(
            (#[trigger] r[i]).name,
            (#[trigger] r[j]).name,
        ) by {
            if i == 0 {
                if j > 1 {
                    assert(text_le(sorted[0].name, sorted[j - 1].name));
                }
                lemma_le_transitive(new.name, sorted[0].name, sorted[j - 1].name);
            } else {
                assert(r[i] == sorted[i - 1] && r[j] == sorted[j - 1]);
            }
        }
    } else {
        let rest = sorted.drop_first();
        assert(in_name_order(rest)) by {
            assert forall|i: int, j: int| 0 <= i < j < rest.len() implies text_le(
                (#[trigger] rest[i]).name,
                (#[trigger] rest[j]).name,
            ) by {
                assert(rest[i] == sorted[i + 1] && rest[j] == sorted[j + 1]);
            }
        }
        lemma_insert(rest, new);
        let inner = insert_by_name(rest, new);
        text_order_is_total(new.name, sorted[0].name);
        assert(text_le(sorted[0].name, new.name));
        if rest.len() > 0 {
            assert(text_le(sorted[0].name, sorted[1].name));
        }
        assert(text_le(sorted[0].name, inner[0].name));
        assert forall|i: int, j: int| 0 <= i < j < r.len() implies text_le(
            (#[trigger] r[i]).name,
            (#[trigger] r[j]).name,
        ) by {
            assert(r[j] == inner[j - 1]);
            if i == 0 {
                if j > 1 {
                    assert(text_le(inner[0].name, inner[j - 1].name));
                    lemma_le_transitive(sorted[0].name, inner[0].name, inner[j - 1].name);
                }
            } else {
                assert(r[i] == inner[i - 1]);
            }
        }
        assert(r =~= inner.insert(0, sorted[0]));
        assert(sorted =~= rest.insert(0, sorted[0]));
    }
}

/// Composition goes through the subgraphs in the order of their names, each of them once.
pub proof fn law_subgraphs_are_sorted(subgraphs: Seq<SubgraphView>)
    ensures
        in_name_order(sorted_by_name(subgraphs)),
        sorted_by_name(subgraphs).to_multiset() == subgraphs.to_multiset(),
    decreases subgraphs.len(),
{
    broadcast use vstd::seq_lib::group_to_multiset_ensures;

    if subgraphs.len() > 0 {
        law_subgraphs_are_sorted(subgraphs.drop_last());
        lemma_insert(sorted_by_name(subgraphs.drop_last()), subgraphs.last());
        assert(subgraphs =~= subgraphs.drop_last().push(subgraphs.last()));
    } else {
        assert(subgraphs =~= Seq::empty());
    }
}

proof fn lemma_multiset_member(s: Seq<SubgraphView>, t: Seq<SubgraphView>, i: int) -> (j: int)
    requires
        s.to_multiset() == t.to_multiset(),
        0 <= i < s.len(),
    ensures
        0 <= j < t.len(),
        t[j] == s[i],
{
    broadcast use vstd::seq_lib::group_to_multiset_ensures;

    assert(s.contains(s[i]));
    assert(s.to_multiset().count(s[i]) > 0);
    assert(t.contains(s[i]));
    choose|j: int| 0 <= j < t.len() && t[j] == s[i]
}

proof fn lemma_sorted_is_unique(s: Seq<SubgraphView>, t: Seq<SubgraphView>)
    requires
        in_name_order(s),
        in_name_order(t),
        names_distinct(s),
        s.to_multiset() == t.to_multiset(),
    ensures
        s == t,
    decreases s.len(),
{
    broadcast use vstd::seq_lib::group_to_multiset_ensures;

    s.to_multiset_ensures();
    t.to_multiset_ensures();
    if s.len() == 0 {
        assert(s =~= t);
    } else {
        let last = s.len() - 1;
        let j = lemma_multiset_member(s, t, last);
        let i = lemma_multiset_member(t, s, last);
        if i < last && j < last {
            assert(text_le(s[i].name, s[last].name));
            assert(text_le(t[j].name, t[last].name));
            text_order_is_strict(s[i].name, s[last].name);
            assert(s[i].name != s[last].name);
            assert(false);
        }
        assert(s[last] == t[last]);
        assert(s =~= s.drop_last().push(s[last]));
        assert(t =~= t.drop_last().push(t[last]));
        assert(s.drop_last().to_multiset() =~= t.drop_last().to_multiset()) by {
            assert(s.to_multiset() =~= s.drop_last().to_multiset().insert(s[last]));
            assert(t.to_multiset() =~= t.drop_last().to_multiset().insert(s[last]));
            assert(s.to_multiset().remove(s[last]) =~= s.drop_last().to_multiset());
            assert(t.to_multiset().remove(s[last]) =~= t.drop_last().to_multiset());
        }
        lemma_sorted_is_unique(s.drop_last(), t.drop_last());
    }
}

proof fn lemma_distinct_by_multiset(s: Seq<SubgraphView>, t: Seq<SubgraphView>)
    requires
        names_distinct(t),
        s.to_multiset() == t.to_multiset(),
    ensures
        names_distinct(s),
{
    broadcast use vstd::seq_lib::group_to_multiset_ensures;

    assert(t.no_duplicates()) by {
        assert forall|i: int, j: int| 0 <= i < t.len() && 0 <= j < t.len() && i != j implies t[i]
            != t[j] by {
            if i < j {
                assert(t[i].name != t[j].name);
            } else {
                assert(t[j].name != t[i].name);
            }
        }
    }
    t.lemma_multiset_has_no_duplicates();
    s.lemma_multiset_has_no_duplicates_conv();
    assert forall|i: int, j: int| 0 <= i < j < s.len() implies (#[trigger] s[i]).name != (
    #[trigger] s[j]).name by {
        let a = lemma_multiset_member(s, t, i);
        let b = lemma_multiset_member(s, t, j);
        assert(s[i] != s[j]);
        if a < b {
            assert(t[a].name != t[b].name);
        } else {
            assert(t[b].name != t[a].name);
        }
    }
}

/// The order in which distinctly named subgraphs are given does not matter.
pub proof fn law_order_of_subgraphs_does_not_matter(
    m: MergerView,
    base: SchemaView,
    subgraphs: Seq<SubgraphView>,
    others: Seq<SubgraphView>,
)
    requires
        names_distinct(subgraphs),
        subgraphs.to_multiset() == others.to_multiset(),
    ensures
        merge_result(m, base, subgraphs) == merge_result(m, base, others),
{
    law_subgraphs_are_sorted(subgraphs);
    law_subgraphs_are_sorted(others);
    lemma_distinct_by_multiset(sorted_by_name(subgraphs), subgraphs);
    lemma_sorted_is_unique(sorted_by_name(subgraphs), sorted_by_name(others));
}

proof fn lemma_distinct_within(values: Seq<Text>, taken: Seq<Text>)
    requires
        values.no_duplicates(),
        forall|i: int| 0 <= i < values.len() ==> taken.contains(#[trigger] values[i]),
    ensures
        values.len() <= taken.len(),
{
    values.unique_seq_to_set();
    taken.lemma_cardinality_of_set();
    vstd::seq_lib::seq_to_set_is_finite(taken);
    assert(values.to_set().subset_of(taken.to_set()));
    vstd::set_lib::lemma_len_subset(values.to_set(), taken.to_set());
}

/// Different numbers lead to different values.
proof fn lemma_numbered_values_differ(name: Text, j: nat, k: nat)
    requires
        name.len() > 0,
        j != k,
    ensures
        numbered_value(name, j) != numbered_value(name, k),
{
    reveal_strlit("_");
    lemma_decimals_differ(j, k);
    lemma_decimal_has_digits(j);
    lemma_decimal_has_digits(k);
    let a = name + "_"@ + decimal(j);
    let b = name + "_"@ + decimal(k);
    let n: int = prefixed(a).len() - decimal(j).len();
    assert(a[0] == name[0] && b[0] == name[0]);
    if numbered_value(name, j) == numbered_value(name, k) {
        assert(prefixed(b).len() - decimal(k).len() == n);
        assert(numbered_value(name, j).len() == prefixed(a).len());
        assert(numbered_value(name, k).len() == prefixed(b).len());
        assert(decimal(j).len() == decimal(k).len());
        assert forall|i: int| 0 <= i < decimal(j).len() implies decimal(j)[i] == decimal(k)[i] by {
            assert(prefixed(a)[n + i] == decimal(j)[i]);
            assert(prefixed(b)[n + i] == decimal(k)[i]);
            assert(numbered_value(name, j)[n + i] == enum_char(decimal(j)[i]));
            assert(numbered_value(name, k)[n + i] == enum_char(decimal(k)[i]));
        }
        assert(decimal(j) =~= decimal(k));
    }
}

proof fn lemma_number_is_free(taken: Seq<Text>, name: Text, k: nat, tries: nat, tried: Seq<Text>)
    requires
        name.len() > 0,
        tried.len() <= k,
        tried.len() + tries == taken.len(),
        forall|i: int|
            0 <= i < tried.len() ==> taken.contains(#[trigger] tried[i]) && tried[i]
                == numbered_value(name, (k - tried.len() + i) as nat),
    ensures
        !taken.contains(numbered_value(name, free_number(taken, name, k, tries))),
    decreases tries,
{
    let value = numbered_value(name, k);
    if taken.contains(value) {
        let now = tried.push(value);
        assert forall|i: int| 0 <= i < now.len() implies taken.contains(#[trigger] now[i]) && now[i]
            == numbered_value(name, (k + 1 - now.len() + i) as nat) by {
            if i < tried.len() {
                assert(now[i] == tried[i]);
            }
        }
        if tries > 0 {
            lemma_number_is_free(taken, name, k + 1, (tries - 1) as nat, now);
        } else {
            assert forall|i: int, j: int| 0 <= i < j < now.len() implies now[i] != now[j] by {
                lemma_numbered_values_differ(
                    name,
                    (k + 1 - now.len() + i) as nat,
                    (k + 1 - now.len() + j) as nat,
                );
            }
            lemma_distinct_within(now, taken);
        }
    }
}

proof fn lemma_values_taken(errors: Seq<Text>, subgraphs: Seq<SubgraphView>, n: nat)
    requires
        n <= subgraphs.len(),
    ensures
        ({
            let values = choose_values(errors, subgraphs, n);
            &&& values.taken.len() == values.chosen.len()
            &&& forall|i: int|
                0 <= i < values.chosen.len() ==> values.taken[i] == (
                #[trigger] values.chosen[i]).1
            &&& values.taken.no_duplicates()
        }),
    decreases n,
{
    if n > 0 {
        lemma_values_taken(errors, subgraphs, (n - 1) as nat);
        let before = choose_values(errors, subgraphs, (n - 1) as nat);
        let name = subgraphs[n - 1].name;
        if name.len() > 0 && before.taken.contains(enum_value_text(name)) {
            let k = before.taken.len();
            lemma_number_is_free(before.taken, name, k, k, Seq::empty());
        }
    }
}

/// Each subgraph gets a value of `join__Graph` of its own.
pub proof fn law_graph_values_are_distinct(subgraphs: Seq<SubgraphView>)
    ensures
        ({
            let chosen = choose_values(Seq::empty(), subgraphs, subgraphs.len()).chosen;
            forall|i: int, j: int|
                0 <= i < j < chosen.len() ==> (#[trigger] chosen[i]).1 != (
                #[trigger] chosen[j]).1
        }),
{
    lemma_values_taken(Seq::empty(), subgraphs, subgraphs.len());
}

/// Every interface is named as it is filed, and every interface object is an interface.
pub open spec fn interfaces_in_place(m: MergerView, types: TypeEntries) -> bool {
    &&& forall|k: Text|
        (#[trigger] value_of(types, k)) matches Some(ExtendedTypeView::Interface(i)) ==> i.name
            == k
    &&& forall|n: int|
        0 <= n < m.interface_objects.len() ==> value_of(
            types,
            #[trigger] m.interface_objects[n],
        ) matches Some(ExtendedTypeView::Interface(_))
}

proof fn lemma_put_type(m: MergerView, types: TypeEntries, name: Text, ty: ExtendedTypeView)
    requires
        interfaces_in_place(m, types),
        ty matches ExtendedTypeView::Interface(i) ==> i.name == name,
        value_of(types, name) matches Some(ExtendedTypeView::Interface(_)) ==> ty is Interface,
    ensures
        interfaces_in_place(m, put(types, name, ty)),
{
    let after = put(types, name, ty);
    assert forall|k: Text|
        (#[trigger] value_of(after, k)) matches Some(ExtendedTypeView::Interface(i)) implies (
    value_of(after, k)->0)->Interface_0.name == k by {
        lemma_value_of_put(types, name, ty, k);
    }
    assert forall|n: int| 0 <= n < m.interface_objects.len() implies value_of(
        after,
        #[trigger] m.interface_objects[n],
    ) matches Some(ExtendedTypeView::Interface(_)) by {
        lemma_value_of_put(types, name, ty, m.interface_objects[n]);
    }
}

proof fn lemma_arguments_keep(
    m: MergerView,
    names: DirectiveNamesView,
    arguments: Seq<InputValueView>,
    new: Seq<InputValueView>,
    n: nat,
)
    ensures
        ({
            let after = merged_arguments(m, names, arguments, new, n).0;
            after.errors == m.errors && after.interface_objects == m.interface_objects
        }),
    decreases n,
{
    if n > 0 {
        lemma_arguments_keep(m, names, arguments, new, (n - 1) as nat);
    }
}

proof fn lemma_object_fields_keep(
    m: MergerView,
    names: DirectiveNamesView,
    graph: Text,
    merged: Entries<FieldView>,
    new: Entries<FieldView>,
    n: nat,
)
    ensures
        ({
            let after = merged_object_fields(m, names, graph, merged, new, n).0;
            after.errors == m.errors && after.interface_objects == m.interface_objects
        }),
    decreases n,
{
    if n > 0 {
        lemma_object_fields_keep(m, names, graph, merged, new, (n - 1) as nat);
        let (m1, fields) = merged_object_fields(m, names, graph, merged, new, (n - 1) as nat);
        let (name, field) = new[n - 1];
        let old_field = value_or(fields, name, field_stub(field));
        let m2 = after_inaccessible(
            after_description(
                m1,
                old_field.description,
                field.description,
            ),
            names,
            old_field.directives,
            field.directives,
        );
        lemma_arguments_keep(
            m2,
            names,
            old_field.arguments,
            field.arguments,
            field.arguments.len(),
        );
    }
}

proof fn lemma_interface_fields_keep(
    m: MergerView,
    names: DirectiveNamesView,
    graph: Text,
    merged: Entries<FieldView>,
    new: Entries<FieldView>,
    n: nat,
)
    ensures
        ({
            let after = merged_interface_fields(m, names, graph, merged, new, n).0;
            after.errors == m.errors && after.interface_objects == m.interface_objects
        }),
    decreases n,
{
    if n > 0 {
        lemma_interface_fields_keep(m, names, graph, merged, new, (n - 1) as nat);
        let (m1, fields) = merged_interface_fields(m, names, graph, merged, new, (n - 1) as nat);
        let (name, field) = new[n - 1];
        let old_field = value_or(fields, name, field_stub(field));
        lemma_arguments_keep(
            m1,
            names,
            old_field.arguments,
            field.arguments,
            field.arguments.len(),
        );
    }
}

proof fn lemma_input_fields_keep(
    m: MergerView,
    names: DirectiveNamesView,
    graph: Text,
    merged: Entries<InputValueView>,
    new: Entries<InputValueView>,
    n: nat,
)
    ensures
        ({
            let after = merged_input_fields(m, names, graph, merged, new, n).0;
            after.errors == m.errors && after.interface_objects == m.interface_objects
        }),
    decreases n,
{
    if n > 0 {
        lemma_input_fields_keep(m, names, graph, merged, new, (n - 1) as nat);
    }
}

proof fn lemma_enum_values_keep(
    m: MergerView,
    names: DirectiveNamesView,
    graph: Text,
    merged: Entries<EnumValueDefinitionView>,
    new: Entries<EnumValueDefinitionView>,
    n: nat,
)
    ensures
        ({
            let after = merged_enum_values(m, names, graph, merged, new, n).0;
            after.errors == m.errors && after.interface_objects == m.interface_objects
        }),
    decreases n,
{
    if n > 0 {
        lemma_enum_values_keep(m, names, graph, merged, new, (n - 1) as nat);
    }
}

/// What merging a type does to the types: the type of its name keeps its kind, and the merger
/// gets no error.
proof fn lemma_type_step(
    m: MergerView,
    types: TypeEntries,
    names: DirectiveNamesView,
    graph: Text,
    name: Text,
    ty: ExtendedTypeView,
)
    requires
        interfaces_in_place(m, types),
    ensures
        ({
            let (after, result) = merged_type(m, types, names, graph, name, ty);
            &&& after.errors == m.errors
            &&& interfaces_in_place(after, result)
            &&& forall|k: Text| #[trigger] has_key(result, k) == (has_key(types, k) || (k == name
                && !type_is_built_in(ty) && mergeable_type(name)))
        }),
{
    if !type_is_built_in(ty) && mergeable_type(name) {
        let (after, result) = merged_type(m, types, names, graph, name, ty);
        let merged = value_of(result, name)->0;
        assert(result == put(types, name, merged)) by {
            lemma_put_value(types, name, result);
        }
        assert forall|k: Text| #[trigger] has_key(result, k) == (has_key(types, k) || k == name) by {
            lemma_value_of_put(types, name, merged, k);
        }
        if has_key(types, name) {
            lemma_key_index(types, name);
            assert(value_of(types, name) is Some);
        }
        lemma_merged_kind(m, types, names, graph, name, ty);
        lemma_put_type(m, types, name, merged);
        if after.interface_objects != m.interface_objects {
            assert forall|n: int| 0 <= n < after.interface_objects.len() implies value_of(
                result,
                #[trigger] after.interface_objects[n],
            ) matches Some(ExtendedTypeView::Interface(_)) by {
                if n < m.interface_objects.len() {
                    assert(after.interface_objects[n] == m.interface_objects[n]);
                } else {
                    assert(after.interface_objects[n] == name);
                }
            }
        }
    }
}

proof fn lemma_put_value(types: TypeEntries, name: Text, result: TypeEntries)
    requires
        exists|v: ExtendedTypeView| result == #[trigger] put(types, name, v),
    ensures
        result == put(types, name, value_of(result, name)->0),
        has_key(result, name),
{
    let v = choose|v: ExtendedTypeView| result == #[trigger] put(types, name, v);
    lemma_value_of_put(types, name, v, name);
}

proof fn lemma_merged_kind(
    m: MergerView,
    types: TypeEntries,
    names: DirectiveNamesView,
    graph: Text,
    name: Text,
    ty: ExtendedTypeView,
)
    requires
        interfaces_in_place(m, types),
        !type_is_built_in(ty),
        mergeable_type(name),
    ensures
        ({
            let (after, result) = merged_type(m, types, names, graph, name, ty);
            let merged = value_of(result, name)->0;
            &&& after.errors == m.errors
            &&& after.interface_objects == m.interface_objects || (after.interface_objects
                == set_with(m.interface_objects, name) && merged is Interface)
            &&& merged matches ExtendedTypeView::Interface(i) ==> i.name == name
            &&& value_of(types, name) matches Some(ExtendedTypeView::Interface(_)) ==> merged is Interface
        }),
{
    let (after, result) = merged_type(m, types, names, graph, name, ty);
    let merged = value_of(result, name)->0;
    assert forall|v: ExtendedTypeView| value_of(#[trigger] put(types, name, v), name) == Some(
        v,
    ) by {
        lemma_value_of_put(types, name, v, name);
    }
    if has_key(types, name) {
        lemma_key_index(types, name);
        assert(value_of(types, name) == Some(types[key_index(types, name)].1));
    }
    assert forall|mm: MergerView, a: Entries<FieldView>, b: Entries<FieldView>| ({
        let x = (#[trigger] merged_object_fields(mm, names, graph, a, b, b.len())).0;
        x.errors == mm.errors && x.interface_objects == mm.interface_objects
    }) by {
        lemma_object_fields_keep(mm, names, graph, a, b, b.len());
    }
    assert forall|mm: MergerView, a: Entries<FieldView>, b: Entries<FieldView>| ({
        let x = (#[trigger] merged_interface_fields(mm, names, graph, a, b, b.len())).0;
        x.errors == mm.errors && x.interface_objects == mm.interface_objects
    }) by {
        lemma_interface_fields_keep(mm, names, graph, a, b, b.len());
    }
    assert forall|
        mm: MergerView,
        a: Entries<InputValueView>,
        b: Entries<InputValueView>,
    | ({
        let x = (#[trigger] merged_input_fields(mm, names, graph, a, b, b.len())).0;
        x.errors == mm.errors && x.interface_objects == mm.interface_objects
    }) by {
        lemma_input_fields_keep(mm, names, graph, a, b, b.len());
    }
    assert forall|
        mm: MergerView,
        a: Entries<EnumValueDefinitionView>,
        b: Entries<EnumValueDefinitionView>,
    | ({
        let x = (#[trigger] merged_enum_values(mm, names, graph, a, b, b.len())).0;
        x.errors == mm.errors && x.interface_objects == mm.interface_objects
    }) by {
        lemma_enum_values_keep(mm, names, graph, a, b, b.len());
    }
}

/// The types of a subgraph that composition takes over.
pub open spec fn is_merged_type(types: TypeEntries, k: Text) -> bool {
    exists|i: int|
        0 <= i < types.len() && (#[trigger] types[i]).0 == k && !type_is_built_in(types[i].1)
            && mergeable_type(k)
}

proof fn lemma_types_step(
    m: MergerView,
    types: TypeEntries,
    names: DirectiveNamesView,
    graph: Text,
    new: TypeEntries,
    n: nat,
)
    requires
        interfaces_in_place(m, types),
        n <= new.len(),
    ensures
        ({
            let (after, result) = merged_types(m, types, names, graph, new, n);
            &&& after.errors == m.errors
            &&& interfaces_in_place(after, result)
            &&& forall|k: Text| #[trigger] has_key(result, k) == (has_key(types, k)
                || is_merged_type(new.take(n as int), k))
        }),
    decreases n,
{
    let (after, result) = merged_types(m, types, names, graph, new, n);
    if n > 0 {
        lemma_types_step(m, types, names, graph, new, (n - 1) as nat);
        let (m1, types1) = merged_types(m, types, names, graph, new, (n - 1) as nat);
        let (name, ty) = new[n - 1];
        lemma_type_step(m1, types1, names, graph, name, ty);
        let before = new.take(n - 1);
        let now = new.take(n as int);
        assert forall|k: Text| #[trigger] has_key(result, k) == (has_key(types, k)
            || is_merged_type(now, k)) by {
            assert(has_key(types1, k) == (has_key(types, k) || is_merged_type(before, k)));
            if is_merged_type(before, k) {
                let i = choose|i: int|
                    0 <= i < before.len() && (#[trigger] before[i]).0 == k && !type_is_built_in(
                        before[i].1,
                    ) && mergeable_type(k);
                assert(now[i] == before[i]);
            }
            assert(now[n - 1] == (name, ty));
            if is_merged_type(now, k) && !is_merged_type(before, k) {
                let i = choose|i: int|
                    0 <= i < now.len() && (#[trigger] now[i]).0 == k && !type_is_built_in(
                        now[i].1,
                    ) && mergeable_type(k);
                if i < n - 1 {
                    assert(before[i] == now[i]);
                }
            }
        }
    }
}

proof fn lemma_subgraphs_step(
    m: MergerView,
    supergraph: SchemaView,
    graphs: Seq<(SubgraphView, Text)>,
    n: nat,
)
    requires
        interfaces_in_place(m, supergraph.types),
        n <= graphs.len(),
    ensures
        ({
            let (after, result) = merged_subgraphs(m, supergraph, graphs, n);
            &&& after.errors == m.errors
            &&& interfaces_in_place(after, result.types)
            &&& forall|k: Text| #[trigger] has_key(result.types, k) == (has_key(
                supergraph.types,
                k,
            ) || exists|i: int|
                0 <= i < n && is_merged_type((#[trigger] graphs[i]).0.schema.schema.types, k))
        }),
    decreases n,
{
    if n > 0 {
        lemma_subgraphs_step(m, supergraph, graphs, (n - 1) as nat);
        let (m1, s1) = merged_subgraphs(m, supergraph, graphs, (n - 1) as nat);
        let (subgraph, graph) = graphs[n - 1];
        let m2 = after_description(
            m1,
            s1.schema_definition.description,
            subgraph.schema.schema.schema_definition.description,
        );
        let new = subgraph.schema.schema.types;
        lemma_types_step(
            m2,
            s1.types,
            federation_names(subgraph.schema.metadata),
            graph,
            new,
            new.len(),
        );
        assert(new.take(new.len() as int) =~= new);
    }
}

proof fn lemma_implementer_fields(
    m: MergerView,
    types: TypeEntries,
    implementers: Seq<Text>,
    fields: Entries<FieldView>,
    n: nat,
)
    requires
        interfaces_in_place(m, types),
    ensures
        interfaces_in_place(m, with_implementer_fields(types, implementers, fields, n)),
        forall|k: Text| #[trigger]
            has_key(with_implementer_fields(types, implementers, fields, n), k) == has_key(
                types,
                k,
            ),
    decreases n,
{
    if n > 0 {
        lemma_implementer_fields(m, types, implementers, fields, (n - 1) as nat);
        let before = with_implementer_fields(types, implementers, fields, (n - 1) as nat);
        let after = with_implementer_fields(types, implementers, fields, n);
        if let Some(ExtendedTypeView::Object(o)) = value_of(before, implementers[n - 1]) {
            let extended = ExtendedTypeView::Object(
                ObjectView {
                    fields: with_interface_fields(o.fields, fields, fields.len()),
                    ..o
                },
            );
            lemma_put_type(m, before, implementers[n - 1], extended);
            assert forall|k: Text| #[trigger] has_key(after, k) == has_key(types, k) by {
                lemma_value_of_put(before, implementers[n - 1], extended, k);
                assert(has_key(before, k) == has_key(types, k));
            }
        }
    }
}

proof fn lemma_interface_objects(
    m: MergerView,
    types: TypeEntries,
    map: Entries<ImplementersView>,
    n: nat,
)
    requires
        interfaces_in_place(m, types),
        n <= m.interface_objects.len(),
    ensures
        ({
            let (error, result) = with_interface_object_fields(
                types,
                map,
                m.interface_objects,
                n,
            );
            &&& error is None
            &&& interfaces_in_place(m, result)
            &&& forall|k: Text| #[trigger] has_key(result, k) == has_key(types, k)
        }),
    decreases n,
{
    if n > 0 {
        lemma_interface_objects(m, types, map, (n - 1) as nat);
        let (_, before) = with_interface_object_fields(
            types,
            map,
            m.interface_objects,
            (n - 1) as nat,
        );
        let name = m.interface_objects[n - 1];
        let interface = value_of(before, name)->0->Interface_0;
        if let Some(implementers) = value_of(map, name) {
            lemma_implementer_fields(
                m,
                before,
                implementers.objects + implementers.interfaces,
                interface.fields,
                implementers.objects.len() + implementers.interfaces.len(),
            );
        }
    }
}

proof fn lemma_core_types(base: SchemaView, graphs: Seq<(SubgraphView, Text)>)
    requires
        interfaces_in_place(new_merger(), base.types),
    ensures
        interfaces_in_place(
            new_merger(),
            with_join_feature(with_link_feature(base), graphs).types,
        ),
{
    let m = new_merger();
    assert forall|t: TypeEntries, k: Text, v: ExtendedTypeView|
        interfaces_in_place(m, t) && !(v is Interface) implies interfaces_in_place(
        m,
        #[trigger] put(t, k, v),
    ) by {
        assert forall|q: Text|
            (#[trigger] value_of(put(t, k, v), q)) matches Some(
                ExtendedTypeView::Interface(i),
            ) implies (value_of(put(t, k, v), q)->0)->Interface_0.name == q by {
            lemma_value_of_put(t, k, v, q);
        }
    }
}

proof fn lemma_errors_by_names(errors: Seq<Text>, subgraphs: Seq<SubgraphView>, n: nat)
    requires
        n <= subgraphs.len(),
    ensures
        ({
            let e = choose_values(errors, subgraphs, n).errors;
            &&& e.len() >= errors.len()
            &&& e.len() == errors.len() <==> forall|i: int|
                0 <= i < n ==> (#[trigger] subgraphs[i]).name.len() > 0
        }),
    decreases n,
{
    if n > 0 {
        lemma_errors_by_names(errors, subgraphs, (n - 1) as nat);
        assert(subgraphs[n - 1] == subgraphs[n - 1]);
    }
}

/// Composition succeeds on every set of subgraphs in which each one has a name, and fails on every
/// other one, whatever the types of the subgraphs are.
pub proof fn law_merge_succeeds_for_named_subgraphs(base: SchemaView, subgraphs: Seq<SubgraphView>)
    requires
        forall|k: Text|
            (#[trigger] value_of(base.types, k)) matches Some(
                ExtendedTypeView::Interface(i),
            ) ==> i.name == k,
    ensures
        merge_result(new_merger(), base, subgraphs).1 is Success <==> forall|i: int|
            0 <= i < subgraphs.len() ==> (#[trigger] subgraphs[i]).name.len() > 0,
{
    let m = new_merger();
    let sorted = sorted_by_name(subgraphs);
    law_subgraphs_are_sorted(subgraphs);
    lemma_errors_by_names(Seq::empty(), sorted, sorted.len());
    let values = choose_values(m.errors, sorted, sorted.len());
    assert((forall|i: int| 0 <= i < sorted.len() ==> (#[trigger] sorted[i]).name.len() > 0)
        == (forall|i: int|
        0 <= i < subgraphs.len() ==> (#[trigger] subgraphs[i]).name.len() > 0)) by {
        if exists|i: int| 0 <= i < sorted.len() && (#[trigger] sorted[i]).name.len() == 0 {
            let i = choose|i: int| 0 <= i < sorted.len() && (#[trigger] sorted[i]).name.len() == 0;
            let j = lemma_multiset_member(sorted, subgraphs, i);
            assert(subgraphs[j].name.len() == 0);
        }
        if exists|i: int| 0 <= i < subgraphs.len() && (#[trigger] subgraphs[i]).name.len() == 0 {
            let i = choose|i: int|
                0 <= i < subgraphs.len() && (#[trigger] subgraphs[i]).name.len() == 0;
            let j = lemma_multiset_member(subgraphs, sorted, i);
            assert(sorted[j].name.len() == 0);
        }
    }
    if values.errors.len() == 0 {
        let start = with_join_feature(with_link_feature(base), values.chosen);
        lemma_core_types(base, values.chosen);
        lemma_subgraphs_step(m, start, values.chosen, values.chosen.len());
        let (merged, stubs) = merged_subgraphs(m, start, values.chosen, values.chosen.len());
        lemma_interface_objects(
            merged,
            stubs.types,
            implementers_of(stubs.types, stubs.types.len()),
            merged.interface_objects.len(),
        );
        assert(MergerView { errors: Seq::empty(), ..m } == m);
    }
}

proof fn lemma_chosen_are_all(subgraphs: Seq<SubgraphView>, n: nat)
    requires
        n <= subgraphs.len(),
        forall|i: int| 0 <= i < subgraphs.len() ==> (#[trigger] subgraphs[i]).name.len() > 0,
    ensures
        ({
            let chosen = choose_values(Seq::empty(), subgraphs, n).chosen;
            &&& chosen.len() == n
            &&& forall|i: int| 0 <= i < n ==> (#[trigger] chosen[i]).0 == subgraphs[i]
        }),
    decreases n,
{
    if n > 0 {
        lemma_chosen_are_all(subgraphs, (n - 1) as nat);
        assert(subgraphs[n - 1].name.len() > 0);
    }
}

/// The supergraph has the types that it starts with, those of the link and join features, and
/// those of the subgraphs that composition takes over, and no others.
pub proof fn law_types_of_the_supergraph(base: SchemaView, subgraphs: Seq<SubgraphView>, k: Text)
    requires
        forall|k: Text|
            (#[trigger] value_of(base.types, k)) matches Some(
                ExtendedTypeView::Interface(i),
            ) ==> i.name == k,
        forall|i: int| 0 <= i < subgraphs.len() ==> (#[trigger] subgraphs[i]).name.len() > 0,
    ensures
        merge_result(new_merger(), base, subgraphs).1 matches MergeOutcome::Success {
            schema,
            hints,
        } && has_key(schema.types, k) == (has_key(
            with_join_feature(with_link_feature(base), Seq::empty()).types,
            k,
        ) || exists|i: int|
            0 <= i < subgraphs.len() && is_merged_type(
                (#[trigger] subgraphs[i]).schema.schema.types,
                k,
            )),
{
    let m = new_merger();
    let sorted = sorted_by_name(subgraphs);
    law_subgraphs_are_sorted(subgraphs);
    law_merge_succeeds_for_named_subgraphs(base, subgraphs);
    assert forall|i: int| 0 <= i < sorted.len() implies (#[trigger] sorted[i]).name.len() > 0 by {
        let j = lemma_multiset_member(sorted, subgraphs, i);
    }
    lemma_errors_by_names(Seq::empty(), sorted, sorted.len());
    lemma_chosen_are_all(sorted, sorted.len());
    let chosen = choose_values(m.errors, sorted, sorted.len()).chosen;
    let start = with_join_feature(with_link_feature(base), chosen);
    let empty = with_join_feature(with_link_feature(base), Seq::empty());
    lemma_core_types(base, chosen);
    lemma_subgraphs_step(m, start, chosen, chosen.len());
    let (merged, stubs) = merged_subgraphs(m, start, chosen, chosen.len());
    assert(MergerView { errors: Seq::empty(), ..m } == m);
    lemma_interface_objects(
        merged,
        stubs.types,
        implementers_of(stubs.types, stubs.types.len()),
        merged.interface_objects.len(),
    );
    assert(has_key(start.types, k) == has_key(empty.types, k)) by {
        assert forall|t: TypeEntries, v: ExtendedTypeView|
            #[trigger] has_key(put(t, "join__Graph"@, v), k) == (k == "join__Graph"@ || has_key(
                t,
                k,
            )) by {
            lemma_value_of_put(t, "join__Graph"@, v, k);
        }
    }
    if exists|i: int|
        0 <= i < subgraphs.len() && is_merged_type(
            (#[trigger] subgraphs[i]).schema.schema.types,
            k,
        ) {
        let i = choose|i: int|
            0 <= i < subgraphs.len() && is_merged_type(
                (#[trigger] subgraphs[i]).schema.schema.types,
                k,
            );
        let j = lemma_multiset_member(subgraphs, sorted, i);
        assert(chosen[j].0 == subgraphs[i]);
    }
    if exists|j: int|
        0 <= j < chosen.len() && is_merged_type((#[trigger] chosen[j]).0.schema.schema.types, k) {
        let j = choose|j: int|
            0 <= j < chosen.len() && is_merged_type(
                (#[trigger] chosen[j]).0.schema.schema.types,
                k,
            );
        let i = lemma_multiset_member(sorted, subgraphs, j);
        assert(subgraphs[i] == chosen[j].0);
    }
}

// The enum of subgraphs.

proof fn lemma_type_elsewhere(
    m: MergerView,
    types: TypeEntries,
    names: DirectiveNamesView,
    graph: Text,
    name: Text,
    ty: ExtendedTypeView,
    k: Text,
)
    requires
        name == k ==> type_is_built_in(ty) || !mergeable_type(name),
    ensures
        value_of(merged_type(m, types, names, graph, name, ty).1, k) == value_of(types, k),
{
    if name != k {
        assert forall|v: ExtendedTypeView| value_of(#[trigger] put(types, name, v), k) == value_of(
            types,
            k,
        ) by {
            lemma_value_of_put(types, name, v, k);
        }
    }
}

proof fn lemma_types_elsewhere(
    m: MergerView,
    types: TypeEntries,
    names: DirectiveNamesView,
    graph: Text,
    new: TypeEntries,
    n: nat,
    k: Text,
)
    requires
        n <= new.len(),
        !is_merged_type(new, k),
    ensures
        value_of(merged_types(m, types, names, graph, new, n).1, k) == value_of(types, k),
    decreases n,
{
    if n > 0 {
        lemma_types_elsewhere(m, types, names, graph, new, (n - 1) as nat, k);
        let (m1, before) = merged_types(m, types, names, graph, new, (n - 1) as nat);
        let (name, ty) = new[n - 1];
        lemma_type_elsewhere(m1, before, names, graph, name, ty, k);
    }
}

proof fn lemma_subgraphs_elsewhere(
    m: MergerView,
    supergraph: SchemaView,
    graphs: Seq<(SubgraphView, Text)>,
    n: nat,
    k: Text,
)
    requires
        n <= graphs.len(),
        forall|i: int|
            0 <= i < graphs.len() ==> !is_merged_type(
                (#[trigger] graphs[i]).0.schema.schema.types,
                k,
            ),
    ensures
        value_of(merged_subgraphs(m, supergraph, graphs, n).1.types, k) == value_of(
            supergraph.types,
            k,
        ),
    decreases n,
{
    if n > 0 {
        lemma_subgraphs_elsewhere(m, supergraph, graphs, (n - 1) as nat, k);
        let (m1, s1) = merged_subgraphs(m, supergraph, graphs, (n - 1) as nat);
        let (subgraph, graph) = graphs[n - 1];
        let m2 = after_description(
            m1,
            s1.schema_definition.description,
            subgraph.schema.schema.schema_definition.description,
        );
        let new = subgraph.schema.schema.types;
        let names = federation_names(subgraph.schema.metadata);
        lemma_types_elsewhere(m2, s1.types, names, graph, new, new.len(), k);
    }
}

proof fn lemma_enums_stay(
    types: TypeEntries,
    map: Entries<ImplementersView>,
    interface_objects: Seq<Text>,
    n: nat,
    k: Text,
)
    requires
        value_of(types, k) matches Some(ExtendedTypeView::Enum(_)),
    ensures
        value_of(with_interface_object_fields(types, map, interface_objects, n).1, k) == value_of(
            types,
            k,
        ),
    decreases n,
{
    if n > 0 {
        lemma_enums_stay(types, map, interface_objects, (n - 1) as nat, k);
        let (error, before) = with_interface_object_fields(
            types,
            map,
            interface_objects,
            (n - 1) as nat,
        );
        let name = interface_objects[n - 1];
        match (value_of(before, name), value_of(map, name)) {
            (Some(ExtendedTypeView::Interface(interface)), Some(implementers)) => {
                lemma_enums_stay_in(
                    before,
                    implementers.objects + implementers.interfaces,
                    interface.fields,
                    implementers.objects.len() + implementers.interfaces.len(),
                    k,
                );
            },
            _ => {},
        }
    }
}

proof fn lemma_enums_stay_in(
    types: TypeEntries,
    implementers: Seq<Text>,
    fields: Entries<FieldView>,
    n: nat,
    k: Text,
)
    requires
        value_of(types, k) matches Some(ExtendedTypeView::Enum(_)),
    ensures
        value_of(with_implementer_fields(types, implementers, fields, n), k) == value_of(types, k),
    decreases n,
{
    if n > 0 {
        lemma_enums_stay_in(types, implementers, fields, (n - 1) as nat, k);
        let before = with_implementer_fields(types, implementers, fields, (n - 1) as nat);
        let name = implementers[n - 1];
        if let Some(ExtendedTypeView::Object(o)) = value_of(before, name) {
            let extended = ExtendedTypeView::Object(
                ObjectView {
                    fields: with_interface_fields(o.fields, fields, fields.len()),
                    ..o
                },
            );
            lemma_value_of_put(before, name, extended, k);
        }
    }
}

proof fn lemma_graph_values(graphs: Seq<(SubgraphView, Text)>, n: nat)
    requires
        n <= graphs.len(),
        forall|i: int, j: int|
            0 <= i < j < graphs.len() ==> (#[trigger] graphs[i]).1 != (#[trigger] graphs[j]).1,
    ensures
        graph_values(graphs, n) == Seq::new(
            n,
            |i: int| (graphs[i].1, graph_value(graphs[i].0, graphs[i].1)),
        ),
    decreases n,
{
    let all = Seq::new(n, |i: int| (graphs[i].1, graph_value(graphs[i].0, graphs[i].1)));
    if n > 0 {
        lemma_graph_values(graphs, (n - 1) as nat);
        let before = graph_values(graphs, (n - 1) as nat);
        let value = graphs[n - 1].1;
        assert(!has_key(before, value)) by {
            if has_key(before, value) {
                lemma_key_index(before, value);
                let i = key_index(before, value);
                assert(before[i].0 == graphs[i].1);
            }
        }
        assert(graph_values(graphs, n) =~= all);
    } else {
        assert(graph_values(graphs, n) =~= all);
    }
}

/// The enum `join__Graph` of the supergraph has one value per subgraph, in the order of the names
/// of the subgraphs and all different, and each carries the name and the URL of its subgraph. A
/// subgraph that brings a type of that name along is left aside.
pub proof fn law_one_graph_value_per_subgraph(base: SchemaView, subgraphs: Seq<SubgraphView>)
    requires
        forall|i: int| 0 <= i < subgraphs.len() ==> (#[trigger] subgraphs[i]).name.len() > 0,
        forall|i: int|
            0 <= i < subgraphs.len() ==> !is_merged_type(
                (#[trigger] subgraphs[i]).schema.schema.types,
                "join__Graph"@,
            ),
    ensures
        merge_result(new_merger(), base, subgraphs).1 matches MergeOutcome::Success {
            schema,
            hints,
        } ==> ({
            let sorted = sorted_by_name(subgraphs);
            value_of(schema.types, "join__Graph"@) matches Some(ExtendedTypeView::Enum(graphs))
                && graphs.values.len() == subgraphs.len() && (forall|i: int|
                0 <= i < sorted.len() ==> (#[trigger] graphs.values[i]).1 == graph_value(
                    sorted[i],
                    graphs.values[i].0,
                )) && forall|i: int, j: int|
                0 <= i < j < graphs.values.len() ==> (#[trigger] graphs.values[i]).0 != (
                #[trigger] graphs.values[j]).0
        }),
{
    let m = new_merger();
    let k = "join__Graph"@;
    let sorted = sorted_by_name(subgraphs);
    law_subgraphs_are_sorted(subgraphs);
    assert forall|i: int| 0 <= i < sorted.len() implies (#[trigger] sorted[i]).name.len() > 0
        && !is_merged_type(sorted[i].schema.schema.types, k) by {
        let j = lemma_multiset_member(sorted, subgraphs, i);
        assert(subgraphs[j] == sorted[i]);
    }
    lemma_chosen_are_all(sorted, sorted.len());
    law_graph_values_are_distinct(sorted);
    let chosen = choose_values(Seq::empty(), sorted, sorted.len()).chosen;
    assert forall|i: int| 0 <= i < chosen.len() implies !is_merged_type(
        (#[trigger] chosen[i]).0.schema.schema.types,
        k,
    ) by {
        assert(chosen[i].0 == sorted[i]);
    }
    let start = with_join_feature(with_link_feature(base), chosen);
    let graphs = ExtendedTypeView::Enum(join_graph_enum(chosen));
    assert forall|t: TypeEntries| value_of(#[trigger] put(t, k, graphs), k) == Some(graphs) by {
        lemma_value_of_put(t, k, graphs, k);
    }
    assert(value_of(start.types, k) == Some(graphs));
    lemma_subgraphs_elsewhere(m, start, chosen, chosen.len(), k);
    let (merged, stubs) = merged_subgraphs(m, start, chosen, chosen.len());
    let map = implementers_of(stubs.types, stubs.types.len());
    let all = merged.interface_objects;
    lemma_enums_stay(stubs.types, map, all, all.len(), k);
    lemma_graph_values(chosen, chosen.len());
    subgraphs.to_multiset_ensures();
    sorted.to_multiset_ensures();
    assert(sorted.len() == subgraphs.len());
    assert(MergerView { errors: Seq::empty(), ..m } == m);
    assert(m.errors =~= Seq::empty());
}

} // verus!
