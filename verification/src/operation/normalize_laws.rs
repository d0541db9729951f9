//! What of a document is in the selections that it comes to.

use crate::ast::ArgumentView;
use crate::ast::ValueView;
use crate::collections::has_key;
use crate::collections::lemma_value_of_put;
use crate::collections::put;
use crate::collections::value_of;
use crate::collections::Entries;
use crate::error::ErrorView;
use crate::operation::arguments::slot;
use crate::operation::arguments::sorted_arguments;
use crate::operation::arguments::sorted_pairs;
use crate::operation::arguments::sorted_value;
use crate::operation::executable::ExecutableFieldView;
use crate::operation::executable::ExecutableFragmentView;
use crate::operation::executable::ExecutableOperationView;
use crate::operation::executable::ExecutableSetView;
use crate::operation::executable::ExecutableView;
use crate::operation::executable::FragmentView;
use crate::operation::executable::SpreadView;
use crate::operation::laws::every_in_set;
use crate::operation::laws::every_of;
use crate::operation::laws::kept_by_merging;
use crate::operation::laws::lemma_each;
use crate::operation::laws::lemma_every;
use crate::operation::laws::lemma_with_keeps;
use crate::operation::merging::with_selections;
use crate::operation::normalize::composite_type;
use crate::operation::normalize::normalized_selection;
use crate::operation::normalize::normalized_selections;
use crate::operation::normalize::normalized_set;
use crate::operation::operations::expanded_fragments;
use crate::operation::operations::expanded_selections;
use crate::operation::operations::expanded_with;
use crate::operation::operations::expansion;
use crate::operation::operations::expansion_pass;
use crate::operation::operations::Expansion;
use crate::operation::selection::SelectionSetView;
use crate::operation::selection::SelectionView;
use crate::operation::FieldElementView;
use crate::schema::position::composite_name;
use crate::schema::position::get_type;
use crate::schema::position::CompositeView;
use crate::schema::SchemaView;
use crate::text::Text;
use vstd::prelude::*;

verus! {

// Values and arguments in another order.

/// Whether each of `n` places is named once.
pub open spec fn is_arrangement(places: Seq<int>, n: nat) -> bool {
    &&& places.len() == n
    &&& places.no_duplicates()
    &&& forall|i: int| 0 <= i < n ==> 0 <= #[trigger] places[i] < n
}

/// Whether a value is another one with the fields of its objects in some order, at any depth.
pub open spec fn same_value(a: ValueView, b: ValueView) -> bool
    decreases a,
{
    match (a, b) {
        (ValueView::List(x), ValueView::List(y)) => x.len() == y.len() && forall|i: int|
            0 <= i < x.len() ==> same_value(#[trigger] x[i], y[i]),
        (ValueView::Object(x), ValueView::Object(y)) => x.len() == y.len() && exists|
            places: Seq<int>,
        |
            #[trigger] is_arrangement(places, x.len()) && forall|i: int|
                0 <= i < y.len() ==> 0 <= places[i] < x.len() && (#[trigger] y[i]).0
                    == x[places[i]].0 && same_value(x[places[i]].1, y[i].1),
        _ => a == b,
    }
}

/// Whether arguments are other ones in some order, with the same values.
pub open spec fn same_arguments(a: Seq<ArgumentView>, b: Seq<ArgumentView>) -> bool {
    a.len() == b.len() && exists|places: Seq<int>|
        #[trigger] is_arrangement(places, a.len()) && forall|i: int|
            0 <= i < b.len() ==> (#[trigger] b[i]).name == a[places[i]].name && same_value(
                a[places[i]].value,
                b[i].value,
            )
}

proof fn lemma_slot_within(names: spec_fn(int) -> Text, name: Text, n: nat)
    ensures
        slot(names, name, n) <= n,
    decreases n,
{
    if n > 0 {
        lemma_slot_within(names, name, (n - 1) as nat);
    }
}

proof fn lemma_insert_place(places: Seq<int>, n: nat, at: int)
    requires
        is_arrangement(places, n),
        0 <= at <= n,
    ensures
        is_arrangement(places.insert(at, n as int), n + 1),
{
    let more = places.insert(at, n as int);
    assert forall|i: int| 0 <= i < n + 1 implies 0 <= #[trigger] more[i] < n + 1 by {
        if i < at {
            assert(more[i] == places[i]);
        } else if i > at {
            assert(more[i] == places[i - 1]);
        }
    }
    assert forall|i: int, j: int| 0 <= i < more.len() && 0 <= j < more.len() && i != j implies more[i]
        != more[j] by {
        let x = if i < at {
            i
        } else {
            i - 1
        };
        let y = if j < at {
            j
        } else {
            j - 1
        };
        if i != at {
            assert(more[i] == places[x]);
        }
        if j != at {
            assert(more[j] == places[y]);
        }
    }
}

proof fn lemma_pairs_arranged(fields: Seq<(Text, ValueView)>, n: nat) -> (places: Seq<int>)
    requires
        n <= fields.len(),
    ensures
        is_arrangement(places, n),
        sorted_pairs(fields, n).len() == n,
        forall|i: int|
            0 <= i < n ==> (#[trigger] sorted_pairs(fields, n)[i]) == (
                fields[places[i]].0,
                sorted_value(fields[places[i]].1),
            ),
    decreases n,
{
    if n == 0 {
        Seq::empty()
    } else {
        let before = sorted_pairs(fields, (n - 1) as nat);
        let old_places = lemma_pairs_arranged(fields, (n - 1) as nat);
        let name = fields[n - 1].0;
        let at = slot(|i: int| before[i].0, name, before.len()) as int;
        lemma_slot_within(|i: int| before[i].0, name, before.len());
        lemma_insert_place(old_places, (n - 1) as nat, at);
        let places = old_places.insert(at, n - 1);
        let after = sorted_pairs(fields, n);
        assert forall|i: int| 0 <= i < n implies (#[trigger] after[i]) == (
            fields[places[i]].0,
            sorted_value(fields[places[i]].1),
        ) by {
            if i < at {
                assert(after[i] == before[i] && places[i] == old_places[i]);
            } else if i > at {
                assert(after[i] == before[i - 1] && places[i] == old_places[i - 1]);
            }
        }
        places
    }
}

/// A sorted value is the value with the fields of its objects in another order.
pub proof fn law_sorting_keeps_values(value: ValueView)
    ensures
        same_value(value, sorted_value(value)),
    decreases value,
{
    match value {
        ValueView::List(items) => {
            let sorted = sorted_value(value)->List_0;
            assert forall|i: int| 0 <= i < items.len() implies same_value(
                #[trigger] items[i],
                sorted[i],
            ) by {
                law_sorting_keeps_values(items[i]);
            }
        },
        ValueView::Object(fields) => {
            let sorted = sorted_pairs(fields, fields.len());
            let places = lemma_pairs_arranged(fields, fields.len());
            assert forall|i: int| 0 <= i < sorted.len() implies 0 <= places[i] < fields.len() && (
            #[trigger] sorted[i]).0 == fields[places[i]].0 && same_value(
                fields[places[i]].1,
                sorted[i].1,
            ) by {
                law_sorting_keeps_values(fields[places[i]].1);
            }
            assert(is_arrangement(places, fields.len()));
        },
        _ => {},
    }
}

proof fn lemma_arguments_arranged(arguments: Seq<ArgumentView>, n: nat) -> (places: Seq<int>)
    requires
        n <= arguments.len(),
    ensures
        is_arrangement(places, n),
        sorted_arguments(arguments, n).len() == n,
        forall|i: int|
            0 <= i < n ==> (#[trigger] sorted_arguments(arguments, n)[i]) == (ArgumentView {
                name: arguments[places[i]].name,
                value: sorted_value(arguments[places[i]].value),
            }),
    decreases n,
{
    if n == 0 {
        Seq::empty()
    } else {
        let before = sorted_arguments(arguments, (n - 1) as nat);
        let old_places = lemma_arguments_arranged(arguments, (n - 1) as nat);
        let name = arguments[n - 1].name;
        let at = slot(|i: int| before[i].name, name, before.len()) as int;
        lemma_slot_within(|i: int| before[i].name, name, before.len());
        lemma_insert_place(old_places, (n - 1) as nat, at);
        let places = old_places.insert(at, n - 1);
        let after = sorted_arguments(arguments, n);
        assert forall|i: int| 0 <= i < n implies (#[trigger] after[i]) == (ArgumentView {
            name: arguments[places[i]].name,
            value: sorted_value(arguments[places[i]].value),
        }) by {
            if i < at {
                assert(after[i] == before[i] && places[i] == old_places[i]);
            } else if i > at {
                assert(after[i] == before[i - 1] && places[i] == old_places[i - 1]);
            }
        }
        places
    }
}

/// Sorted arguments are the arguments in another order.
pub proof fn law_sorting_keeps_arguments(arguments: Seq<ArgumentView>)
    ensures
        same_arguments(arguments, sorted_arguments(arguments, arguments.len())),
{
    let sorted = sorted_arguments(arguments, arguments.len());
    let places = lemma_arguments_arranged(arguments, arguments.len());
    assert forall|i: int| 0 <= i < sorted.len() implies (#[trigger] sorted[i]).name
        == arguments[places[i]].name && same_value(
        arguments[places[i]].value,
        sorted[i].value,
    ) by {
        law_sorting_keeps_values(arguments[places[i]].value);
    }
    assert(is_arrangement(places, arguments.len()));
}

// One selection.

/// Whether a field is the introspection of a schema.
pub open spec fn asks_for_schema(field: ExecutableFieldView) -> bool {
    field.name == "__schema"@ || field.name == "__type"@
}

/// Whether a type has fields or members.
pub open spec fn has_fields(schema: SchemaView, name: Text) -> bool {
    get_type(schema, name) matches Ok(position) && (position is Object || position is Interface
        || position is Union)
}

/// Whether a field is one of a document: it has its name, alias and directives, and its arguments
/// in some order.
pub open spec fn is_field_of(element: FieldElementView, field: ExecutableFieldView) -> bool {
    &&& element.field_position.field_name == field.name
    &&& element.alias == field.alias
    &&& element.directives == field.directives
    &&& same_arguments(field.arguments, element.arguments)
}

/// A field of a document that is not the introspection of a schema comes to one field on its type
/// with the same name, alias and directives, and with the same arguments in some order, whether
/// its type has fields or not. It has selections exactly if its type has fields: those that the
/// selections of the document come to.
pub proof fn law_fields_stay_what_they_are(
    field: ExecutableFieldView,
    parent: CompositeView,
    cache: Entries<SelectionSetView>,
    schema: SchemaView,
    id: usize,
)
    requires
        !asks_for_schema(field),
    ensures
        normalized_selection(ExecutableView::Field(field), parent, cache, schema, id) matches Ok(
            (found, after),
        ) ==> found.len() == 1 && (found[0] matches SelectionView::Field { field: element, sub } && {
            &&& is_field_of(element, field)
            &&& element.field_position.parent == parent
            &&& element.schema == schema
            &&& element.sibling_typename is None
            &&& sub is Some == has_fields(schema, field.selection_set.ty)
            &&& sub matches Some(set) ==> normalized_set(field.selection_set, cache, schema, id)
                == Ok::<(SelectionSetView, usize), ErrorView>((set, after))
        }),
{
    law_sorting_keeps_arguments(field.arguments);
}

/// The introspection of a schema comes to nothing.
pub proof fn law_introspection_is_left_out(
    field: ExecutableFieldView,
    parent: CompositeView,
    cache: Entries<SelectionSetView>,
    schema: SchemaView,
    id: usize,
)
    requires
        asks_for_schema(field),
    ensures
        normalized_selection(ExecutableView::Field(field), parent, cache, schema, id) == Ok::<
            (Seq<SelectionView>, usize),
            ErrorView,
        >((Seq::empty(), id)),
{
}

/// Whether an inline fragment of a document says nothing: it has no directives, and no type
/// condition but the type that it is on.
pub open spec fn is_trivial(fragment: ExecutableFragmentView, parent: CompositeView) -> bool {
    &&& fragment.directives.len() == 0
    &&& fragment.type_condition matches Some(name) ==> name == composite_name(parent)
}

/// An inline fragment of a document that says something comes to one fragment with its type
/// condition and its directives.
pub proof fn law_fragments_stay_what_they_are(
    fragment: ExecutableFragmentView,
    parent: CompositeView,
    cache: Entries<SelectionSetView>,
    schema: SchemaView,
    id: usize,
)
    requires
        !is_trivial(fragment, parent),
    ensures
        normalized_selection(
            ExecutableView::InlineFragment(fragment),
            parent,
            cache,
            schema,
            id,
        ) matches Ok((found, after)) ==> found.len() == 1 && (found[0]
            matches SelectionView::InlineFragment { fragment: element, set } && {
            &&& element.type_condition_position is Some == fragment.type_condition is Some
            &&& fragment.type_condition matches Some(name) ==> composite_name(
                element.type_condition_position->0,
            ) == name
            &&& element.directives == fragment.directives
            &&& element.parent_type_position == parent
            &&& element.schema == schema
            &&& normalized_set(fragment.selection_set, cache, schema, id) matches Ok((inner, _))
                && inner == set
        }),
{
}

/// A fragment spread comes to what the fragment comes to, in one fragment with the type of that
/// as its condition and with the directives of the spread, unless it would say nothing there.
pub proof fn law_spreads_are_fragments(
    spread: SpreadView,
    parent: CompositeView,
    cache: Entries<SelectionSetView>,
    schema: SchemaView,
    id: usize,
)
    ensures
        normalized_selection(
            ExecutableView::FragmentSpread(spread),
            parent,
            cache,
            schema,
            id,
        ) matches Ok((found, after)) ==> (value_of(cache, spread.fragment_name) matches Some(cached)
            && if spread.directives.len() == 0 && cached.type_position == parent {
            found == cached.selections
        } else {
            found.len() == 1 && (found[0] matches SelectionView::InlineFragment {
                fragment: element,
                set,
            } && {
                &&& element.type_condition_position == Some(cached.type_position)
                &&& element.directives == spread.directives
                &&& element.parent_type_position == parent
                &&& element.schema == schema
                &&& set == cached
            })
        }),
{
}

// All fields.

/// Whether a field stands somewhere among selections of a document, but for the introspection of a
/// schema and what is below it.
pub open spec fn selects(set: ExecutableSetView, field: ExecutableFieldView) -> bool
    decreases set,
{
    exists|i: int|
        0 <= i < set.selections.len() && match #[trigger] set.selections[i] {
            ExecutableView::Field(other) => !asks_for_schema(other) && (other == field || selects(
                other.selection_set,
                field,
            )),
            ExecutableView::FragmentSpread(_) => false,
            ExecutableView::InlineFragment(fragment) => selects(fragment.selection_set, field),
        }
}

/// Whether a selection is no field, or one of some fields of a document.
pub open spec fn is_from(fields: spec_fn(ExecutableFieldView) -> bool) -> spec_fn(SelectionView) -> bool {
    |selection: SelectionView|
        selection matches SelectionView::Field { field: element, sub } ==> exists|
            field: ExecutableFieldView,
        |
            fields(field) && #[trigger] is_field_of(element, field)
}

/// Whether all fields of a set, at any depth, are among some fields of a document.
pub open spec fn is_all_from(
    set: SelectionSetView,
    fields: spec_fn(ExecutableFieldView) -> bool,
) -> bool {
    every_in_set(set, is_from(fields), set.selections.len())
}

/// Whether all fields of all sets that spreads stand for are among some fields of a document.
pub open spec fn are_all_from(
    cache: Entries<SelectionSetView>,
    fields: spec_fn(ExecutableFieldView) -> bool,
) -> bool {
    forall|name: Text|
        value_of(cache, name) matches Some(set) ==> is_all_from(
            (#[trigger] value_of(cache, name))->0,
            fields,
        )
}

proof fn lemma_from_merging(fields: spec_fn(ExecutableFieldView) -> bool)
    ensures
        kept_by_merging(is_from(fields)),
{
}

proof fn lemma_added_from(
    a: Seq<SelectionView>,
    b: Seq<SelectionView>,
    n: nat,
    fields: spec_fn(ExecutableFieldView) -> bool,
)
    requires
        n <= b.len(),
        every_of(a, is_from(fields)),
        every_of(b, is_from(fields)),
    ensures
        with_selections(a, b, n) matches Ok(after) ==> every_of(after, is_from(fields)),
    decreases n,
{
    if n > 0 {
        lemma_added_from(a, b, (n - 1) as nat, fields);
        lemma_from_merging(fields);
        match with_selections(a, b, (n - 1) as nat) {
            Err(_) => {},
            Ok(before) => lemma_with_keeps(before, b[n - 1], is_from(fields)),
        }
    }
}

proof fn lemma_set_from(
    set: ExecutableSetView,
    cache: Entries<SelectionSetView>,
    schema: SchemaView,
    id: usize,
    fields: spec_fn(ExecutableFieldView) -> bool,
)
    requires
        are_all_from(cache, fields),
        forall|field: ExecutableFieldView| #[trigger] selects(set, field) ==> fields(field),
    ensures
        normalized_set(set, cache, schema, id) matches Ok((found, _)) ==> is_all_from(found, fields),
    decreases set, 1nat, 0nat,
{
    match normalized_set(set, cache, schema, id) {
        Err(_) => {},
        Ok((found, _)) => {
            let ty = composite_type(schema, set.ty)->Ok_0;
            let n = set.selections.len();
            lemma_selections_from(set, ty, cache, schema, id, n, fields);
            let (selections, _) = normalized_selections(set, ty, cache, schema, id, n)->Ok_0;
            lemma_added_from(Seq::empty(), selections, selections.len(), fields);
            lemma_every(found, is_from(fields), found.selections.len());
        },
    }
}

proof fn lemma_selections_from(
    set: ExecutableSetView,
    parent: CompositeView,
    cache: Entries<SelectionSetView>,
    schema: SchemaView,
    id: usize,
    n: nat,
    fields: spec_fn(ExecutableFieldView) -> bool,
)
    requires
        n <= set.selections.len(),
        are_all_from(cache, fields),
        forall|field: ExecutableFieldView| #[trigger] selects(set, field) ==> fields(field),
    ensures
        normalized_selections(set, parent, cache, schema, id, n) matches Ok((found, _)) ==> every_of(
            found,
            is_from(fields),
        ),
    decreases set, 0nat, n,
{
    if n > 0 {
        lemma_selections_from(set, parent, cache, schema, id, (n - 1) as nat, fields);
        match normalized_selections(set, parent, cache, schema, id, (n - 1) as nat) {
            Err(_) => {},
            Ok((before, next)) => {
                let selection = set.selections[n - 1];
                match selection {
                    ExecutableView::Field(other) => {
                        if !asks_for_schema(other) {
                            assert(selects(set, other));
                            assert forall|field: ExecutableFieldView| #[trigger]
                                selects(other.selection_set, field) implies fields(field) by {
                                assert(selects(set, field));
                            }
                            law_fields_stay_what_they_are(other, parent, cache, schema, next);
                            lemma_set_from(other.selection_set, cache, schema, next, fields);
                        }
                    },
                    ExecutableView::FragmentSpread(spread) => {
                        law_spreads_are_fragments(spread, parent, cache, schema, next);
                        if value_of(cache, spread.fragment_name) is Some {
                            let cached = value_of(cache, spread.fragment_name)->0;
                            assert(is_all_from(cached, fields));
                            lemma_each(cached, is_from(fields), cached.selections.len());
                        }
                    },
                    ExecutableView::InlineFragment(fragment) => {
                        let inner = fragment.selection_set;
                        assert forall|field: ExecutableFieldView| #[trigger]
                            selects(inner, field) implies fields(field) by {
                            assert(selects(set, field));
                        }
                        if is_trivial(fragment, parent) {
                            lemma_selections_from(
                                inner,
                                parent,
                                cache,
                                schema,
                                next,
                                inner.selections.len(),
                                fields,
                            );
                        } else {
                            law_fragments_stay_what_they_are(fragment, parent, cache, schema, next);
                            lemma_set_from(inner, cache, schema, next, fields);
                        }
                    },
                }
            },
        }
    }
}

proof fn lemma_expanded_from(
    fragment: FragmentView,
    so_far: Expansion,
    schema: SchemaView,
    fields: spec_fn(ExecutableFieldView) -> bool,
)
    requires
        are_all_from(so_far.cache, fields),
        forall|field: ExecutableFieldView| #[trigger]
            selects(fragment.selection_set, field) ==> fields(field),
    ensures
        are_all_from(expanded_with(fragment, so_far, schema).cache, fields),
{
    lemma_set_from(fragment.selection_set, so_far.cache, schema, so_far.id, fields);
    match normalized_set(fragment.selection_set, so_far.cache, schema, so_far.id) {
        Err(_) => {},
        Ok((set, _)) => {
            let after = put(so_far.cache, fragment.name, set);
            assert forall|name: Text| value_of(after, name) is Some implies is_all_from(
                (#[trigger] value_of(after, name))->0,
                fields,
            ) by {
                lemma_value_of_put(so_far.cache, fragment.name, set, name);
            }
        },
    }
}

/// Whether all fields of some fragments are among some fields of a document.
spec fn have_only(
    fragments: Seq<FragmentView>,
    fields: spec_fn(ExecutableFieldView) -> bool,
) -> bool {
    forall|i: int, field: ExecutableFieldView|
        0 <= i < fragments.len() && #[trigger] selects(fragments[i].selection_set, field) ==> fields(
            field,
        )
}

proof fn lemma_pass_from(
    fragments: Seq<FragmentView>,
    so_far: Expansion,
    schema: SchemaView,
    n: nat,
    fields: spec_fn(ExecutableFieldView) -> bool,
)
    requires
        n <= fragments.len(),
        are_all_from(so_far.cache, fields),
        have_only(fragments, fields),
    ensures
        are_all_from(expansion_pass(fragments, so_far, schema, n).0.cache, fields),
        have_only(expansion_pass(fragments, so_far, schema, n).1, fields),
    decreases n,
{
    if n > 0 {
        lemma_pass_from(fragments, so_far, schema, (n - 1) as nat, fields);
        let (before, left) = expansion_pass(fragments, so_far, schema, (n - 1) as nat);
        lemma_expanded_from(fragments[n - 1], before, schema, fields);
        let more = left.push(fragments[n - 1]);
        assert forall|i: int, field: ExecutableFieldView|
            0 <= i < more.len() && #[trigger] selects(
                more[i].selection_set,
                field,
            ) implies fields(field) by {
            if i < left.len() {
                assert(more[i] == left[i]);
            }
        }
    }
}

proof fn lemma_expansion_from(
    fragments: Seq<FragmentView>,
    so_far: Expansion,
    schema: SchemaView,
    fields: spec_fn(ExecutableFieldView) -> bool,
)
    requires
        are_all_from(so_far.cache, fields),
        have_only(fragments, fields),
    ensures
        are_all_from(expansion(fragments, so_far, schema).cache, fields),
    decreases fragments.len(),
{
    lemma_pass_from(fragments, so_far, schema, fragments.len(), fields);
    let (after, left) = expansion_pass(fragments, so_far, schema, fragments.len());
    if left.len() < fragments.len() {
        lemma_expansion_from(left, after, schema, fields);
    }
}

/// Whether a field stands in an operation or in one of some fragments.
pub open spec fn is_in_document(
    operation: ExecutableOperationView,
    fragments: Seq<FragmentView>,
    field: ExecutableFieldView,
) -> bool {
    selects(operation.selection_set, field) || exists|i: int|
        0 <= i < fragments.len() && selects((#[trigger] fragments[i]).selection_set, field)
}

/// Every field that an operation comes to, at any depth, is one of the operation or of a fragment,
/// with its name, its alias, its directives and its arguments.
pub proof fn law_fields_come_from_the_document(
    operation: ExecutableOperationView,
    fragments: Seq<FragmentView>,
    schema: SchemaView,
    id: usize,
)
    ensures
        expanded_selections(operation, fragments, schema, id) matches Ok((set, _)) ==> is_all_from(
            set,
            |field: ExecutableFieldView| is_in_document(operation, fragments, field),
        ),
{
    let fields = |field: ExecutableFieldView| is_in_document(operation, fragments, field);
    let start = Expansion { cache: Seq::empty(), removed: Seq::empty(), id };
    assert forall|name: Text| value_of(start.cache, name) is Some implies is_all_from(
        (#[trigger] value_of(start.cache, name))->0,
        fields,
    ) by {
        assert(!has_key(start.cache, name));
    }
    assert(have_only(fragments, fields));
    lemma_expansion_from(fragments, start, schema, fields);
    let expanded = expansion(fragments, start, schema);
    lemma_set_from(operation.selection_set, expanded.cache, schema, expanded.id, fields);
}

// Fragments.

/// Whether a set is what a fragment of the given name comes to.
pub open spec fn is_of_fragment(
    set: SelectionSetView,
    fragments: Seq<FragmentView>,
    name: Text,
    schema: SchemaView,
) -> bool {
    exists|i: int, cache: Entries<SelectionSetView>, id: usize|
        0 <= i < fragments.len() && (#[trigger] fragments[i]).name == name && (
        #[trigger] normalized_set(fragments[i].selection_set, cache, schema, id) matches Ok((found, _))
            && found == set)
}

/// Whether every set that is kept is what a fragment of its name comes to.
spec fn are_of_fragments(
    cache: Entries<SelectionSetView>,
    fragments: Seq<FragmentView>,
    schema: SchemaView,
) -> bool {
    forall|name: Text|
        value_of(cache, name) is Some ==> is_of_fragment(
            (#[trigger] value_of(cache, name))->0,
            fragments,
            name,
            schema,
        )
}

/// Whether some fragments are among others.
spec fn are_among(some: Seq<FragmentView>, all: Seq<FragmentView>) -> bool {
    forall|i: int| 0 <= i < some.len() ==> all.contains(#[trigger] some[i])
}

proof fn lemma_pass_fragments(
    fragments: Seq<FragmentView>,
    so_far: Expansion,
    schema: SchemaView,
    n: nat,
    all: Seq<FragmentView>,
)
    requires
        n <= fragments.len(),
        are_of_fragments(so_far.cache, all, schema),
        are_among(fragments, all),
    ensures
        are_of_fragments(expansion_pass(fragments, so_far, schema, n).0.cache, all, schema),
        are_among(expansion_pass(fragments, so_far, schema, n).1, all),
    decreases n,
{
    if n > 0 {
        lemma_pass_fragments(fragments, so_far, schema, (n - 1) as nat, all);
        let (before, left) = expansion_pass(fragments, so_far, schema, (n - 1) as nat);
        let fragment = fragments[n - 1];
        assert(all.contains(fragment));
        let k = choose|k: int| 0 <= k < all.len() && all[k] == fragment;
        match normalized_set(fragment.selection_set, before.cache, schema, before.id) {
            Err(_) => {},
            Ok((set, _)) => {
                let after = put(before.cache, fragment.name, set);
                assert(is_of_fragment(set, all, fragment.name, schema)) by {
                    assert(all[k].name == fragment.name);
                    assert(normalized_set(all[k].selection_set, before.cache, schema, before.id)
                        is Ok);
                }
                assert forall|name: Text| value_of(after, name) is Some implies is_of_fragment(
                    (#[trigger] value_of(after, name))->0,
                    all,
                    name,
                    schema,
                ) by {
                    lemma_value_of_put(before.cache, fragment.name, set, name);
                }
            },
        }
        let more = left.push(fragment);
        assert forall|i: int| 0 <= i < more.len() implies all.contains(#[trigger] more[i]) by {
            if i < left.len() {
                assert(more[i] == left[i]);
            }
        }
    }
}

proof fn lemma_expansion_fragments(
    fragments: Seq<FragmentView>,
    so_far: Expansion,
    schema: SchemaView,
    all: Seq<FragmentView>,
)
    requires
        are_of_fragments(so_far.cache, all, schema),
        are_among(fragments, all),
    ensures
        are_of_fragments(expansion(fragments, so_far, schema).cache, all, schema),
    decreases fragments.len(),
{
    lemma_pass_fragments(fragments, so_far, schema, fragments.len(), all);
    let (after, left) = expansion_pass(fragments, so_far, schema, fragments.len());
    if left.len() < fragments.len() {
        lemma_expansion_fragments(left, after, schema, all);
    }
}

/// What a spread stands for is what the fragment of its name comes to.
pub proof fn law_spreads_stand_for_their_fragments(
    fragments: Seq<FragmentView>,
    schema: SchemaView,
    id: usize,
    name: Text,
)
    ensures
        value_of(expanded_fragments(fragments, schema, id).cache, name) matches Some(set)
            ==> is_of_fragment(set, fragments, name, schema),
{
    let start = Expansion { cache: Seq::empty(), removed: Seq::empty(), id };
    assert forall|k: Text| value_of(start.cache, k) is Some implies is_of_fragment(
        (#[trigger] value_of(start.cache, k))->0,
        fragments,
        k,
        schema,
    ) by {
        assert(!has_key(start.cache, k));
    }
    assert forall|i: int| 0 <= i < fragments.len() implies fragments.contains(
        #[trigger] fragments[i],
    ) by {}
    lemma_expansion_fragments(fragments, start, schema, fragments);
}

} // verus!
