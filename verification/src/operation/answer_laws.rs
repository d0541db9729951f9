//! What selections are answered by: the fields that they ask for, in fragments or not.

use crate::ast::DirectiveView;
use crate::operation::at_path::added_at_path;
use crate::operation::at_path::flattened;
use crate::operation::at_path::flattened_selection;
use crate::operation::at_path::last_sub;
use crate::operation::at_path::selection_for;
use crate::operation::at_path::selection_of;
use crate::operation::at_path::sub_of;
use crate::operation::at_path::with_last;
use crate::operation::at_path::with_rebased;
use crate::operation::at_path::with_sub;
use crate::operation::defer::reduced_selection;
use crate::operation::defer::reduced_selections;
use crate::operation::defer::reduced_set;
use crate::operation::laws::every_in_selection;
use crate::operation::laws::every_in_set;
use crate::operation::laws::every_key_is_distinct;
use crate::operation::laws::keys_below_are_distinct;
use crate::operation::laws::lemma_each;
use crate::operation::merging::merged_selection;
use crate::operation::merging::merged_selections;
use crate::operation::merging::merged_sets;
use crate::operation::merging::with_selection;
use crate::operation::output_base_type;
use crate::operation::rebase::rebased_element;
use crate::operation::rebase::rebased_selection;
use crate::operation::rebase::rebased_selections;
use crate::operation::rebase::rebased_set;
use crate::operation::selection::empty_set;
use crate::operation::selection::has_selection;
use crate::operation::selection::lemma_selection_index;
use crate::operation::selection::put_selection;
use crate::operation::selection::selection_index;
use crate::operation::selection::selection_key;
use crate::operation::selection::SelectionSetView;
use crate::operation::selection::SelectionView;
use crate::operation::trees::branch_without_empty;
use crate::operation::trees::in_fragment;
use crate::operation::trees::is_empty_branch;
use crate::operation::trees::nonempty_selections;
use crate::operation::trees::split_fields;
use crate::operation::trees::split_selection;
use crate::operation::trees::without_empty;
use crate::operation::typenames::if_abstract;
use crate::operation::typenames::selections_with_typenames;
use crate::operation::typenames::selection_with_typenames;
use crate::operation::typenames::typename_start;
use crate::operation::typenames::with_typenames;
use crate::operation::FieldElementView;
use crate::query_graph::elements::sub_selection_type;
use crate::query_graph::elements::ElementView;
use crate::schema::position::as_composite;
use crate::schema::position::composite_name;
use crate::schema::position::CompositeView;
use crate::schema::SchemaView;
use crate::text::Text;
use vstd::multiset::Multiset;
use vstd::prelude::*;

verus! {

/// A field of an answer: what it is, the name that it is returned by, its directives in any order,
/// and whether something is below it.
pub struct AnswerField {
    pub name: Text,
    pub response_name: Text,
    pub directives: Multiset<DirectiveView>,
    pub has_fields: bool,
}

/// The field of an answer that a field asks for.
pub open spec fn answer_field(field: FieldElementView, has_fields: bool) -> AnswerField {
    AnswerField {
        name: field.field_position.field_name,
        response_name: match field.alias {
            Some(alias) => alias,
            None => field.field_position.field_name,
        },
        directives: field.directives.to_multiset(),
        has_fields,
    }
}

/// Whether selections ask for a field of the answer, which is given with all above it.
pub open spec fn asks(selections: Seq<SelectionView>, fields: Seq<AnswerField>) -> bool
    decreases selections,
{
    fields.len() == 0 || exists|i: int|
        0 <= i < selections.len() && selection_asks(#[trigger] selections[i], fields)
}

/// Whether a selection asks for a field of the answer.
pub open spec fn selection_asks(selection: SelectionView, fields: Seq<AnswerField>) -> bool
    decreases selection,
{
    fields.len() > 0 && match selection {
        SelectionView::Field { field, sub } => answer_field(field, sub is Some) == fields[0]
            && match sub {
            Some(set) => asks(set.selections, fields.drop_first()),
            None => fields.len() == 1,
        },
        SelectionView::InlineFragment { fragment, set } => asks(set.selections, fields),
    }
}

// Lists.

proof fn lemma_asks_taken(selections: Seq<SelectionView>, n: int, fields: Seq<AnswerField>)
    requires
        0 < n <= selections.len(),
        fields.len() > 0,
    ensures
        asks(selections.take(n), fields) == (asks(selections.take(n - 1), fields) || selection_asks(
            selections[n - 1],
            fields,
        )),
{
    let all = selections.take(n);
    let some = selections.take(n - 1);
    if asks(all, fields) {
        let j = choose|j: int| 0 <= j < all.len() && selection_asks(#[trigger] all[j], fields);
        if j < n - 1 {
            assert(selection_asks(some[j], fields));
        }
    }
    if asks(some, fields) {
        let j = choose|j: int| 0 <= j < some.len() && selection_asks(#[trigger] some[j], fields);
        assert(selection_asks(all[j], fields));
    }
    assert(all[n - 1] == selections[n - 1]);
}

proof fn lemma_asks_both(a: Seq<SelectionView>, b: Seq<SelectionView>, fields: Seq<AnswerField>)
    ensures
        asks(a + b, fields) == (asks(a, fields) || asks(b, fields)),
{
    let all = a + b;
    if fields.len() > 0 {
        if asks(all, fields) {
            let j = choose|j: int| 0 <= j < all.len() && selection_asks(#[trigger] all[j], fields);
            if j < a.len() {
                assert(selection_asks(a[j], fields));
            } else {
                assert(selection_asks(b[j - a.len()], fields));
            }
        }
        if asks(a, fields) {
            let j = choose|j: int| 0 <= j < a.len() && selection_asks(#[trigger] a[j], fields);
            assert(selection_asks(all[j], fields));
        }
        if asks(b, fields) {
            let j = choose|j: int| 0 <= j < b.len() && selection_asks(#[trigger] b[j], fields);
            assert(selection_asks(all[a.len() + j], fields));
        }
    }
}

proof fn lemma_asks_one(selection: SelectionView, fields: Seq<AnswerField>)
    requires
        fields.len() > 0,
    ensures
        asks(seq![selection], fields) == selection_asks(selection, fields),
{
    assert(seq![selection][0] == selection);
}

proof fn lemma_asks_pushed(
    before: Seq<SelectionView>,
    new: SelectionView,
    fields: Seq<AnswerField>,
)
    requires
        fields.len() > 0,
    ensures
        asks(before.push(new), fields) == (asks(before, fields) || selection_asks(new, fields)),
{
    assert(before.push(new) =~= before + seq![new]);
    lemma_asks_both(before, seq![new], fields);
    lemma_asks_one(new, fields);
}

/// Replacing a selection by one that asks for what it asked for and for more.
proof fn lemma_asks_updated(
    before: Seq<SelectionView>,
    i: int,
    new: SelectionView,
    more: bool,
    fields: Seq<AnswerField>,
)
    requires
        0 <= i < before.len(),
        fields.len() > 0,
        selection_asks(new, fields) == (selection_asks(before[i], fields) || more),
    ensures
        asks(before.update(i, new), fields) == (asks(before, fields) || more),
{
    let after = before.update(i, new);
    if asks(after, fields) {
        let j = choose|j: int| 0 <= j < after.len() && selection_asks(#[trigger] after[j], fields);
        assert(selection_asks(before[j], fields) || more);
    }
    if asks(before, fields) {
        let j = choose|j: int|
            0 <= j < before.len() && selection_asks(#[trigger] before[j], fields);
        assert(selection_asks(after[j], fields));
    }
    assert(after[i] == new);
}

// Merging.

proof fn lemma_asks_with(
    selections: Seq<SelectionView>,
    new: SelectionView,
    fields: Seq<AnswerField>,
)
    requires
        fields.len() > 0,
    ensures
        with_selection(selections, new) matches Ok(after) ==> asks(after, fields) == (asks(
            selections,
            fields,
        ) || selection_asks(new, fields)),
    decreases new, 1nat, 0nat,
{
    let i = selection_index(selections, selection_key(new));
    lemma_selection_index(selections, selection_key(new));
    match with_selection(selections, new) {
        Err(_) => {},
        Ok(after) => {
            if i < selections.len() {
                lemma_asks_merged(selections[i], new, fields);
                lemma_asks_updated(
                    selections,
                    i,
                    merged_selection(selections[i], new)->Ok_0,
                    selection_asks(new, fields),
                    fields,
                );
            } else {
                lemma_asks_pushed(selections, new, fields);
            }
        },
    }
}

proof fn lemma_asks_merged(a: SelectionView, b: SelectionView, fields: Seq<AnswerField>)
    requires
        fields.len() > 0,
        selection_key(a) == selection_key(b),
    ensures
        merged_selection(a, b) matches Ok(merged) ==> selection_asks(merged, fields) == (
        selection_asks(a, fields) || selection_asks(b, fields)),
    decreases b, 0nat, 0nat,
{
    match (a, b) {
        (
            SelectionView::Field { field: f, sub: Some(x) },
            SelectionView::Field { field: g, sub: Some(y) },
        ) => {
            lemma_asks_sets(x, y, fields.drop_first());
        },
        (
            SelectionView::InlineFragment { fragment: f, set: x },
            SelectionView::InlineFragment { fragment: g, set: y },
        ) => {
            lemma_asks_sets(x, y, fields);
        },
        _ => {},
    }
}

proof fn lemma_asks_sets(a: SelectionSetView, b: SelectionSetView, fields: Seq<AnswerField>)
    ensures
        merged_sets(a, b) matches Ok(merged) ==> asks(merged.selections, fields) == (asks(
            a.selections,
            fields,
        ) || asks(b.selections, fields)),
    decreases b, 1nat, 0nat,
{
    if fields.len() > 0 {
        lemma_asks_some(a.selections, b, b.selections.len(), fields);
        assert(b.selections.take(b.selections.len() as int) =~= b.selections);
    }
}

proof fn lemma_asks_some(
    a: Seq<SelectionView>,
    b: SelectionSetView,
    n: nat,
    fields: Seq<AnswerField>,
)
    requires
        fields.len() > 0,
        n <= b.selections.len(),
    ensures
        merged_selections(a, b, n) matches Ok(after) ==> asks(after, fields) == (asks(a, fields)
            || asks(b.selections.take(n as int), fields)),
    decreases b, 0nat, n,
{
    if n > 0 {
        lemma_asks_some(a, b, (n - 1) as nat, fields);
        match merged_selections(a, b, (n - 1) as nat) {
            Err(_) => {},
            Ok(before) => {
                lemma_asks_with(before, b.selections[n - 1], fields);
                lemma_asks_taken(b.selections, n as int, fields);
            },
        }
    }
}

/// What is merged of two sets asks for what one of them asks for.
pub proof fn law_merging_keeps_the_answer(
    a: SelectionSetView,
    b: SelectionSetView,
    fields: Seq<AnswerField>,
)
    ensures
        merged_sets(a, b) matches Ok(merged) ==> asks(merged.selections, fields) == (asks(
            a.selections,
            fields,
        ) || asks(b.selections, fields)),
{
    lemma_asks_sets(a, b, fields);
}

// Taking `@defer` out.

proof fn lemma_asks_reduced_set(
    set: SelectionSetView,
    labels: Seq<Text>,
    fields: Seq<AnswerField>,
)
    ensures
        reduced_set(set, labels) matches Ok(new) ==> asks(new.selections, fields) == asks(
            set.selections,
            fields,
        ),
    decreases set, 1nat, 0nat,
{
    if fields.len() > 0 {
        lemma_asks_reduced_some(set, labels, set.selections.len(), fields);
        assert(set.selections.take(set.selections.len() as int) =~= set.selections);
    }
}

proof fn lemma_asks_reduced_some(
    set: SelectionSetView,
    labels: Seq<Text>,
    n: nat,
    fields: Seq<AnswerField>,
)
    requires
        fields.len() > 0,
        n <= set.selections.len(),
    ensures
        reduced_selections(set, labels, n) matches Ok(after) ==> asks(after, fields) == asks(
            set.selections.take(n as int),
            fields,
        ),
    decreases set, 0nat, n,
{
    if n > 0 {
        lemma_asks_reduced_some(set, labels, (n - 1) as nat, fields);
        match reduced_selections(set, labels, (n - 1) as nat) {
            Err(_) => {},
            Ok(before) => {
                let selection = set.selections[n - 1];
                lemma_asks_reduced(selection, labels, fields);
                match reduced_selection(selection, labels) {
                    Err(_) => {},
                    Ok(new) => {
                        lemma_asks_with(before, new, fields);
                        lemma_asks_taken(set.selections, n as int, fields);
                    },
                }
            },
        }
    }
}

proof fn lemma_asks_reduced(
    selection: SelectionView,
    labels: Seq<Text>,
    fields: Seq<AnswerField>,
)
    requires
        fields.len() > 0,
    ensures
        reduced_selection(selection, labels) matches Ok(new) ==> selection_asks(new, fields)
            == selection_asks(selection, fields),
    decreases selection, 2nat, 0nat,
{
    match selection {
        SelectionView::Field { field, sub: Some(set) } => {
            lemma_asks_reduced_set(set, labels, fields.drop_first());
        },
        SelectionView::Field { field, sub: None } => {},
        SelectionView::InlineFragment { fragment, set } => {
            lemma_asks_reduced_set(set, labels, fields);
        },
    }
}

/// Selections ask for the same whether they are deferred or not: taking out the `@defer` of some
/// labels changes nothing of the answer.
pub proof fn law_taking_out_defer_keeps_the_answer(
    set: SelectionSetView,
    labels: Seq<Text>,
    fields: Seq<AnswerField>,
)
    ensures
        reduced_set(set, labels) matches Ok(new) ==> asks(new.selections, fields) == asks(
            set.selections,
            fields,
        ),
{
    lemma_asks_reduced_set(set, labels, fields);
}

// Taking fragments apart.

proof fn lemma_asks_flattened(
    set: SelectionSetView,
    parent: CompositeView,
    schema: SchemaView,
    n: nat,
    fields: Seq<AnswerField>,
)
    requires
        fields.len() > 0,
        n <= set.selections.len(),
    ensures
        asks(flattened(set, parent, schema, n), fields) == asks(
            set.selections.take(n as int),
            fields,
        ),
    decreases set, n,
{
    if n > 0 {
        lemma_asks_flattened(set, parent, schema, (n - 1) as nat, fields);
        let selection = set.selections[n - 1];
        let before = flattened(set, parent, schema, (n - 1) as nat);
        let more = flattened_selection(selection, parent, schema);
        lemma_asks_both(before, more, fields);
        lemma_asks_taken(set.selections, n as int, fields);
        match selection {
            SelectionView::InlineFragment { fragment, set: inner } => {
                lemma_asks_flattened(inner, parent, schema, inner.selections.len(), fields);
                assert(inner.selections.take(inner.selections.len() as int) =~= inner.selections);
                lemma_asks_one(selection, fields);
            },
            SelectionView::Field { field, sub } => {
                lemma_asks_one(selection, fields);
            },
        }
    }
}

/// Taking apart the fragments that say nothing changes nothing of the answer.
pub proof fn law_taking_fragments_apart_keeps_the_answer(
    set: SelectionSetView,
    parent: CompositeView,
    schema: SchemaView,
    fields: Seq<AnswerField>,
)
    ensures
        asks(flattened(set, parent, schema, set.selections.len()), fields) == asks(
            set.selections,
            fields,
        ),
{
    if fields.len() > 0 {
        lemma_asks_flattened(set, parent, schema, set.selections.len(), fields);
        assert(set.selections.take(set.selections.len() as int) =~= set.selections);
    }
}

// Splitting.

/// Whether one of some sets asks for a field of the answer.
pub open spec fn one_asks(sets: Seq<SelectionSetView>, fields: Seq<AnswerField>) -> bool {
    exists|i: int| 0 <= i < sets.len() && asks((#[trigger] sets[i]).selections, fields)
}

proof fn lemma_one_of_both_asks(
    a: Seq<SelectionSetView>,
    b: Seq<SelectionSetView>,
    fields: Seq<AnswerField>,
)
    ensures
        one_asks(a + b, fields) == (one_asks(a, fields) || one_asks(b, fields)),
{
    let all = a + b;
    if one_asks(all, fields) {
        let j = choose|j: int| 0 <= j < all.len() && asks((#[trigger] all[j]).selections, fields);
        if j < a.len() {
            assert(asks(a[j].selections, fields));
        } else {
            assert(asks(b[j - a.len()].selections, fields));
        }
    }
    if one_asks(a, fields) {
        let j = choose|j: int| 0 <= j < a.len() && asks((#[trigger] a[j]).selections, fields);
        assert(asks(all[j].selections, fields));
    }
    if one_asks(b, fields) {
        let j = choose|j: int| 0 <= j < b.len() && asks((#[trigger] b[j]).selections, fields);
        assert(asks(all[a.len() + j].selections, fields));
    }
}

proof fn lemma_asks_split(set: SelectionSetView, n: nat, fields: Seq<AnswerField>)
    requires
        fields.len() > 0,
        n <= set.selections.len(),
    ensures
        one_asks(split_fields(set, n), fields) == asks(set.selections.take(n as int), fields),
    decreases set, n,
{
    if n > 0 {
        lemma_asks_split(set, (n - 1) as nat, fields);
        let selection = set.selections[n - 1];
        let before = split_fields(set, (n - 1) as nat);
        let more = split_selection(selection, set.type_position);
        lemma_one_of_both_asks(before, more, fields);
        lemma_asks_taken(set.selections, n as int, fields);
        match selection {
            SelectionView::Field { field, sub } => {
                assert(more[0].selections =~= seq![selection]);
                lemma_asks_one(selection, fields);
                assert(one_asks(more, fields) == selection_asks(selection, fields));
            },
            SelectionView::InlineFragment { fragment, set: inner } => {
                let all = split_fields(inner, inner.selections.len());
                lemma_asks_split(inner, inner.selections.len(), fields);
                assert(inner.selections.take(inner.selections.len() as int) =~= inner.selections);
                assert(more == in_fragment(fragment, all));
                assert forall|k: int| 0 <= k < all.len() implies asks(
                    (#[trigger] more[k]).selections,
                    fields,
                ) == asks(all[k].selections, fields) by {
                    let wrapped = SelectionView::InlineFragment { fragment, set: all[k] };
                    assert(more[k].selections =~= seq![wrapped]);
                    lemma_asks_one(wrapped, fields);
                }
                if one_asks(more, fields) {
                    let k = choose|k: int|
                        0 <= k < more.len() && asks((#[trigger] more[k]).selections, fields);
                    assert(asks(all[k].selections, fields));
                }
                if one_asks(all, fields) {
                    let k = choose|k: int|
                        0 <= k < all.len() && asks((#[trigger] all[k]).selections, fields);
                    assert(asks(more[k].selections, fields));
                }
            },
        }
    }
}

/// The sets that a set is split into ask together for what the set asks for.
pub proof fn law_splitting_keeps_the_answer(set: SelectionSetView, fields: Seq<AnswerField>)
    requires
        fields.len() > 0,
    ensures
        one_asks(split_fields(set, set.selections.len()), fields) == asks(set.selections, fields),
{
    lemma_asks_split(set, set.selections.len(), fields);
    assert(set.selections.take(set.selections.len() as int) =~= set.selections);
}

// Moving to another type.

proof fn lemma_keys_below(set: SelectionSetView, i: int)
    requires
        every_key_is_distinct(set),
        0 <= i < set.selections.len(),
    ensures
        sub_of(set.selections[i]) matches Some(sub) ==> every_key_is_distinct(sub),
{
    let property = |s: SelectionView| keys_below_are_distinct(s);
    lemma_each(set, property, set.selections.len());
    assert(every_in_selection(set.selections[i], property));
}

/// Whether two selections are alike: the same fields with the same arguments and directives, and
/// the same fragments, in the same order, at any depth. The types that they are on can differ.
pub open spec fn alike(a: SelectionView, b: SelectionView) -> bool
    decreases a,
{
    match (a, b) {
        (
            SelectionView::Field { field: f, sub: s },
            SelectionView::Field { field: g, sub: t },
        ) => {
            &&& f.field_position.field_name == g.field_position.field_name
            &&& f.alias == g.alias
            &&& f.arguments == g.arguments
            &&& f.directives == g.directives
            &&& f.sibling_typename == g.sibling_typename
            &&& match (s, t) {
                (Some(x), Some(y)) => sets_alike(x, y),
                (None, None) => true,
                _ => false,
            }
        },
        (
            SelectionView::InlineFragment { fragment: f, set: x },
            SelectionView::InlineFragment { fragment: g, set: y },
        ) => {
            &&& f.directives == g.directives
            &&& f.selection_id == g.selection_id
            &&& match (f.type_condition_position, g.type_condition_position) {
                (Some(p), Some(q)) => composite_name(p) == composite_name(q),
                (None, None) => true,
                _ => false,
            }
            &&& sets_alike(x, y)
        },
        _ => false,
    }
}

/// Whether the selections of two sets are alike.
pub open spec fn sets_alike(a: SelectionSetView, b: SelectionSetView) -> bool
    decreases a,
{
    a.selections.len() == b.selections.len() && forall|i: int|
        0 <= i < a.selections.len() ==> alike(#[trigger] a.selections[i], b.selections[i])
}

/// Whether a set is on a type, and what it selects on the types that it leads to: each field and
/// fragment says that it is on the type of the set that it is in.
pub open spec fn is_on(set: SelectionSetView, parent: CompositeView, schema: SchemaView) -> bool
    decreases set,
{
    &&& set.type_position == parent
    &&& set.schema == schema
    &&& forall|i: int|
        0 <= i < set.selections.len() ==> selection_is_on(
            #[trigger] set.selections[i],
            parent,
            schema,
        )
}

/// Whether a selection is on a type, and what is below it on the type that it leads to.
pub open spec fn selection_is_on(
    selection: SelectionView,
    parent: CompositeView,
    schema: SchemaView,
) -> bool
    decreases selection,
{
    match selection {
        SelectionView::Field { field, sub } => {
            &&& field.field_position.parent == parent
            &&& field.schema == schema
            &&& sub matches Some(set) ==> (output_base_type(field) matches Ok(position)
                && as_composite(position) is Some && is_on(set, as_composite(position)->0, schema))
        },
        SelectionView::InlineFragment { fragment, set } => {
            &&& fragment.parent_type_position == parent
            &&& fragment.schema == schema
            &&& is_on(
                set,
                match fragment.type_condition_position {
                    Some(condition) => condition,
                    None => parent,
                },
                schema,
            )
        },
    }
}

proof fn lemma_rebased_alike(
    selection: SelectionView,
    parent: CompositeView,
    schema: SchemaView,
)
    requires
        sub_of(selection) matches Some(set) ==> every_key_is_distinct(set),
    ensures
        rebased_selection(selection, parent, schema) matches Ok(new) ==> alike(selection, new)
            && selection_is_on(new, parent, schema) && selection_key(new) == selection_key(selection),
    decreases selection, 2nat, 0nat,
{
    match rebased_selection(selection, parent, schema) {
        Err(_) => {},
        Ok(new) => match (selection, new) {
            (
                SelectionView::Field { field, sub: Some(set) },
                SelectionView::Field { field: own, sub: Some(below) },
            ) => {
                lemma_rebased_set_alike(set, below.type_position, schema);
            },
            (
                SelectionView::InlineFragment { fragment, set },
                SelectionView::InlineFragment { fragment: own, set: below },
            ) => {
                lemma_rebased_set_alike(set, below.type_position, schema);
            },
            _ => {},
        },
    }
}

proof fn lemma_rebased_set_alike(
    set: SelectionSetView,
    parent: CompositeView,
    schema: SchemaView,
)
    requires
        every_key_is_distinct(set),
    ensures
        rebased_set(set, parent, schema) matches Ok(new) ==> sets_alike(set, new) && is_on(
            new,
            parent,
            schema,
        ),
    decreases set, 1nat, 0nat,
{
    lemma_rebased_some_alike(set, parent, schema, set.selections.len());
}

proof fn lemma_rebased_some_alike(
    set: SelectionSetView,
    parent: CompositeView,
    schema: SchemaView,
    n: nat,
)
    requires
        every_key_is_distinct(set),
        n <= set.selections.len(),
    ensures
        rebased_selections(set, parent, schema, n) matches Ok(new) ==> new.len() == n && forall|
            i: int,
        |
            0 <= i < n ==> alike(set.selections[i], #[trigger] new[i]) && selection_is_on(
                new[i],
                parent,
                schema,
            ) && selection_key(new[i]) == selection_key(set.selections[i]),
    decreases set, 0nat, n,
{
    if n > 0 {
        lemma_rebased_some_alike(set, parent, schema, (n - 1) as nat);
        lemma_keys_below(set, n - 1);
        lemma_rebased_alike(set.selections[n - 1], parent, schema);
        match rebased_selections(set, parent, schema, (n - 1) as nat) {
            Err(_) => {},
            Ok(before) => match rebased_selection(set.selections[n - 1], parent, schema) {
                Err(_) => {},
                Ok(own) => {
                    lemma_selection_index(before, selection_key(own));
                    let i = selection_index(before, selection_key(own));
                    if i < before.len() {
                        assert(selection_key(set.selections[i]) == selection_key(
                            set.selections[n - 1],
                        ));
                    }
                    assert(put_selection(before, own) == before.push(own));
                },
            },
        }
    }
}

/// Selections that are moved to another type stay what they are: the same fields, with the same
/// arguments and directives, and the same fragments, in the same order; and they are on that type,
/// and below it on the types that they lead to there.
pub proof fn law_moved_selections_stay_alike(
    set: SelectionSetView,
    parent: CompositeView,
    schema: SchemaView,
)
    requires
        every_key_is_distinct(set),
    ensures
        rebased_set(set, parent, schema) matches Ok(new) ==> sets_alike(set, new) && is_on(
            new,
            parent,
            schema,
        ),
{
    lemma_rebased_set_alike(set, parent, schema);
}

proof fn lemma_alike_asks(a: SelectionView, b: SelectionView, fields: Seq<AnswerField>)
    requires
        alike(a, b),
    ensures
        selection_asks(a, fields) == selection_asks(b, fields),
    decreases a,
{
    match (a, b) {
        (
            SelectionView::Field { field: f, sub: Some(x) },
            SelectionView::Field { field: g, sub: Some(y) },
        ) => {
            lemma_sets_alike_ask(x, y, fields.drop_first());
        },
        (
            SelectionView::InlineFragment { fragment: f, set: x },
            SelectionView::InlineFragment { fragment: g, set: y },
        ) => {
            lemma_sets_alike_ask(x, y, fields);
        },
        _ => {},
    }
}

proof fn lemma_sets_alike_ask(a: SelectionSetView, b: SelectionSetView, fields: Seq<AnswerField>)
    requires
        sets_alike(a, b),
    ensures
        asks(a.selections, fields) == asks(b.selections, fields),
    decreases a,
{
    let x = a.selections;
    let y = b.selections;
    assert forall|i: int| 0 <= i < x.len() implies selection_asks(#[trigger] x[i], fields)
        == selection_asks(y[i], fields) by {
        lemma_alike_asks(x[i], y[i], fields);
    }
    if fields.len() > 0 {
        if asks(x, fields) {
            let i = choose|i: int| 0 <= i < x.len() && selection_asks(#[trigger] x[i], fields);
            assert(selection_asks(y[i], fields));
        }
        if asks(y, fields) {
            let i = choose|i: int| 0 <= i < y.len() && selection_asks(#[trigger] y[i], fields);
            assert(selection_asks(x[i], fields));
        }
    }
}

proof fn lemma_asks_with_rebased(
    start: Seq<SelectionView>,
    more: Seq<SelectionView>,
    parent: CompositeView,
    schema: SchemaView,
    n: nat,
    fields: Seq<AnswerField>,
)
    requires
        fields.len() > 0,
        n <= more.len(),
        forall|i: int|
            0 <= i < more.len() ==> (sub_of(#[trigger] more[i]) matches Some(sub)
                ==> every_key_is_distinct(sub)),
    ensures
        with_rebased(start, more, parent, schema, n) matches Ok(after) ==> asks(after, fields) == (
        asks(start, fields) || asks(more.take(n as int), fields)),
    decreases n,
{
    if n > 0 {
        lemma_asks_with_rebased(start, more, parent, schema, (n - 1) as nat, fields);
        match with_rebased(start, more, parent, schema, (n - 1) as nat) {
            Err(_) => {},
            Ok(before) => {
                lemma_rebased_alike(more[n - 1], parent, schema);
                match rebased_selection(more[n - 1], parent, schema) {
                    Err(_) => {},
                    Ok(own) => {
                        lemma_alike_asks(more[n - 1], own, fields);
                        lemma_asks_with(before, own, fields);
                        lemma_asks_taken(more, n as int, fields);
                    },
                }
            },
        }
    }
}

proof fn lemma_flattened_keys(
    set: SelectionSetView,
    parent: CompositeView,
    schema: SchemaView,
    n: nat,
)
    requires
        n <= set.selections.len(),
        every_key_is_distinct(set),
    ensures
        forall|i: int|
            0 <= i < flattened(set, parent, schema, n).len() ==> (sub_of(
                #[trigger] flattened(set, parent, schema, n)[i],
            ) matches Some(sub) ==> every_key_is_distinct(sub)),
    decreases set, n,
{
    if n > 0 {
        lemma_flattened_keys(set, parent, schema, (n - 1) as nat);
        lemma_keys_below(set, n - 1);
        match set.selections[n - 1] {
            SelectionView::InlineFragment { fragment, set: inner } => {
                lemma_flattened_keys(inner, parent, schema, inner.selections.len());
            },
            SelectionView::Field { field, sub } => {},
        }
        let before = flattened(set, parent, schema, (n - 1) as nat);
        let more = flattened_selection(set.selections[n - 1], parent, schema);
        let all = flattened(set, parent, schema, n);
        assert forall|i: int| 0 <= i < all.len() implies (sub_of(#[trigger] all[i]) matches Some(sub)
            ==> every_key_is_distinct(sub)) by {
            if i < before.len() {
                assert(all[i] == before[i]);
            } else {
                assert(all[i] == more[i - before.len()]);
            }
        }
    }
}

// Adding below a path.

/// Whether selections that are added below a path, from its element `from` on, ask for a field of
/// the answer.
pub open spec fn asks_below(
    path: Seq<ElementView>,
    from: nat,
    more: SelectionSetView,
    fields: Seq<AnswerField>,
) -> bool
    decreases path.len() - from,
{
    fields.len() == 0 || if from >= path.len() {
        asks(more.selections, fields)
    } else {
        match path[from as int] {
            ElementView::Field(field) => answer_field(field, true) == fields[0] && asks_below(
                path,
                from + 1,
                more,
                fields.drop_first(),
            ),
            ElementView::InlineFragment(_) => asks_below(path, from + 1, more, fields),
        }
    }
}

/// Whether a field of a set that is returned as one of a path is, with the same directives, is that
/// field.
pub open spec fn agrees_with(path: Seq<ElementView>) -> spec_fn(SelectionView) -> bool {
    |selection: SelectionView|
        selection matches SelectionView::Field { field, sub } ==> forall|k: int|
            0 <= k < path.len() ==> (#[trigger] path[k] matches ElementView::Field(other) ==> (
            answer_field(field, true).response_name == answer_field(other, true).response_name
                && field.directives.to_multiset() == other.directives.to_multiset()
                ==> field.field_position.field_name == other.field_position.field_name))
}

proof fn lemma_rebased_element_asks(
    element: ElementView,
    parent: CompositeView,
    schema: SchemaView,
    sub: SelectionSetView,
    fields: Seq<AnswerField>,
)
    requires
        fields.len() > 0,
    ensures
        rebased_element(element, parent, schema) matches Ok(own) ==> (selection_of(own, Some(sub))
            matches Ok(new) ==> selection_asks(new, fields) == (match element {
            ElementView::Field(field) => answer_field(field, true) == fields[0] && asks(
                sub.selections,
                fields.drop_first(),
            ),
            ElementView::InlineFragment(_) => asks(sub.selections, fields),
        })),
{
}

proof fn lemma_asks_last(
    set: SelectionSetView,
    element: ElementView,
    more: SelectionSetView,
    fields: Seq<AnswerField>,
)
    requires
        fields.len() > 0,
        more.selections.len() > 0,
        every_key_is_distinct(more),
    ensures
        with_last(set, element, Some(more)) matches Ok(after) ==> asks(after, fields) == (asks(
            set.selections,
            fields,
        ) || asks_below(seq![element], 0, more, fields)),
{
    let path = seq![element];
    assert(path[0] == element);
    match with_last(set, element, Some(more)) {
        Err(_) => {},
        Ok(after) => {
            let own = rebased_element(element, set.type_position, set.schema)->Ok_0;
            let below = last_sub(own, more, set.schema)->Ok_0;
            let ty = below.type_position;
            let new = selection_of(own, Some(below))->Ok_0;
            let flat = flattened(more, ty, set.schema, more.selections.len());
            lemma_flattened_keys(more, ty, set.schema, more.selections.len());
            lemma_asks_with(set.selections, new, fields);
            lemma_rebased_element_asks(element, set.type_position, set.schema, below, fields);
            let rest = match element {
                ElementView::Field(_) => fields.drop_first(),
                ElementView::InlineFragment(_) => fields,
            };
            if rest.len() > 0 {
                law_taking_fragments_apart_keeps_the_answer(more, ty, set.schema, rest);
                lemma_asks_with_rebased(Seq::empty(), flat, ty, set.schema, flat.len(), rest);
                assert(flat.take(flat.len() as int) =~= flat);
            }
            assert(asks(below.selections, rest) == asks(more.selections, rest));
            assert(asks_below(path, 1, more, rest) == asks(more.selections, rest));
        },
    }
}

proof fn lemma_same_element_below(
    path: Seq<ElementView>,
    from: nat,
    more: SelectionSetView,
    fields: Seq<AnswerField>,
)
    requires
        from + 1 == path.len(),
    ensures
        asks_below(path, from, more, fields) == asks_below(
            seq![path[from as int]],
            0,
            more,
            fields,
        ),
{
    let one = seq![path[from as int]];
    assert(one[0] == path[from as int]);
    reveal_with_fuel(asks_below, 2);
}

#[verifier::spinoff_prover]
#[verifier::rlimit(30)]
proof fn lemma_asks_added(
    set: SelectionSetView,
    path: Seq<ElementView>,
    from: nat,
    more: SelectionSetView,
    fields: Seq<AnswerField>,
)
    requires
        from <= path.len(),
        fields.len() > 0,
        more.selections.len() > 0,
        every_key_is_distinct(more),
        every_in_set(set, agrees_with(path), set.selections.len()),
    ensures
        added_at_path(set, path, from, Some(more)) matches Ok(after) ==> asks(
            after.selections,
            fields,
        ) == (asks(set.selections, fields) || asks_below(path, from, more, fields)),
    decreases path.len() - from,
{
    match added_at_path(set, path, from, Some(more)) {
        Err(_) => {},
        Ok(after) => {
            if from >= path.len() {
                assert forall|i: int| 0 <= i < more.selections.len() implies (sub_of(
                    #[trigger] more.selections[i],
                ) matches Some(sub) ==> every_key_is_distinct(sub)) by {
                    lemma_keys_below(more, i);
                }
                lemma_asks_with_rebased(
                    set.selections,
                    more.selections,
                    set.type_position,
                    set.schema,
                    more.selections.len(),
                    fields,
                );
                assert(more.selections.take(more.selections.len() as int) =~= more.selections);
            } else if from + 1 == path.len() {
                lemma_asks_last(set, path[from as int], more, fields);
                lemma_same_element_below(path, from, more, fields);
            } else {
                let element = path[from as int];
                let own = rebased_element(element, set.type_position, set.schema)->Ok_0;
                let (i, selection) = selection_for(set, element)->Ok_0;
                let below = sub_of(selection)->0;
                let longer = added_at_path(below, path, from + 1, Some(more))->Ok_0;
                let new = with_sub(selection, Some(longer))->Ok_0;
                let rest = match element {
                    ElementView::Field(_) => fields.drop_first(),
                    ElementView::InlineFragment(_) => fields,
                };
                let property = agrees_with(path);
                let ty = sub_selection_type(own)->Ok_0->0;
                let fresh = selection_of(own, Some(empty_set(set.schema, ty)))->Ok_0;
                lemma_selection_index(set.selections, selection_key(fresh));
                if i < set.selections.len() {
                    lemma_each(set, property, set.selections.len());
                    assert(every_in_selection(set.selections[i], property));
                } else {
                    assert(selection == fresh);
                    assert(below.selections =~= Seq::empty());
                }
                assert(every_in_set(below, property, below.selections.len()));
                if rest.len() > 0 {
                    lemma_asks_added(below, path, from + 1, more, rest);
                }
                let on_the_way = asks_below(path, from, more, fields);
                assert(asks(longer.selections, rest) == (asks(below.selections, rest) || asks_below(
                    path,
                    from + 1,
                    more,
                    rest,
                )));
                assert(property(selection) ==> (element matches ElementView::Field(field) ==> (
                selection matches SelectionView::Field { field: there, sub } && answer_field(
                    there,
                    true,
                ) == answer_field(field, true))));
                if i < set.selections.len() {
                    assert(selection_asks(new, fields) == (selection_asks(selection, fields)
                        || on_the_way));
                    lemma_asks_updated(set.selections, i, new, on_the_way, fields);
                } else {
                    assert(selection_asks(new, fields) == on_the_way);
                    lemma_asks_pushed(set.selections, new, fields);
                }
            }
        },
    }
}

/// A set to which selections are added below a path asks for what it asked for, and below the
/// path for what they ask for, and for nothing else.
pub proof fn law_added_selections_are_asked_for(
    set: SelectionSetView,
    path: Seq<ElementView>,
    more: SelectionSetView,
    fields: Seq<AnswerField>,
)
    requires
        fields.len() > 0,
        more.selections.len() > 0,
        every_key_is_distinct(more),
        every_in_set(set, agrees_with(path), set.selections.len()),
    ensures
        added_at_path(set, path, 0, Some(more)) matches Ok(after) ==> asks(after.selections, fields)
            == (asks(set.selections, fields) || asks_below(path, 0, more, fields)),
{
    lemma_asks_added(set, path, 0, more, fields);
}

// Empty branches.

/// Whether a field of an answer has nothing below it.
pub open spec fn ends(fields: Seq<AnswerField>) -> bool {
    fields.len() > 0 && !fields.last().has_fields
}

proof fn lemma_branch_asks(selection: SelectionView, fields: Seq<AnswerField>)
    requires
        ends(fields),
        sub_of(selection) matches Some(set) ==> every_key_is_distinct(set),
    ensures
        selection_asks(branch_without_empty(selection), fields) == selection_asks(selection, fields),
        selection_key(branch_without_empty(selection)) == selection_key(selection),
        is_empty_branch(branch_without_empty(selection)) ==> !selection_asks(selection, fields),
    decreases selection, 2nat, 0nat,
{
    let rest = fields.drop_first();
    match selection {
        SelectionView::Field { field, sub: Some(set) } => {
            if answer_field(field, true) == fields[0] {
                assert(rest.len() > 0 && rest.last() == fields.last());
                lemma_branches_ask(set, set.selections.len(), rest);
                assert(set.selections.take(set.selections.len() as int) =~= set.selections);
            }
        },
        SelectionView::Field { field, sub: None } => {},
        SelectionView::InlineFragment { fragment, set } => {
            lemma_branches_ask(set, set.selections.len(), fields);
            assert(set.selections.take(set.selections.len() as int) =~= set.selections);
        },
    }
}

proof fn lemma_branches_ask(set: SelectionSetView, n: nat, fields: Seq<AnswerField>)
    requires
        n <= set.selections.len(),
        every_key_is_distinct(set),
        ends(fields),
    ensures
        asks(nonempty_selections(set, n), fields) == asks(set.selections.take(n as int), fields),
        forall|j: int|
            0 <= j < nonempty_selections(set, n).len() ==> exists|i: int|
                0 <= i < n && selection_key(#[trigger] nonempty_selections(set, n)[j])
                    == selection_key(#[trigger] set.selections[i]),
    decreases set, 0nat, n,
{
    if n > 0 {
        lemma_branches_ask(set, (n - 1) as nat, fields);
        lemma_keys_below(set, n - 1);
        let before = nonempty_selections(set, (n - 1) as nat);
        let selection = set.selections[n - 1];
        let new = branch_without_empty(selection);
        lemma_branch_asks(selection, fields);
        lemma_asks_taken(set.selections, n as int, fields);
        if !is_empty_branch(new) {
            lemma_selection_index(before, selection_key(new));
            let at = selection_index(before, selection_key(new));
            if at < before.len() {
                let i = choose|i: int|
                    0 <= i < n - 1 && selection_key(before[at]) == selection_key(
                        #[trigger] set.selections[i],
                    );
                assert(selection_key(set.selections[i]) == selection_key(set.selections[n - 1]));
            }
            assert(put_selection(before, new) == before.push(new));
            lemma_asks_pushed(before, new, fields);
            let after = nonempty_selections(set, n);
            assert forall|j: int| 0 <= j < after.len() implies exists|i: int|
                0 <= i < n && selection_key(#[trigger] after[j]) == selection_key(
                    #[trigger] set.selections[i],
                ) by {
                if j < before.len() {
                    assert(after[j] == before[j]);
                } else {
                    assert(selection_key(after[j]) == selection_key(set.selections[n - 1]));
                }
            }
        }
    }
}

/// Leaving out empty branches changes nothing of the answer: every field without fields below it
/// is still asked for, and no other.
pub proof fn law_leaving_out_empty_branches_keeps_the_answer(
    set: SelectionSetView,
    fields: Seq<AnswerField>,
)
    requires
        every_key_is_distinct(set),
        ends(fields),
    ensures
        asks(without_empty(set).selections, fields) == asks(set.selections, fields),
{
    lemma_branches_ask(set, set.selections.len(), fields);
    assert(set.selections.take(set.selections.len() as int) =~= set.selections);
}

// Names of types.

/// Whether a field of an answer is the name of a type.
pub open spec fn is_type_name(fields: Seq<AnswerField>) -> bool {
    fields.len() > 0 && fields.last().name == "__typename"@
}

proof fn lemma_typenames_in(selection: SelectionView, fields: Seq<AnswerField>)
    requires
        fields.len() > 0,
        sub_of(selection) matches Some(set) ==> every_key_is_distinct(set),
    ensures
        selection_asks(selection, fields) ==> selection_asks(
            selection_with_typenames(selection),
            fields,
        ),
        selection_asks(selection_with_typenames(selection), fields) ==> selection_asks(
            selection,
            fields,
        ) || is_type_name(fields),
        selection_key(selection_with_typenames(selection)) == selection_key(selection),
    decreases selection, 2nat, 0nat,
{
    match selection {
        SelectionView::Field { field, sub: Some(set) } => {
            let rest = fields.drop_first();
            if rest.len() > 0 {
                assert(rest.last() == fields.last());
                lemma_typenames_of(
                    set,
                    if_abstract(Some(set.type_position)),
                    set.selections.len(),
                    rest,
                );
                assert(set.selections.take(set.selections.len() as int) =~= set.selections);
            }
        },
        SelectionView::Field { field, sub: None } => {},
        SelectionView::InlineFragment { fragment, set } => {
            lemma_typenames_of(
                set,
                if_abstract(fragment.type_condition_position),
                set.selections.len(),
                fields,
            );
            assert(set.selections.take(set.selections.len() as int) =~= set.selections);
        },
    }
}

proof fn lemma_typenames_of(
    set: SelectionSetView,
    parent: Option<CompositeView>,
    n: nat,
    fields: Seq<AnswerField>,
)
    requires
        fields.len() > 0,
        n <= set.selections.len(),
        every_key_is_distinct(set),
    ensures
        ({
            let after = selections_with_typenames(set, parent, n);
            &&& asks(set.selections.take(n as int), fields) ==> asks(after, fields)
            &&& asks(after, fields) ==> asks(set.selections.take(n as int), fields) || is_type_name(
                fields,
            )
            &&& forall|j: int|
                0 <= j < after.len() ==> {
                    ||| j == 0 && typename_start(set, parent).len() > 0 && after[0]
                        == typename_start(set, parent)[0]
                    ||| exists|i: int|
                        0 <= i < n && selection_key(#[trigger] after[j]) == selection_key(
                            #[trigger] set.selections[i],
                        )
                }
        }),
    decreases set, 0nat, n,
{
    let start = typename_start(set, parent);
    if n > 0 {
        lemma_typenames_of(set, parent, (n - 1) as nat, fields);
        lemma_keys_below(set, n - 1);
        let before = selections_with_typenames(set, parent, (n - 1) as nat);
        let selection = set.selections[n - 1];
        let new = selection_with_typenames(selection);
        lemma_typenames_in(selection, fields);
        lemma_asks_taken(set.selections, n as int, fields);
        lemma_selection_index(before, selection_key(new));
        let at = selection_index(before, selection_key(new));
        if at < before.len() {
            if at == 0 && start.len() > 0 && before[0] == start[0] {
                lemma_selection_index(set.selections, selection_key(start[0]));
                let place = selection_index(set.selections, selection_key(start[0]));
                assert(has_selection(set.selections, selection_key(start[0])));
            } else {
                let i = choose|i: int|
                    0 <= i < n - 1 && selection_key(before[at]) == selection_key(
                        #[trigger] set.selections[i],
                    );
                assert(selection_key(set.selections[i]) == selection_key(set.selections[n - 1]));
            }
        }
        assert(put_selection(before, new) == before.push(new));
        lemma_asks_pushed(before, new, fields);
        let after = selections_with_typenames(set, parent, n);
        assert forall|j: int| 0 <= j < after.len() implies {
            ||| j == 0 && start.len() > 0 && after[0] == start[0]
            ||| exists|i: int|
                0 <= i < n && selection_key(#[trigger] after[j]) == selection_key(
                    #[trigger] set.selections[i],
                )
        } by {
            if j < before.len() {
                assert(after[j] == before[j]);
            } else {
                assert(selection_key(after[j]) == selection_key(set.selections[n - 1]));
            }
        }
    } else {
        assert(set.selections.take(0) =~= Seq::empty());
        if asks(start, fields) {
            let j = choose|j: int| 0 <= j < start.len() && selection_asks(#[trigger] start[j], fields);
            assert(fields.len() == 1);
            assert(fields.last() == fields[0]);
        }
    }
}

/// A set with `__typename` on abstract types asks for what it asked for, and beside that only for
/// the names of types.
pub proof fn law_typenames_are_only_added(
    set: SelectionSetView,
    parent: Option<CompositeView>,
    fields: Seq<AnswerField>,
)
    requires
        fields.len() > 0,
        every_key_is_distinct(set),
    ensures
        asks(set.selections, fields) ==> asks(with_typenames(set, parent).selections, fields),
        asks(with_typenames(set, parent).selections, fields) ==> asks(set.selections, fields)
            || is_type_name(fields),
{
    lemma_typenames_of(set, parent, set.selections.len(), fields);
    assert(set.selections.take(set.selections.len() as int) =~= set.selections);
}

} // verus!
