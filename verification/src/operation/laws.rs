//! What holds of every operation.

use crate::ast::ArgumentView;
use crate::ast::DirectiveView;
use crate::ast::ValueView;
use crate::error::ErrorView;
use crate::merge::directives::argument_value;
use crate::merge::directives::first_directive;
use crate::operation::at_path::flattened;
use crate::operation::at_path::flattened_selection;
use crate::operation::at_path::unnecessary;
use crate::operation::defer::after_label;
use crate::operation::defer::defers_of_selection;
use crate::operation::defer::defers_of_set;
use crate::operation::defer::free_label;
use crate::operation::defer::label_name;
use crate::operation::defer::next_label;
use crate::operation::defer::normalized_arguments;
use crate::operation::defer::normalized_defer;
use crate::operation::defer::normalized_defers;
use crate::operation::defer::other_arguments;
use crate::operation::defer::reduced_selection;
use crate::operation::defer::reduced_selections;
use crate::operation::defer::reduced_set;
use crate::operation::defer::rewritten;
use crate::operation::defer::selection_defers;
use crate::operation::defer::set_defers;
use crate::operation::defer::staying;
use crate::operation::defer::stays;
use crate::operation::defer::DeferNormalizerView;
use crate::operation::defer_arguments;
use crate::operation::fragment_defer;
use crate::operation::merging::merged_selection;
use crate::operation::merging::merged_selections;
use crate::operation::merging::merged_sets;
use crate::operation::merging::with_selection;
use crate::operation::merging::with_selections;
use crate::operation::selection::lemma_selection_index;
use crate::operation::selection::put_selection;
use crate::operation::selection::selection_index;
use crate::operation::selection::selection_key;
use crate::operation::selection::SelectionSetView;
use crate::operation::selection::SelectionView;
use crate::operation::trees::branch_without_empty;
use crate::operation::trees::in_fragment;
use crate::operation::trees::is_empty_branch;
use crate::operation::trees::nonempty_selections;
use crate::operation::trees::split_fields;
use crate::operation::trees::split_selection;
use crate::operation::trees::without_empty;
use crate::operation::BooleanOrVariableView;
use crate::operation::DeferView;
use crate::operation::InlineFragmentView;
use crate::schema::position::CompositeView;
use crate::schema::SchemaView;
use crate::text::decimal;
use crate::text::lemma_decimals_differ;
use crate::text::Text;
use vstd::prelude::*;

verus! {

// Properties of every selection of a set.

/// Whether the first `n` selections of a set, and all below them, have a property.
pub open spec fn every_in_set(
    set: SelectionSetView,
    property: spec_fn(SelectionView) -> bool,
    n: nat,
) -> bool
    decreases set, n,
{
    n == 0 || n > set.selections.len() || (every_in_set(set, property, (n - 1) as nat)
        && every_in_selection(set.selections[n - 1], property))
}

/// Whether a selection, and all below it, have a property.
pub open spec fn every_in_selection(
    selection: SelectionView,
    property: spec_fn(SelectionView) -> bool,
) -> bool
    decreases selection, 0nat,
{
    property(selection) && match selection {
        SelectionView::Field { field, sub } => match sub {
            Some(set) => every_in_set(set, property, set.selections.len()),
            None => true,
        },
        SelectionView::InlineFragment { fragment, set } => every_in_set(
            set,
            property,
            set.selections.len(),
        ),
    }
}

/// Whether some selections, and all below them, have a property.
pub open spec fn every_of(selections: Seq<SelectionView>, property: spec_fn(SelectionView) -> bool) -> bool {
    forall|i: int|
        0 <= i < selections.len() ==> every_in_selection(#[trigger] selections[i], property)
}

pub(crate) proof fn lemma_every(set: SelectionSetView, property: spec_fn(SelectionView) -> bool, n: nat)
    requires
        every_of(set.selections, property),
    ensures
        every_in_set(set, property, n),
    decreases n,
{
    if 0 < n <= set.selections.len() {
        lemma_every(set, property, (n - 1) as nat);
    }
}

pub(crate) proof fn lemma_put_keeps(
    selections: Seq<SelectionView>,
    new: SelectionView,
    property: spec_fn(SelectionView) -> bool,
)
    requires
        every_of(selections, property),
        every_in_selection(new, property),
    ensures
        every_of(put_selection(selections, new), property),
{
    lemma_selection_index(selections, selection_key(new));
}

// `@defer`.

/// Whether a selection defers with a label, and with a variable as its condition if it has one, or
/// not at all.
pub open spec fn defers_in_order(selection: SelectionView) -> bool {
    match selection {
        SelectionView::Field { field, sub } => true,
        SelectionView::InlineFragment { fragment, set } => match fragment_defer(fragment) {
            Ok(None) => true,
            Ok(Some(arguments)) => arguments.label is Some && !(arguments.if_ matches Some(
                BooleanOrVariableView::Boolean(_),
            )),
            Err(_) => false,
        },
    }
}

proof fn lemma_no_directive(directives: Seq<DirectiveView>, name: Text)
    requires
        forall|i: int| 0 <= i < directives.len() ==> (#[trigger] directives[i]).name != name,
    ensures
        first_directive(directives, name) is None,
    decreases directives.len(),
{
    if directives.len() > 0 {
        let rest = directives.drop_first();
        assert forall|i: int| 0 <= i < rest.len() implies (#[trigger] rest[i]).name != name by {
            assert(rest[i] == directives[i + 1]);
        }
        lemma_no_directive(rest, name);
    }
}

proof fn lemma_first_rewritten(directives: Seq<DirectiveView>, new: DeferView)
    ensures
        first_directive(
            directives.map_values(|d: DirectiveView| rewritten(d, new)),
            "defer"@,
        ) == (match first_directive(directives, "defer"@) {
            Some(directive) => Some(rewritten(directive, new)),
            None => None,
        }),
    decreases directives.len(),
{
    let rewrite = |d: DirectiveView| rewritten(d, new);
    if directives.len() > 0 {
        lemma_first_rewritten(directives.drop_first(), new);
        assert(directives.map_values(rewrite).drop_first() =~= directives.drop_first().map_values(
            rewrite,
        ));
    }
}

proof fn lemma_argument_pushed(arguments: Seq<ArgumentView>, last: ArgumentView, name: Text)
    ensures
        argument_value(arguments.push(last), name) == (match argument_value(arguments, name) {
            Some(value) => Some(value),
            None => if last.name == name {
                Some(last.value)
            } else {
                None
            },
        }),
    decreases arguments.len(),
{
    reveal_with_fuel(argument_value, 2);
    if arguments.len() > 0 {
        assert(arguments.push(last).drop_first() =~= arguments.drop_first().push(last));
        lemma_argument_pushed(arguments.drop_first(), last, name);
    } else {
        assert(arguments.push(last).drop_first() =~= arguments);
    }
}

proof fn lemma_other_arguments(arguments: Seq<ArgumentView>, n: nat)
    requires
        n <= arguments.len(),
    ensures
        argument_value(other_arguments(arguments, n), "label"@) is None,
        argument_value(other_arguments(arguments, n), "if"@) is None,
    decreases n,
{
    if n > 0 {
        lemma_other_arguments(arguments, (n - 1) as nat);
        let before = other_arguments(arguments, (n - 1) as nat);
        lemma_argument_pushed(before, arguments[n - 1], "label"@);
        lemma_argument_pushed(before, arguments[n - 1], "if"@);
    }
}

/// Arguments of `@defer` that were written are read back.
pub(crate) proof fn lemma_arguments_read_back(directive: DirectiveView, new: DeferView)
    requires
        directive.name == "defer"@,
        new.label is Some,
    ensures
        defer_arguments(rewritten(directive, new)) == Ok::<DeferView, ErrorView>(new),
{
    reveal_strlit("label");
    reveal_strlit("if");
    assert("label"@.len() != "if"@.len());
    let others = other_arguments(directive.arguments, directive.arguments.len());
    lemma_other_arguments(directive.arguments, directive.arguments.len());
    let label = ArgumentView { name: "label"@, value: ValueView::String(new.label->0) };
    let labelled = others.push(label);
    lemma_argument_pushed(others, label, "label"@);
    lemma_argument_pushed(others, label, "if"@);
    match new.if_ {
        None => {},
        Some(BooleanOrVariableView::Variable(variable)) => {
            let condition = ArgumentView { name: "if"@, value: ValueView::Variable(variable) };
            lemma_argument_pushed(labelled, condition, "label"@);
            lemma_argument_pushed(labelled, condition, "if"@);
        },
        Some(BooleanOrVariableView::Boolean(b)) => {
            let condition = ArgumentView { name: "if"@, value: ValueView::Boolean(b) };
            lemma_argument_pushed(labelled, condition, "label"@);
            lemma_argument_pushed(labelled, condition, "if"@);
        },
    }
}

proof fn lemma_first_is_named(directives: Seq<DirectiveView>, name: Text)
    ensures
        first_directive(directives, name) matches Some(directive) ==> directive.name == name,
    decreases directives.len(),
{
    if directives.len() > 0 {
        lemma_first_is_named(directives.drop_first(), name);
    }
}

proof fn lemma_fragment_normalized(
    fragment: InlineFragmentView,
    set: SelectionSetView,
    state: DeferNormalizerView,
)
    ensures
        normalized_defer(fragment, state) matches Ok((new, after)) ==> defers_in_order(
            SelectionView::InlineFragment { fragment: new, set },
        ),
{
    broadcast use vstd::seq_lib::group_filter_ensures;

    match fragment_defer(fragment) {
        Err(_) => {},
        Ok(None) => {},
        Ok(Some(arguments)) => match normalized_arguments(arguments, next_label(state)) {
            None => {
                let kept = fragment.directives.filter(|d: DirectiveView| d.name != "defer"@);
                assert forall|i: int| 0 <= i < kept.len() implies (#[trigger] kept[i]).name
                    != "defer"@ by {
                    assert(kept.contains(kept[i]));
                }
                lemma_no_directive(kept, "defer"@);
            },
            Some(new) => {
                if new != arguments {
                    lemma_first_rewritten(fragment.directives, new);
                    lemma_first_is_named(fragment.directives, "defer"@);
                    lemma_arguments_read_back(
                        first_directive(fragment.directives, "defer"@)->0,
                        new,
                    );
                }
            },
        },
    }
}

proof fn lemma_set_normalized(set: SelectionSetView, state: DeferNormalizerView, n: nat)
    requires
        n <= set.selections.len(),
    ensures
        defers_of_set(set, state, n) matches Ok((selections, after)) ==> every_of(
            selections,
            |s: SelectionView| defers_in_order(s),
        ),
    decreases set, n,
{
    let property = |s: SelectionView| defers_in_order(s);
    if n > 0 {
        lemma_set_normalized(set, state, (n - 1) as nat);
        match defers_of_set(set, state, (n - 1) as nat) {
            Err(_) => {},
            Ok((before, next)) => {
                lemma_selection_normalized(set.selections[n - 1], next);
                match defers_of_selection(set.selections[n - 1], next) {
                    Err(_) => {},
                    Ok((new, after)) => {
                        lemma_put_keeps(before, new, property);
                    },
                }
            },
        }
    }
}

proof fn lemma_selection_normalized(selection: SelectionView, state: DeferNormalizerView)
    ensures
        defers_of_selection(selection, state) matches Ok((new, after)) ==> every_in_selection(
            new,
            |s: SelectionView| defers_in_order(s),
        ),
    decreases selection, 0nat,
{
    let property = |s: SelectionView| defers_in_order(s);
    match selection {
        SelectionView::Field { field, sub } => match sub {
            None => {},
            Some(set) => {
                lemma_set_normalized(set, state, set.selections.len());
                match defers_of_set(set, state, set.selections.len()) {
                    Err(_) => {},
                    Ok((selections, after)) => {
                        let new = SelectionSetView { selections, ..set };
                        lemma_every(new, property, selections.len());
                    },
                }
            },
        },
        SelectionView::InlineFragment { fragment, set } => {
            lemma_set_normalized(set, state, set.selections.len());
            match defers_of_set(set, state, set.selections.len()) {
                Err(_) => {},
                Ok((selections, next)) => {
                    let new = SelectionSetView { selections, ..set };
                    lemma_every(new, property, selections.len());
                    lemma_fragment_normalized(fragment, new, next);
                },
            }
        },
    }
}

/// After normalizing, every `@defer` has a label, and its condition, if it has one, is a variable.
pub proof fn law_every_defer_is_normalized(set: SelectionSetView, state: DeferNormalizerView)
    ensures
        normalized_defers(set, state) matches Ok((new, after)) ==> every_in_set(
            new,
            |s: SelectionView| defers_in_order(s),
            new.selections.len(),
        ),
{
    lemma_set_normalized(set, state, set.selections.len());
    match defers_of_set(set, state, set.selections.len()) {
        Err(_) => {},
        Ok((selections, after)) => {
            let new = SelectionSetView { selections, ..set };
            lemma_every(new, |s: SelectionView| defers_in_order(s), selections.len());
        },
    }
}

/// A label that is made up is not in use, unless all labels are.
pub proof fn law_made_up_labels_are_free(used: Seq<Text>, k: nat)
    requires
        k <= usize::MAX,
    ensures
        k <= free_label(used, k) <= usize::MAX,
        free_label(used, k) < usize::MAX ==> !used.contains(label_name(free_label(used, k))),
    decreases usize::MAX - k,
{
    if k < usize::MAX && used.contains(label_name(k)) {
        law_made_up_labels_are_free(used, k + 1);
    }
}

/// Labels made up one after the other differ, unless numbers run out.
pub proof fn law_made_up_labels_differ(state: DeferNormalizerView, later: DeferNormalizerView)
    requires
        after_label(state).label_offset <= later.label_offset,
        after_label(state).label_offset < usize::MAX,
    ensures
        next_label(later) != next_label(state),
{
    let k = free_label(state.used_labels, state.label_offset as nat);
    let j = free_label(later.used_labels, later.label_offset as nat);
    law_made_up_labels_are_free(state.used_labels, state.label_offset as nat);
    law_made_up_labels_are_free(later.used_labels, later.label_offset as nat);
    lemma_decimals_differ(k, j);
    if next_label(later) == next_label(state) {
        let prefix = "qp__"@;
        assert(next_label(state).skip(prefix.len() as int) =~= decimal(k));
        assert(next_label(later).skip(prefix.len() as int) =~= decimal(j));
    }
}

// Fragments that say nothing.

/// Where fragments that say nothing on a type were taken apart, none is left at the top.
pub proof fn law_no_unnecessary_fragment_is_left(
    set: SelectionSetView,
    parent: CompositeView,
    schema: SchemaView,
    n: nat,
    i: int,
)
    requires
        n <= set.selections.len(),
        0 <= i < flattened(set, parent, schema, n).len(),
    ensures
        flattened(set, parent, schema, n)[i] matches SelectionView::InlineFragment {
            fragment,
            set: inner,
        } ==> !unnecessary(fragment, parent, schema),
    decreases set, n,
{
    if n > 0 {
        let before = flattened(set, parent, schema, (n - 1) as nat);
        if i < before.len() {
            law_no_unnecessary_fragment_is_left(set, parent, schema, (n - 1) as nat, i);
        } else {
            let own = set.selections[n - 1];
            let k = i - before.len();
            assert(flattened(set, parent, schema, n)[i] == flattened_selection(
                own,
                parent,
                schema,
            )[k]);
            match own {
                SelectionView::InlineFragment { fragment, set: inner } => {
                    if unnecessary(fragment, parent, schema) {
                        law_no_unnecessary_fragment_is_left(
                            inner,
                            parent,
                            schema,
                            inner.selections.len(),
                            k,
                        );
                    }
                },
                SelectionView::Field { field, sub } => {},
            }
        }
    }
}

// Merging.

/// Whether no two selections have one key.
pub open spec fn keys_are_distinct(selections: Seq<SelectionView>) -> bool {
    forall|i: int, j: int|
        0 <= i < j < selections.len() ==> selection_key(#[trigger] selections[i]) != selection_key(
            #[trigger] selections[j],
        )
}

/// Whether no two selections directly below a selection have one key.
pub open spec fn keys_below_are_distinct(selection: SelectionView) -> bool {
    match selection {
        SelectionView::Field { field, sub } => match sub {
            Some(set) => keys_are_distinct(set.selections),
            None => true,
        },
        SelectionView::InlineFragment { fragment, set } => keys_are_distinct(set.selections),
    }
}

/// Whether no two selections beside each other have one key, at any depth of a set.
pub open spec fn every_key_is_distinct(set: SelectionSetView) -> bool {
    keys_are_distinct(set.selections) && every_in_set(
        set,
        |s: SelectionView| keys_below_are_distinct(s),
        set.selections.len(),
    )
}

proof fn lemma_key_of_merged(a: SelectionView, b: SelectionView)
    ensures
        merged_selection(a, b) matches Ok(merged) ==> selection_key(merged) == selection_key(a),
{
}

proof fn lemma_added_key_is_distinct(selections: Seq<SelectionView>, new: SelectionView)
    requires
        keys_are_distinct(selections),
    ensures
        with_selection(selections, new) matches Ok(after) ==> keys_are_distinct(after),
        keys_are_distinct(put_selection(selections, new)),
{
    let i = selection_index(selections, selection_key(new));
    lemma_selection_index(selections, selection_key(new));
    if i < selections.len() {
        lemma_key_of_merged(selections[i], new);
    }
}

proof fn lemma_merged_keys(a: Seq<SelectionView>, b: SelectionSetView, n: nat)
    requires
        keys_are_distinct(a),
    ensures
        merged_selections(a, b, n) matches Ok(after) ==> keys_are_distinct(after),
    decreases n,
{
    if 0 < n <= b.selections.len() {
        lemma_merged_keys(a, b, (n - 1) as nat);
        match merged_selections(a, b, (n - 1) as nat) {
            Err(_) => {},
            Ok(before) => lemma_added_key_is_distinct(before, b.selections[n - 1]),
        }
    }
}

/// Selections keep to one of each key, whatever is added to them, merged or put in place.
pub proof fn law_keys_stay_distinct(a: Seq<SelectionView>, b: Seq<SelectionView>, n: nat)
    requires
        keys_are_distinct(a),
        n <= b.len(),
    ensures
        with_selections(a, b, n) matches Ok(after) ==> keys_are_distinct(after),
        n > 0 ==> keys_are_distinct(put_selection(a, b[n - 1])),
    decreases n,
{
    if n > 0 {
        law_keys_stay_distinct(a, b, (n - 1) as nat);
        lemma_added_key_is_distinct(a, b[n - 1]);
        match with_selections(a, b, (n - 1) as nat) {
            Err(_) => {},
            Ok(before) => lemma_added_key_is_distinct(before, b[n - 1]),
        }
    }
}

/// Whether a property of two selections is one of what they are merged into.
pub(crate) open spec fn kept_by_merging(property: spec_fn(SelectionView) -> bool) -> bool {
    forall|a: SelectionView, b: SelectionView|
        property(a) && property(b) && #[trigger] merged_selection(a, b) is Ok ==> property(
            merged_selection(a, b)->Ok_0,
        )
}

pub(crate) proof fn lemma_each(
    set: SelectionSetView,
    property: spec_fn(SelectionView) -> bool,
    n: nat,
)
    requires
        n <= set.selections.len(),
        every_in_set(set, property, n),
    ensures
        forall|i: int| 0 <= i < n ==> every_in_selection(#[trigger] set.selections[i], property),
    decreases n,
{
    if n > 0 {
        lemma_each(set, property, (n - 1) as nat);
    }
}

pub(crate) proof fn lemma_with_keeps(
    selections: Seq<SelectionView>,
    new: SelectionView,
    property: spec_fn(SelectionView) -> bool,
)
    requires
        kept_by_merging(property),
        every_of(selections, property),
        every_in_selection(new, property),
    ensures
        with_selection(selections, new) matches Ok(after) ==> every_of(after, property),
    decreases new, 1nat, 0nat,
{
    let i = selection_index(selections, selection_key(new));
    lemma_selection_index(selections, selection_key(new));
    if i < selections.len() {
        lemma_merging_keeps(selections[i], new, property);
    }
}

proof fn lemma_merging_keeps(
    a: SelectionView,
    b: SelectionView,
    property: spec_fn(SelectionView) -> bool,
)
    requires
        kept_by_merging(property),
        every_in_selection(a, property),
        every_in_selection(b, property),
    ensures
        merged_selection(a, b) matches Ok(merged) ==> every_in_selection(merged, property),
    decreases b, 0nat, 0nat,
{
    match (a, b) {
        (
            SelectionView::Field { field: f, sub: Some(x) },
            SelectionView::Field { field: g, sub: Some(y) },
        ) => {
            lemma_merging_sets_keeps(x, y, property);
        },
        (
            SelectionView::InlineFragment { fragment: f, set: x },
            SelectionView::InlineFragment { fragment: g, set: y },
        ) => {
            lemma_merging_sets_keeps(x, y, property);
        },
        _ => {},
    }
}

pub(crate) proof fn lemma_merging_sets_keeps(
    a: SelectionSetView,
    b: SelectionSetView,
    property: spec_fn(SelectionView) -> bool,
)
    requires
        kept_by_merging(property),
        every_in_set(a, property, a.selections.len()),
        every_in_set(b, property, b.selections.len()),
    ensures
        merged_sets(a, b) matches Ok(new) ==> every_in_set(new, property, new.selections.len()),
    decreases b, 1nat, 0nat,
{
    lemma_each(a, property, a.selections.len());
    lemma_each(b, property, b.selections.len());
    lemma_merging_some_keeps(a.selections, b, b.selections.len(), property);
    match merged_sets(a, b) {
        Err(_) => {},
        Ok(new) => lemma_every(new, property, new.selections.len()),
    }
}

proof fn lemma_merging_some_keeps(
    a: Seq<SelectionView>,
    b: SelectionSetView,
    n: nat,
    property: spec_fn(SelectionView) -> bool,
)
    requires
        kept_by_merging(property),
        n <= b.selections.len(),
        every_of(a, property),
        every_of(b.selections, property),
    ensures
        merged_selections(a, b, n) matches Ok(after) ==> every_of(after, property),
    decreases b, 0nat, n,
{
    if n > 0 {
        lemma_merging_some_keeps(a, b, (n - 1) as nat, property);
        match merged_selections(a, b, (n - 1) as nat) {
            Err(_) => {},
            Ok(before) => lemma_with_keeps(before, b.selections[n - 1], property),
        }
    }
}

/// Where two sets have one selection of each key at every depth, so has what they are merged into.
pub proof fn law_merging_keeps_keys_distinct(a: SelectionSetView, b: SelectionSetView)
    requires
        every_key_is_distinct(a),
        every_key_is_distinct(b),
    ensures
        merged_sets(a, b) matches Ok(new) ==> every_key_is_distinct(new),
{
    let property = |s: SelectionView| keys_below_are_distinct(s);
    assert forall|x: SelectionView, y: SelectionView|
        property(x) && property(y) && #[trigger] merged_selection(x, y) is Ok implies property(
        merged_selection(x, y)->Ok_0,
    ) by {
        match (x, y) {
            (
                SelectionView::Field { field: f, sub: Some(s) },
                SelectionView::Field { field: g, sub: Some(t) },
            ) => lemma_merged_keys(s.selections, t, t.selections.len()),
            (
                SelectionView::InlineFragment { fragment: f, set: s },
                SelectionView::InlineFragment { fragment: g, set: t },
            ) => lemma_merged_keys(s.selections, t, t.selections.len()),
            _ => {},
        }
    }
    lemma_merging_sets_keeps(a, b, property);
    lemma_merged_keys(a.selections, b, b.selections.len());
}

// Labels of `@defer`.

/// Whether a selection defers with none of the labels.
pub open spec fn defers_otherwise(selection: SelectionView, labels: Seq<Text>) -> bool {
    match selection {
        SelectionView::Field { field, sub } => true,
        SelectionView::InlineFragment { fragment, set } => forall|i: int|
            0 <= i < fragment.directives.len() ==> stays(#[trigger] fragment.directives[i], labels),
    }
}

proof fn lemma_staying(directives: Seq<DirectiveView>, labels: Seq<Text>, n: nat)
    requires
        n <= directives.len(),
    ensures
        forall|i: int|
            0 <= i < staying(directives, labels, n).len() ==> stays(
                #[trigger] staying(directives, labels, n)[i],
                labels,
            ),
    decreases n,
{
    if n > 0 {
        lemma_staying(directives, labels, (n - 1) as nat);
        let before = staying(directives, labels, (n - 1) as nat);
        let after = staying(directives, labels, n);
        assert forall|i: int| 0 <= i < after.len() implies stays(#[trigger] after[i], labels) by {
            if i < before.len() {
                assert(after[i] == before[i]);
            }
        }
    }
}

proof fn lemma_nothing_deferred(set: SelectionSetView, labels: Seq<Text>, n: nat)
    requires
        n <= set.selections.len(),
        !set_defers(set, n),
    ensures
        every_in_set(set, |s: SelectionView| defers_otherwise(s, labels), n),
    decreases set, n,
{
    reveal_with_fuel(set_defers, 2);
    reveal_with_fuel(selection_defers, 2);
    reveal_with_fuel(every_in_selection, 2);
    reveal_with_fuel(every_in_set, 2);
    let property = |s: SelectionView| defers_otherwise(s, labels);
    if n > 0 {
        lemma_nothing_deferred(set, labels, (n - 1) as nat);
        let selection = set.selections[n - 1];
        match selection {
            SelectionView::Field { field, sub } => match sub {
                Some(below) => lemma_nothing_deferred(below, labels, below.selections.len()),
                None => {},
            },
            SelectionView::InlineFragment { fragment, set: below } => {
                lemma_nothing_deferred(below, labels, below.selections.len());
            },
        }
        assert(property(selection));
        assert(every_in_selection(selection, property));
    }
}

proof fn lemma_reduced(set: SelectionSetView, labels: Seq<Text>, n: nat)
    requires
        n <= set.selections.len(),
    ensures
        reduced_selections(set, labels, n) matches Ok(selections) ==> every_of(
            selections,
            |s: SelectionView| defers_otherwise(s, labels),
        ),
    decreases set, n,
{
    let property = |s: SelectionView| defers_otherwise(s, labels);
    if n > 0 {
        lemma_reduced(set, labels, (n - 1) as nat);
        let selection = set.selections[n - 1];
        match selection {
            SelectionView::Field { field, sub } => match sub {
                Some(below) => {
                    if set_defers(below, below.selections.len()) {
                        lemma_reduced(below, labels, below.selections.len());
                        match reduced_set(below, labels) {
                            Err(_) => {},
                            Ok(new) => lemma_every(new, property, new.selections.len()),
                        }
                    } else {
                        lemma_nothing_deferred(below, labels, below.selections.len());
                    }
                },
                None => {},
            },
            SelectionView::InlineFragment { fragment, set: below } => {
                lemma_reduced(below, labels, below.selections.len());
                lemma_staying(fragment.directives, labels, fragment.directives.len());
                match reduced_set(below, labels) {
                    Err(_) => {},
                    Ok(new) => lemma_every(new, property, new.selections.len()),
                }
            },
        }
        match (
            reduced_selections(set, labels, (n - 1) as nat),
            reduced_selection(selection, labels),
        ) {
            (Ok(before), Ok(new)) => {
                assert(property(new));
                lemma_with_keeps(before, new, property);
            },
            _ => {},
        }
    }
}

/// Where `@defer` with some labels was taken out, nothing is deferred with one of them.
pub proof fn law_reduced_labels_are_gone(set: SelectionSetView, labels: Seq<Text>)
    ensures
        reduced_set(set, labels) matches Ok(new) ==> every_in_set(
            new,
            |s: SelectionView| defers_otherwise(s, labels),
            new.selections.len(),
        ),
{
    lemma_reduced(set, labels, set.selections.len());
    match reduced_set(set, labels) {
        Err(_) => {},
        Ok(new) => lemma_every(
            new,
            |s: SelectionView| defers_otherwise(s, labels),
            new.selections.len(),
        ),
    }
}

// Empty branches.

proof fn lemma_nonempty(set: SelectionSetView, n: nat)
    requires
        n <= set.selections.len(),
    ensures
        every_of(nonempty_selections(set, n), |s: SelectionView| !is_empty_branch(s)),
    decreases set, n,
{
    let property = |s: SelectionView| !is_empty_branch(s);
    if n > 0 {
        lemma_nonempty(set, (n - 1) as nat);
        let selection = set.selections[n - 1];
        let new = branch_without_empty(selection);
        if !is_empty_branch(new) {
            match selection {
                SelectionView::Field { field, sub } => match sub {
                    Some(below) => {
                        lemma_nonempty(below, below.selections.len());
                        let after = without_empty(below);
                        lemma_every(after, property, after.selections.len());
                    },
                    None => {},
                },
                SelectionView::InlineFragment { fragment, set: below } => {
                    lemma_nonempty(below, below.selections.len());
                    let after = without_empty(below);
                    lemma_every(after, property, after.selections.len());
                },
            }
            lemma_put_keeps(nonempty_selections(set, (n - 1) as nat), new, property);
        }
    }
}

/// Where empty branches were left out, nothing is empty below any selection.
pub proof fn law_no_branch_is_empty(set: SelectionSetView)
    ensures
        every_in_set(
            without_empty(set),
            |s: SelectionView| !is_empty_branch(s),
            without_empty(set).selections.len(),
        ),
{
    lemma_nonempty(set, set.selections.len());
    let after = without_empty(set);
    lemma_every(after, |s: SelectionView| !is_empty_branch(s), after.selections.len());
}

// One set per field.

/// Whether a set selects one field at the top, in fragments or not.
pub open spec fn selects_one_field(set: SelectionSetView) -> bool
    decreases set,
{
    set.selections.len() == 1 && match set.selections[0] {
        SelectionView::Field { field, sub } => true,
        SelectionView::InlineFragment { fragment, set: inner } => selects_one_field(inner),
    }
}

/// The sets that a set is split into select one field each.
pub proof fn law_split_sets_select_one_field(set: SelectionSetView, n: nat, i: int)
    requires
        n <= set.selections.len(),
        0 <= i < split_fields(set, n).len(),
    ensures
        selects_one_field(split_fields(set, n)[i]),
    decreases set, n,
{
    if n > 0 {
        let before = split_fields(set, (n - 1) as nat);
        if i < before.len() {
            law_split_sets_select_one_field(set, (n - 1) as nat, i);
        } else {
            let selection = set.selections[n - 1];
            match selection {
                SelectionView::Field { field, sub } => {
                    reveal_with_fuel(selects_one_field, 2);
                    assert(split_selection(selection, set.type_position)[0].selections =~= seq![
                        selection,
                    ]);
                },
                SelectionView::InlineFragment { fragment, set: inner } => {
                    let k = i - before.len();
                    let all = split_fields(inner, inner.selections.len());
                    law_split_sets_select_one_field(inner, inner.selections.len(), k);
                    let wrapped = split_fields(set, n)[i];
                    assert(wrapped == in_fragment(fragment, all)[k]);
                    assert(wrapped.selections =~= seq![
                        SelectionView::InlineFragment { fragment, set: all[k] },
                    ]);
                    assert(wrapped.selections[0] == SelectionView::InlineFragment {
                        fragment,
                        set: all[k],
                    });
                },
            }
        }
    }
}

} // verus!
