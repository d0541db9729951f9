//! What holds of every `@defer` of an operation.

use crate::ast::ArgumentView;
use crate::ast::DirectiveView;
use crate::ast::ValueView;
use crate::collections::has_key;
use crate::collections::keys_distinct;
use crate::collections::key_index;
use crate::collections::lemma_key_index;
use crate::collections::set_with;
use crate::collections::value_or;
use crate::collections::Entries;
use crate::error::ErrorView;
use crate::merge::directives::argument_value;
use crate::merge::directives::first_directive;
use crate::merge::directives::has_directive;
use crate::operation::defer::after_condition;
use crate::operation::defer::after_label;
use crate::operation::defer::defers_of_selection;
use crate::operation::defer::defers_of_set;
use crate::operation::defer::labels_of_selection;
use crate::operation::defer::labels_of_set;
use crate::operation::defer::next_label;
use crate::operation::defer::normalized_arguments;
use crate::operation::defer::normalized_defer;
use crate::operation::defer::normalized_defers;
use crate::operation::defer::other_arguments;
use crate::operation::defer::reduced_selection;
use crate::operation::defer::reduced_selections;
use crate::operation::defer::reduced_set;
use crate::operation::defer::rewritten;
use crate::operation::defer::selection_defers;
use crate::operation::defer::set_defers;
use crate::operation::defer::staying;
use crate::operation::defer::DeferNormalizerView;
use crate::operation::defer_arguments;
use crate::operation::fragment_defer;
use crate::operation::laws::every_in_selection;
use crate::operation::laws::every_in_set;
use crate::operation::laws::every_of;
use crate::operation::laws::kept_by_merging;
use crate::operation::laws::lemma_arguments_read_back;
use crate::operation::laws::lemma_each;
use crate::operation::laws::lemma_every;
use crate::operation::laws::lemma_put_keeps;
use crate::operation::laws::lemma_with_keeps;
use crate::operation::merging::merged_selection;
use crate::operation::operations::defer_start;
use crate::operation::operations::reduced_operation;
use crate::operation::operations::with_normalized_defer;
use crate::operation::operations::OperationView;
use crate::operation::selection::SelectionSetView;
use crate::operation::selection::SelectionView;
use crate::operation::BooleanOrVariableView;
use crate::operation::DeferView;
use crate::operation::InlineFragmentView;
use crate::text::Text;
use vstd::prelude::*;

verus! {

// What directives say.

/// Whether the first argument of the given name has the given value.
pub open spec fn says(arguments: Seq<ArgumentView>, name: Text, value: ValueView) -> bool {
    exists|i: int|
        {
            &&& 0 <= i < arguments.len()
            &&& (#[trigger] arguments[i]).name == name
            &&& arguments[i].value == value
            &&& forall|j: int| 0 <= j < i ==> (#[trigger] arguments[j]).name != name
        }
}

/// Whether no argument has the given name.
pub open spec fn says_nothing(arguments: Seq<ArgumentView>, name: Text) -> bool {
    forall|i: int| 0 <= i < arguments.len() ==> (#[trigger] arguments[i]).name != name
}

/// Reading an argument gives the value of the first one of its name.
pub(crate) proof fn lemma_says(arguments: Seq<ArgumentView>, name: Text)
    ensures
        says_nothing(arguments, name) == (argument_value(arguments, name) is None),
        forall|value: ValueView|
            says(arguments, name, value) == (argument_value(arguments, name) == Some(value)),
    decreases arguments.len(),
{
    if arguments.len() > 0 {
        let rest = arguments.drop_first();
        lemma_says(rest, name);
        assert forall|value: ValueView|
            says(arguments, name, value) == (argument_value(arguments, name) == Some(value)) by {
            if arguments[0].name == name {
                if says(arguments, name, value) {
                    let i = choose|i: int|
                        {
                            &&& 0 <= i < arguments.len()
                            &&& (#[trigger] arguments[i]).name == name
                            &&& arguments[i].value == value
                            &&& forall|j: int|
                                0 <= j < i ==> (#[trigger] arguments[j]).name != name
                        };
                    assert(i == 0) by {
                        if i > 0 {
                            assert(arguments[0].name != name);
                        }
                    }
                }
                if arguments[0].value == value {
                    assert(says(arguments, name, value));
                }
            } else {
                if says(arguments, name, value) {
                    let i = choose|i: int|
                        {
                            &&& 0 <= i < arguments.len()
                            &&& (#[trigger] arguments[i]).name == name
                            &&& arguments[i].value == value
                            &&& forall|j: int|
                                0 <= j < i ==> (#[trigger] arguments[j]).name != name
                        };
                    assert(rest[i - 1] == arguments[i]);
                    assert forall|j: int| 0 <= j < i - 1 implies (#[trigger] rest[j]).name
                        != name by {
                        assert(rest[j] == arguments[j + 1]);
                    }
                    assert(says(rest, name, value));
                }
                if says(rest, name, value) {
                    let i = choose|i: int|
                        {
                            &&& 0 <= i < rest.len()
                            &&& (#[trigger] rest[i]).name == name
                            &&& rest[i].value == value
                            &&& forall|j: int| 0 <= j < i ==> (#[trigger] rest[j]).name != name
                        };
                    assert(arguments[i + 1] == rest[i]);
                    assert forall|j: int| 0 <= j < i + 1 implies (#[trigger] arguments[j]).name
                        != name by {
                        if j > 0 {
                            assert(arguments[j] == rest[j - 1]);
                        }
                    }
                    assert(says(arguments, name, value));
                }
            }
        }
        if arguments[0].name != name {
            if says_nothing(arguments, name) {
                assert forall|i: int| 0 <= i < rest.len() implies (#[trigger] rest[i]).name
                    != name by {
                    assert(rest[i] == arguments[i + 1]);
                }
            }
            if says_nothing(rest, name) {
                assert forall|i: int| 0 <= i < arguments.len() implies (
                #[trigger] arguments[i]).name != name by {
                    if i > 0 {
                        assert(arguments[i] == rest[i - 1]);
                    }
                }
            }
        }
    }
}

/// Whether a directive is `@defer` with the given label, if the given variable is true.
pub open spec fn defers_if(directive: DirectiveView, label: Text, variable: Text) -> bool {
    &&& directive.name == "defer"@
    &&& says(directive.arguments, "label"@, ValueView::String(label))
    &&& says(directive.arguments, "if"@, ValueView::Variable(variable))
}

/// Whether a fragment has at most one `@defer`, which is a directive that cannot be repeated.
pub open spec fn defers_once(selection: SelectionView) -> bool {
    match selection {
        SelectionView::Field { field, sub } => true,
        SelectionView::InlineFragment { fragment, set } => forall|i: int, j: int|
            0 <= i < j < fragment.directives.len() && (#[trigger] fragment.directives[i]).name
                == "defer"@ ==> (#[trigger] fragment.directives[j]).name != "defer"@,
    }
}

/// Whether a label was noted under a variable.
pub open spec fn is_noted(conditions: Entries<Seq<Text>>, variable: Text, label: Text) -> bool {
    exists|i: int|
        0 <= i < conditions.len() && (#[trigger] conditions[i]).0 == variable
            && conditions[i].1.contains(label)
}

/// Whether a selection that is deferred if a variable is true is noted under the variable.
pub open spec fn is_noted_if_deferred(selection: SelectionView, conditions: Entries<Seq<Text>>) -> bool {
    match selection {
        SelectionView::Field { field, sub } => true,
        SelectionView::InlineFragment { fragment, set } => forall|
            i: int,
            label: Text,
            variable: Text,
        |
            0 <= i < fragment.directives.len() && #[trigger] defers_if(
                fragment.directives[i],
                label,
                variable,
            ) ==> is_noted(conditions, variable, label),
    }
}

/// Whether everything that was noted is still noted.
pub open spec fn still_noted(before: Entries<Seq<Text>>, after: Entries<Seq<Text>>) -> bool {
    forall|variable: Text, label: Text|
        is_noted(before, variable, label) ==> #[trigger] is_noted(after, variable, label)
}

proof fn lemma_noting(state: DeferNormalizerView, label: Text, variable: Text)
    ensures
        still_noted(
            state.conditions,
            after_condition(state, label, variable).conditions,
        ),
        is_noted(after_condition(state, label, variable).conditions, variable, label),
        keys_distinct(state.conditions) ==> keys_distinct(
            after_condition(state, label, variable).conditions,
        ),
{
    let before = state.conditions;
    let after = after_condition(state, label, variable).conditions;
    let known = value_or(before, variable, Seq::empty());
    let labels = set_with(known, label);
    assert(labels.contains(label)) by {
        if !known.contains(label) {
            assert(labels[known.len() as int] == label);
        }
    }
    assert forall|x: Text| known.contains(x) implies labels.contains(x) by {
        if !known.contains(label) {
            let k = choose|k: int| 0 <= k < known.len() && known[k] == x;
            assert(labels[k] == x);
        }
    }
    if has_key(before, variable) {
        lemma_key_index(before, variable);
    }
    let place = if has_key(before, variable) {
        key_index(before, variable)
    } else {
        before.len() as int
    };
    assert(after[place] == (variable, labels));
    assert(is_noted(after, variable, label));
    assert forall|v: Text, l: Text| is_noted(before, v, l) implies #[trigger] is_noted(
        after,
        v,
        l,
    ) by {
        let i = choose|i: int|
            0 <= i < before.len() && (#[trigger] before[i]).0 == v && before[i].1.contains(l);
        if i == place {
            assert(after[i].1.contains(l));
        } else {
            assert(after[i] == before[i]);
        }
    }
    if keys_distinct(before) {
        assert forall|i: int, j: int| 0 <= i < j < after.len() implies (#[trigger] after[i]).0 != (
        #[trigger] after[j]).0 by {
            if has_key(before, variable) {
                assert(after[i].0 == before[i].0 && after[j].0 == before[j].0);
            } else {
                assert(after[i] == before[i]);
                if j < before.len() {
                    assert(after[j] == before[j]);
                }
            }
        }
    }
}

pub(crate) proof fn lemma_weaken_set(
    set: SelectionSetView,
    p: spec_fn(SelectionView) -> bool,
    q: spec_fn(SelectionView) -> bool,
    n: nat,
)
    requires
        every_in_set(set, p, n),
        forall|s: SelectionView| #[trigger] p(s) ==> q(s),
    ensures
        every_in_set(set, q, n),
    decreases set, n,
{
    if 0 < n <= set.selections.len() {
        lemma_weaken_set(set, p, q, (n - 1) as nat);
        lemma_weaken(set.selections[n - 1], p, q);
    }
}

pub(crate) proof fn lemma_weaken(
    selection: SelectionView,
    p: spec_fn(SelectionView) -> bool,
    q: spec_fn(SelectionView) -> bool,
)
    requires
        every_in_selection(selection, p),
        forall|s: SelectionView| #[trigger] p(s) ==> q(s),
    ensures
        every_in_selection(selection, q),
    decreases selection, 0nat,
{
    assert(p(selection));
    match selection {
        SelectionView::Field { field, sub } => match sub {
            Some(set) => lemma_weaken_set(set, p, q, set.selections.len()),
            None => {},
        },
        SelectionView::InlineFragment { fragment, set } => {
            lemma_weaken_set(set, p, q, set.selections.len());
        },
    }
}

spec fn noted(conditions: Entries<Seq<Text>>) -> spec_fn(SelectionView) -> bool {
    |s: SelectionView| is_noted_if_deferred(s, conditions)
}

proof fn lemma_noted_longer(
    selections: Seq<SelectionView>,
    before: Entries<Seq<Text>>,
    after: Entries<Seq<Text>>,
)
    requires
        every_of(selections, noted(before)),
        still_noted(before, after),
    ensures
        every_of(selections, noted(after)),
{
    let p = noted(before);
    let q = noted(after);
    assert forall|s: SelectionView| #[trigger] p(s) implies q(s) by {
        match s {
            SelectionView::Field { field, sub } => {},
            SelectionView::InlineFragment { fragment, set } => {
                assert forall|i: int, label: Text, variable: Text|
                    0 <= i < fragment.directives.len() && #[trigger] defers_if(
                        fragment.directives[i],
                        label,
                        variable,
                    ) implies is_noted(after, variable, label) by {
                    assert(is_noted(before, variable, label));
                }
            },
        }
    }
    assert forall|i: int| 0 <= i < selections.len() implies every_in_selection(
        #[trigger] selections[i],
        q,
    ) by {
        lemma_weaken(selections[i], p, q);
    }
}

proof fn lemma_first_of_name(directives: Seq<DirectiveView>, name: Text)
    ensures
        match first_directive(directives, name) {
            None => forall|i: int|
                0 <= i < directives.len() ==> (#[trigger] directives[i]).name != name,
            Some(found) => found.name == name && exists|i: int|
                0 <= i < directives.len() && #[trigger] directives[i] == found && forall|j: int|
                    0 <= j < i ==> (#[trigger] directives[j]).name != name,
        },
    decreases directives.len(),
{
    if directives.len() > 0 {
        let rest = directives.drop_first();
        lemma_first_of_name(rest, name);
        if directives[0].name == name {
            assert(directives[0] == first_directive(directives, name)->0);
        } else {
            match first_directive(rest, name) {
                None => {
                    assert forall|i: int| 0 <= i < directives.len() implies (
                    #[trigger] directives[i]).name != name by {
                        if i > 0 {
                            assert(directives[i] == rest[i - 1]);
                        }
                    }
                },
                Some(found) => {
                    let i = choose|i: int|
                        0 <= i < rest.len() && #[trigger] rest[i] == found && forall|j: int|
                            0 <= j < i ==> (#[trigger] rest[j]).name != name;
                    assert(directives[i + 1] == found);
                    assert forall|j: int| 0 <= j < i + 1 implies (#[trigger] directives[j]).name
                        != name by {
                        if j > 0 {
                            assert(directives[j] == rest[j - 1]);
                        }
                    }
                },
            }
        }
    }
}

/// The only `@defer` of a fragment that has at most one is the one that is read.
proof fn lemma_only_defer(fragment: InlineFragmentView, set: SelectionSetView, i: int)
    requires
        defers_once(SelectionView::InlineFragment { fragment, set }),
        0 <= i < fragment.directives.len(),
        fragment.directives[i].name == "defer"@,
    ensures
        first_directive(fragment.directives, "defer"@) == Some(fragment.directives[i]),
{
    lemma_first_of_name(fragment.directives, "defer"@);
    match first_directive(fragment.directives, "defer"@) {
        None => {},
        Some(found) => {
            let k = choose|k: int|
                0 <= k < fragment.directives.len() && #[trigger] fragment.directives[k] == found
                    && forall|j: int|
                    0 <= j < k ==> (#[trigger] fragment.directives[j]).name != "defer"@;
            assert(fragment.directives[k].name == "defer"@);
            assert(k == i);
        },
    }
}

proof fn lemma_defer_read(directive: DirectiveView, label: Text, variable: Text)
    requires
        defers_if(directive, label, variable),
    ensures
        defer_arguments(directive) == Ok::<DeferView, ErrorView>(
            DeferView {
                label: Some(label),
                if_: Some(BooleanOrVariableView::Variable(variable)),
            },
        ),
{
    lemma_says(directive.arguments, "label"@);
    lemma_says(directive.arguments, "if"@);
}

proof fn lemma_fragment_noted(
    fragment: InlineFragmentView,
    old_set: SelectionSetView,
    set: SelectionSetView,
    state: DeferNormalizerView,
)
    requires
        defers_once(SelectionView::InlineFragment { fragment, set: old_set }),
    ensures
        normalized_defer(fragment, state) matches Ok((new, after)) ==> {
            &&& is_noted_if_deferred(
                SelectionView::InlineFragment { fragment: new, set },
                after.conditions,
            )
            &&& still_noted(state.conditions, after.conditions)
            &&& keys_distinct(state.conditions) ==> keys_distinct(after.conditions)
        },
{
    broadcast use vstd::seq_lib::group_filter_ensures;

    if let Ok((new, after)) = normalized_defer(fragment, state) {
        match fragment_defer(fragment) {
            Ok(Some(arguments)) => {
                let chosen = normalized_arguments(arguments, next_label(state));
                if let Some(DeferView {
                    label: Some(label),
                    if_: Some(BooleanOrVariableView::Variable(variable)),
                }) = chosen {
                    let labelled = if arguments.label is None {
                        after_label(state)
                    } else {
                        state
                    };
                    lemma_noting(labelled, label, variable);
                }
                assert forall|i: int, label: Text, variable: Text|
                    0 <= i < new.directives.len() && #[trigger] defers_if(
                        new.directives[i],
                        label,
                        variable,
                    ) implies is_noted(after.conditions, variable, label) by {
                    match chosen {
                        None => {
                            assert(new.directives.contains(new.directives[i]));
                        },
                        Some(written) => {
                            lemma_only_defer(fragment, old_set, i);
                            lemma_defer_read(new.directives[i], label, variable);
                            if written != arguments {
                                assert(new.directives[i] == rewritten(
                                    fragment.directives[i],
                                    written,
                                ));
                                lemma_arguments_read_back(fragment.directives[i], written);
                            }
                        },
                    }
                }
            },
            _ => {
                lemma_first_of_name(fragment.directives, "defer"@);
            },
        }
    }
}

proof fn lemma_set_noted(set: SelectionSetView, state: DeferNormalizerView, n: nat)
    requires
        n <= set.selections.len(),
        every_in_set(set, |s: SelectionView| defers_once(s), set.selections.len()),
    ensures
        defers_of_set(set, state, n) matches Ok((selections, after)) ==> {
            &&& every_of(selections, noted(after.conditions))
            &&& still_noted(state.conditions, after.conditions)
            &&& keys_distinct(state.conditions) ==> keys_distinct(after.conditions)
        },
    decreases set, n,
{
    if n > 0 {
        lemma_set_noted(set, state, (n - 1) as nat);
        lemma_each(set, |s: SelectionView| defers_once(s), set.selections.len());
        if let Ok((before, next)) = defers_of_set(set, state, (n - 1) as nat) {
            lemma_selection_noted(set.selections[n - 1], next);
            if let Ok((new, after)) = defers_of_selection(set.selections[n - 1], next) {
                lemma_noted_longer(before, next.conditions, after.conditions);
                lemma_put_keeps(before, new, noted(after.conditions));
            }
        }
    }
}

proof fn lemma_selection_noted(selection: SelectionView, state: DeferNormalizerView)
    requires
        every_in_selection(selection, |s: SelectionView| defers_once(s)),
    ensures
        defers_of_selection(selection, state) matches Ok((new, after)) ==> {
            &&& every_in_selection(new, noted(after.conditions))
            &&& still_noted(state.conditions, after.conditions)
            &&& keys_distinct(state.conditions) ==> keys_distinct(after.conditions)
        },
    decreases selection, 0nat,
{
    match selection {
        SelectionView::Field { field, sub } => match sub {
            None => {},
            Some(set) => {
                lemma_set_noted(set, state, set.selections.len());
                if let Ok((selections, after)) = defers_of_set(set, state, set.selections.len()) {
                    let new = SelectionSetView { selections, ..set };
                    lemma_every(new, noted(after.conditions), selections.len());
                }
            },
        },
        SelectionView::InlineFragment { fragment, set } => {
            lemma_set_noted(set, state, set.selections.len());
            if let Ok((selections, next)) = defers_of_set(set, state, set.selections.len()) {
                let new = SelectionSetView { selections, ..set };
                lemma_fragment_noted(fragment, set, new, next);
                if let Ok((own, after)) = normalized_defer(fragment, next) {
                    lemma_noted_longer(selections, next.conditions, after.conditions);
                    lemma_every(new, noted(after.conditions), selections.len());
                    let whole = SelectionView::InlineFragment { fragment: own, set: new };
                    assert(noted(after.conditions)(whole));
                }
            }
        },
    }
}

/// After normalizing, every fragment that is deferred under a label if a variable is true is noted:
/// the label stands under the variable. Nothing that was noted before is forgotten.
pub proof fn law_conditional_defers_are_noted(set: SelectionSetView, state: DeferNormalizerView)
    requires
        every_in_set(set, |s: SelectionView| defers_once(s), set.selections.len()),
    ensures
        normalized_defers(set, state) matches Ok((new, after)) ==> {
            &&& every_in_set(
                new,
                |s: SelectionView| is_noted_if_deferred(s, after.conditions),
                new.selections.len(),
            )
            &&& still_noted(state.conditions, after.conditions)
        },
{
    lemma_set_noted(set, state, set.selections.len());
    if let Ok((selections, after)) = defers_of_set(set, state, set.selections.len()) {
        let new = SelectionSetView { selections, ..set };
        lemma_every(new, noted(after.conditions), selections.len());
        lemma_weaken_set(
            new,
            noted(after.conditions),
            |s: SelectionView| is_noted_if_deferred(s, after.conditions),
            selections.len(),
        );
    }
}

// Operations.

/// Whether a selection is no fragment with `@defer`.
pub open spec fn is_not_deferred(selection: SelectionView) -> bool {
    match selection {
        SelectionView::Field { field, sub } => true,
        SelectionView::InlineFragment { fragment, set } => forall|i: int|
            0 <= i < fragment.directives.len() ==> (#[trigger] fragment.directives[i]).name
                != "defer"@,
    }
}

proof fn lemma_no_defer(set: SelectionSetView, n: nat)
    requires
        n <= set.selections.len(),
    ensures
        set_defers(set, n) == !every_in_set(set, |s: SelectionView| is_not_deferred(s), n),
    decreases set, n,
{
    if n > 0 {
        lemma_no_defer(set, (n - 1) as nat);
        lemma_no_defer_in(set.selections[n - 1]);
    }
}

proof fn lemma_no_defer_in(selection: SelectionView)
    ensures
        selection_defers(selection) == !every_in_selection(
            selection,
            |s: SelectionView| is_not_deferred(s),
        ),
    decreases selection, 0nat,
{
    match selection {
        SelectionView::Field { field, sub } => match sub {
            Some(set) => lemma_no_defer(set, set.selections.len()),
            None => {},
        },
        SelectionView::InlineFragment { fragment, set } => {
            lemma_no_defer(set, set.selections.len());
            assert(has_directive(fragment.directives, "defer"@) == !is_not_deferred(selection));
        },
    }
}

/// Whether everything that is deferred if a variable is true is noted, at any depth.
pub open spec fn all_noted(set: SelectionSetView, conditions: Entries<Seq<Text>>) -> bool {
    every_in_set(
        set,
        |s: SelectionView| is_noted_if_deferred(s, conditions),
        set.selections.len(),
    )
}

/// The conditions of an operation whose `@defer` are normalized name every label that depends on a
/// variable, under the variable, and each variable once. An operation has `@defer` if and only if
/// some fragment of it has.
pub proof fn law_conditions_name_every_label(operation: OperationView)
    requires
        every_in_set(
            operation.selection_set,
            |s: SelectionView| defers_once(s),
            operation.selection_set.selections.len(),
        ),
    ensures
        with_normalized_defer(operation) matches Ok(normalized) ==> {
            &&& all_noted(normalized.operation.selection_set, normalized.defer_conditions)
            &&& keys_distinct(normalized.defer_conditions)
            &&& normalized.has_defers == !every_in_set(
                operation.selection_set,
                |s: SelectionView| is_not_deferred(s),
                operation.selection_set.selections.len(),
            )
        },
{
    let set = operation.selection_set;
    lemma_no_defer(set, set.selections.len());
    if let Ok(normalized) = with_normalized_defer(operation) {
        if normalized.has_defers {
            let used = labels_of_set(
                set,
                Seq::empty(),
                set.selections.len(),
            )->Ok_0;
            let start = defer_start(used);
            law_conditional_defers_are_noted(set, start);
            lemma_set_noted(set, start, set.selections.len());
        } else {
            lemma_weaken_set(
                set,
                |s: SelectionView| is_not_deferred(s),
                |s: SelectionView| is_noted_if_deferred(s, normalized.defer_conditions),
                set.selections.len(),
            );
        }
    }
}

// Without the labels of a variable.

/// Whether a selection is not deferred if the given variable is true.
pub open spec fn is_not_deferred_if(selection: SelectionView, variable: Text) -> bool {
    match selection {
        SelectionView::Field { field, sub } => true,
        SelectionView::InlineFragment { fragment, set } => forall|i: int, label: Text|
            0 <= i < fragment.directives.len() ==> !#[trigger] defers_if(
                fragment.directives[i],
                label,
                variable,
            ),
    }
}

spec fn unconditional(variable: Text) -> spec_fn(SelectionView) -> bool {
    |s: SelectionView| is_not_deferred_if(s, variable)
}

proof fn lemma_unconditional_is_kept(variable: Text)
    ensures
        kept_by_merging(unconditional(variable)),
{
    let property = unconditional(variable);
    assert forall|a: SelectionView, b: SelectionView|
        property(a) && property(b) && #[trigger] merged_selection(a, b) is Ok implies property(
        merged_selection(a, b)->Ok_0,
    ) by {}
}

proof fn lemma_stays_otherwise(
    directives: Seq<DirectiveView>,
    labels: Seq<Text>,
    variable: Text,
    n: nat,
)
    requires
        n <= directives.len(),
        forall|i: int, label: Text|
            0 <= i < directives.len() && #[trigger] defers_if(directives[i], label, variable)
                ==> labels.contains(label),
    ensures
        forall|i: int, label: Text|
            0 <= i < staying(directives, labels, n).len() ==> !#[trigger] defers_if(
                staying(directives, labels, n)[i],
                label,
                variable,
            ),
    decreases n,
{
    if n > 0 {
        lemma_stays_otherwise(directives, labels, variable, (n - 1) as nat);
        let before = staying(directives, labels, (n - 1) as nat);
        let after = staying(directives, labels, n);
        assert forall|i: int, label: Text| 0 <= i < after.len() implies !#[trigger] defers_if(
            after[i],
            label,
            variable,
        ) by {
            if i < before.len() {
                assert(after[i] == before[i]);
            } else if defers_if(after[i], label, variable) {
                assert(after[i] == directives[n - 1]);
                lemma_says(directives[n - 1].arguments, "label"@);
                assert(labels.contains(label));
            }
        }
    }
}

/// Whether the labels under which a selection is deferred if a variable is true are among the given
/// ones.
spec fn covered(labels: Seq<Text>, variable: Text) -> spec_fn(SelectionView) -> bool {
    |s: SelectionView|
        match s {
            SelectionView::Field { field, sub } => true,
            SelectionView::InlineFragment { fragment, set } => forall|i: int, label: Text|
                0 <= i < fragment.directives.len() && #[trigger] defers_if(
                    fragment.directives[i],
                    label,
                    variable,
                ) ==> labels.contains(label),
        }
}

proof fn lemma_reduced_otherwise(
    set: SelectionSetView,
    labels: Seq<Text>,
    variable: Text,
    n: nat,
)
    requires
        n <= set.selections.len(),
        every_in_set(set, covered(labels, variable), set.selections.len()),
    ensures
        reduced_selections(set, labels, n) matches Ok(selections) ==> every_of(
            selections,
            unconditional(variable),
        ),
    decreases set, n,
{
    let property = unconditional(variable);
    if n > 0 {
        lemma_reduced_otherwise(set, labels, variable, (n - 1) as nat);
        lemma_each(set, covered(labels, variable), set.selections.len());
        let selection = set.selections[n - 1];
        assert(every_in_selection(selection, covered(labels, variable)));
        assert(covered(labels, variable)(selection));
        match selection {
            SelectionView::Field { field, sub } => match sub {
                Some(below) => {
                    if set_defers(below, below.selections.len()) {
                        lemma_reduced_otherwise(below, labels, variable, below.selections.len());
                        if let Ok(new) = reduced_set(below, labels) {
                            lemma_every(new, property, new.selections.len());
                        }
                    } else {
                        lemma_no_defer(below, below.selections.len());
                        lemma_weaken_set(
                            below,
                            |s: SelectionView| is_not_deferred(s),
                            property,
                            below.selections.len(),
                        );
                    }
                },
                None => {},
            },
            SelectionView::InlineFragment { fragment, set: below } => {
                lemma_reduced_otherwise(below, labels, variable, below.selections.len());
                lemma_stays_otherwise(
                    fragment.directives,
                    labels,
                    variable,
                    fragment.directives.len(),
                );
                if let Ok(new) = reduced_set(below, labels) {
                    lemma_every(new, property, new.selections.len());
                }
            },
        }
        if let (Ok(before), Ok(new)) = (
            reduced_selections(set, labels, (n - 1) as nat),
            reduced_selection(selection, labels),
        ) {
            assert(property(new));
            lemma_unconditional_is_kept(variable);
            lemma_with_keeps(before, new, property);
        }
    }
}

/// Where the labels that depend on a variable are taken out of a normalized operation, nothing is
/// deferred any more if the variable is true.
pub proof fn law_labels_of_a_variable_are_all_taken_out(operation: OperationView, k: int)
    requires
        every_in_set(
            operation.selection_set,
            |s: SelectionView| defers_once(s),
            operation.selection_set.selections.len(),
        ),
        with_normalized_defer(operation) matches Ok(normalized) && 0 <= k
            < normalized.defer_conditions.len(),
    ensures
        ({
            let normalized = with_normalized_defer(operation)->Ok_0;
            let (variable, labels) = normalized.defer_conditions[k];
            reduced_operation(normalized.operation, labels) matches Ok(reduced) ==> every_in_set(
                reduced.selection_set,
                |s: SelectionView| is_not_deferred_if(s, variable),
                reduced.selection_set.selections.len(),
            )
        }),
{
    law_conditions_name_every_label(operation);
    let normalized = with_normalized_defer(operation)->Ok_0;
    let conditions = normalized.defer_conditions;
    let (variable, labels) = conditions[k];
    let set = normalized.operation.selection_set;
    let p = |s: SelectionView| is_noted_if_deferred(s, conditions);
    let q = covered(labels, variable);
    assert forall|s: SelectionView| #[trigger] p(s) implies q(s) by {
        match s {
            SelectionView::Field { field, sub } => {},
            SelectionView::InlineFragment { fragment, set: inner } => {
                assert forall|i: int, label: Text|
                    0 <= i < fragment.directives.len() && #[trigger] defers_if(
                        fragment.directives[i],
                        label,
                        variable,
                    ) implies labels.contains(label) by {
                    assert(is_noted(conditions, variable, label));
                    let j = choose|j: int|
                        0 <= j < conditions.len() && (#[trigger] conditions[j]).0 == variable
                            && conditions[j].1.contains(label);
                    assert(j == k) by {
                        if j < k {
                            assert(conditions[j].0 != conditions[k].0);
                        } else if k < j {
                            assert(conditions[k].0 != conditions[j].0);
                        }
                    }
                }
            },
        }
    }
    lemma_weaken_set(set, p, q, set.selections.len());
    lemma_reduced_otherwise(set, labels, variable, set.selections.len());
    if let Ok(reduced) = reduced_operation(normalized.operation, labels) {
        lemma_no_defer(set, set.selections.len());
        if set_defers(set, set.selections.len()) {
            lemma_every(
                reduced.selection_set,
                unconditional(variable),
                reduced.selection_set.selections.len(),
            );
        } else {
            lemma_weaken_set(
                set,
                |s: SelectionView| is_not_deferred(s),
                unconditional(variable),
                set.selections.len(),
            );
        }
        lemma_weaken_set(
            reduced.selection_set,
            unconditional(variable),
            |s: SelectionView| is_not_deferred_if(s, variable),
            reduced.selection_set.selections.len(),
        );
    }
}

// One fragment.

/// Whether two directives say the same, but for the label and the condition of a `@defer`.
pub open spec fn says_the_same_otherwise(a: DirectiveView, b: DirectiveView) -> bool {
    forall|name: Text, value: ValueView|
        name != "label"@ && name != "if"@ ==> #[trigger] says(a.arguments, name, value) == says(
            b.arguments,
            name,
            value,
        )
}

/// Whether a `@defer` is another one in order: with its label, or a made-up one if it has none, and
/// with its condition, unless that is always true.
pub open spec fn is_in_order_of(new: DirectiveView, given: DirectiveView, made_up: Text) -> bool {
    &&& new.name == "defer"@
    &&& forall|label: Text| #[trigger]
        says(given.arguments, "label"@, ValueView::String(label)) ==> says(
            new.arguments,
            "label"@,
            ValueView::String(label),
        )
    &&& (forall|label: Text| !#[trigger]
        says(given.arguments, "label"@, ValueView::String(label))) ==> says(
        new.arguments,
        "label"@,
        ValueView::String(made_up),
    )
    &&& forall|variable: Text| #[trigger]
        says(new.arguments, "if"@, ValueView::Variable(variable)) == says(
            given.arguments,
            "if"@,
            ValueView::Variable(variable),
        )
    &&& (forall|variable: Text| !#[trigger]
        says(given.arguments, "if"@, ValueView::Variable(variable))) ==> says_nothing(
        new.arguments,
        "if"@,
    )
    &&& says_the_same_otherwise(new, given)
}

proof fn lemma_one_more_argument(arguments: Seq<ArgumentView>, last: ArgumentView, name: Text)
    ensures
        argument_value(arguments.push(last), name) == (match argument_value(arguments, name) {
            Some(value) => Some(value),
            None => if last.name == name {
                Some(last.value)
            } else {
                None
            },
        }),
    decreases arguments.len(),
{
    reveal_with_fuel(argument_value, 2);
    if arguments.len() > 0 {
        assert(arguments.push(last).drop_first() =~= arguments.drop_first().push(last));
        lemma_one_more_argument(arguments.drop_first(), last, name);
    } else {
        assert(arguments.push(last).drop_first() =~= arguments);
    }
}

proof fn lemma_others_stay(arguments: Seq<ArgumentView>, n: nat, name: Text)
    requires
        n <= arguments.len(),
        name != "label"@,
        name != "if"@,
    ensures
        argument_value(other_arguments(arguments, n), name) == argument_value(
            arguments.take(n as int),
            name,
        ),
    decreases n,
{
    if n > 0 {
        lemma_others_stay(arguments, (n - 1) as nat, name);
        let before = other_arguments(arguments, (n - 1) as nat);
        assert(arguments.take(n as int) =~= arguments.take(n - 1).push(arguments[n - 1]));
        lemma_one_more_argument(before, arguments[n - 1], name);
        lemma_one_more_argument(arguments.take(n - 1), arguments[n - 1], name);
    } else {
        assert(arguments.take(0) =~= Seq::empty());
    }
}

proof fn lemma_rewritten_otherwise(directive: DirectiveView, new: DeferView)
    requires
        directive.name == "defer"@,
    ensures
        says_the_same_otherwise(rewritten(directive, new), directive),
{
    let after = rewritten(directive, new);
    let others = other_arguments(directive.arguments, directive.arguments.len());
    let label = ArgumentView { name: "label"@, value: ValueView::String(new.label->0) };
    assert forall|name: Text, value: ValueView|
        name != "label"@ && name != "if"@ implies #[trigger] says(after.arguments, name, value)
        == says(directive.arguments, name, value) by {
        lemma_says(after.arguments, name);
        lemma_says(directive.arguments, name);
        lemma_others_stay(directive.arguments, directive.arguments.len(), name);
        assert(directive.arguments.take(directive.arguments.len() as int)
            =~= directive.arguments);
        lemma_one_more_argument(others, label, name);
        match new.if_ {
            None => {},
            Some(BooleanOrVariableView::Variable(variable)) => {
                let condition = ArgumentView { name: "if"@, value: ValueView::Variable(variable) };
                lemma_one_more_argument(others.push(label), condition, name);
            },
            Some(BooleanOrVariableView::Boolean(b)) => {
                let condition = ArgumentView { name: "if"@, value: ValueView::Boolean(b) };
                lemma_one_more_argument(others.push(label), condition, name);
            },
        }
    }
}

proof fn lemma_in_order(directive: DirectiveView, given: DeferView, made_up: Text)
    requires
        directive.name == "defer"@,
        defer_arguments(directive) == Ok::<DeferView, ErrorView>(given),
        normalized_arguments(given, made_up) is Some,
    ensures
        ({
            let new = normalized_arguments(given, made_up)->0;
            is_in_order_of(
                if new == given {
                    directive
                } else {
                    rewritten(directive, new)
                },
                directive,
                made_up,
            )
        }),
{
    let new = normalized_arguments(given, made_up)->0;
    let after = if new == given {
        directive
    } else {
        rewritten(directive, new)
    };
    if new != given {
        lemma_arguments_read_back(directive, new);
        lemma_rewritten_otherwise(directive, new);
    }
    assert(defer_arguments(after) == Ok::<DeferView, ErrorView>(new));
    lemma_says(after.arguments, "label"@);
    lemma_says(after.arguments, "if"@);
    lemma_says(directive.arguments, "label"@);
    lemma_says(directive.arguments, "if"@);
    if given.label is Some {
        assert(says(directive.arguments, "label"@, ValueView::String(given.label->0)));
    }
    match argument_value(directive.arguments, "if"@) {
        Some(ValueView::Variable(variable)) => {
            assert(says(directive.arguments, "if"@, ValueView::Variable(variable)));
        },
        _ => {},
    }
}

/// A fragment keeps what it is when its `@defer` is normalized. One that is never deferred loses
/// its `@defer` and no other directive. Any other keeps it in its place, in order: with its label
/// or a made-up one, and with its condition unless that is always true.
pub proof fn law_normalized_fragments_stay_what_they_are(
    fragment: InlineFragmentView,
    set: SelectionSetView,
    state: DeferNormalizerView,
)
    requires
        defers_once(SelectionView::InlineFragment { fragment, set }),
    ensures
        normalized_defer(fragment, state) matches Ok((new, after)) ==> {
            &&& new == (InlineFragmentView { directives: new.directives, ..fragment })
            &&& !has_directive(fragment.directives, "defer"@) ==> new == fragment && after == state
            &&& forall|i: int|
                0 <= i < fragment.directives.len() && (#[trigger] fragment.directives[i]).name
                    == "defer"@ ==> if says(
                    fragment.directives[i].arguments,
                    "if"@,
                    ValueView::Boolean(false),
                ) {
                    new.directives == fragment.directives.remove(i)
                } else {
                    &&& new.directives.len() == fragment.directives.len()
                    &&& new.directives == fragment.directives.update(i, new.directives[i])
                    &&& is_in_order_of(
                        new.directives[i],
                        fragment.directives[i],
                        next_label(state),
                    )
                }
        },
{
    match normalized_defer(fragment, state) {
        Err(_) => {},
        Ok((new, after)) => {
            lemma_first_of_name(fragment.directives, "defer"@);
            assert forall|i: int|
                0 <= i < fragment.directives.len() && (#[trigger] fragment.directives[i]).name
                    == "defer"@ implies if says(
                fragment.directives[i].arguments,
                "if"@,
                ValueView::Boolean(false),
            ) {
                new.directives == fragment.directives.remove(i)
            } else {
                &&& new.directives.len() == fragment.directives.len()
                &&& new.directives == fragment.directives.update(i, new.directives[i])
                &&& is_in_order_of(new.directives[i], fragment.directives[i], next_label(state))
            } by {
                let all = fragment.directives;
                let directive = all[i];
                lemma_only_defer(fragment, set, i);
                let given = defer_arguments(directive)->Ok_0;
                lemma_says(directive.arguments, "if"@);
                match normalized_arguments(given, next_label(state)) {
                    None => {
                        lemma_filtered(all, i);
                    },
                    Some(found) => {
                        lemma_in_order(directive, given, next_label(state));
                        assert(new.directives =~= all.update(i, new.directives[i]));
                    },
                }
            }
        },
    }
}

proof fn lemma_filtered(directives: Seq<DirectiveView>, i: int)
    requires
        0 <= i < directives.len(),
        forall|j: int|
            0 <= j < directives.len() ==> ((#[trigger] directives[j]).name == "defer"@) == (j == i),
    ensures
        directives.filter(|d: DirectiveView| d.name != "defer"@) == directives.remove(i),
    decreases directives.len(),
{
    let others = |d: DirectiveView| d.name != "defer"@;
    let last = directives.len() - 1;
    let before = directives.drop_last();
    reveal(Seq::filter);
    if i == last {
        lemma_all_others(before);
        assert(directives.remove(i) =~= before);
    } else {
        assert forall|j: int| 0 <= j < before.len() implies ((#[trigger] before[j]).name
            == "defer"@) == (j == i) by {
            assert(before[j] == directives[j]);
        }
        lemma_filtered(before, i);
        assert(directives.remove(i) =~= before.remove(i).push(directives[last]));
    }
}

proof fn lemma_all_others(directives: Seq<DirectiveView>)
    requires
        forall|j: int| 0 <= j < directives.len() ==> (#[trigger] directives[j]).name != "defer"@,
    ensures
        directives.filter(|d: DirectiveView| d.name != "defer"@) == directives,
    decreases directives.len(),
{
    reveal(Seq::filter);
    if directives.len() > 0 {
        let before = directives.drop_last();
        assert forall|j: int| 0 <= j < before.len() implies (#[trigger] before[j]).name
            != "defer"@ by {
            assert(before[j] == directives[j]);
        }
        lemma_all_others(before);
        assert(directives =~= before.push(directives.last()));
    }
}

/// Whether a directive is `@defer` with one of the labels.
pub open spec fn defers_under(directive: DirectiveView, labels: Seq<Text>) -> bool {
    directive.name == "defer"@ && exists|label: Text|
        labels.contains(label) && #[trigger] says(
            directive.arguments,
            "label"@,
            ValueView::String(label),
        )
}

proof fn lemma_staying_filtered(directives: Seq<DirectiveView>, labels: Seq<Text>, n: nat)
    requires
        n <= directives.len(),
    ensures
        staying(directives, labels, n) == directives.take(n as int).filter(
            |d: DirectiveView| !defers_under(d, labels),
        ),
    decreases n,
{
    reveal(Seq::filter);
    let all = directives.take(n as int);
    if n > 0 {
        let last = directives[n - 1];
        lemma_staying_filtered(directives, labels, (n - 1) as nat);
        assert(all.drop_last() =~= directives.take(n - 1));
        lemma_says(last.arguments, "label"@);
        match argument_value(last.arguments, "label"@) {
            Some(ValueView::String(label)) => {
                assert(says(last.arguments, "label"@, ValueView::String(label)));
            },
            _ => {},
        }
    }
}

/// Taking out the `@defer` of some labels takes those directives from a fragment, and leaves it as
/// it is otherwise.
pub proof fn law_only_the_labels_are_taken_out(
    fragment: InlineFragmentView,
    set: SelectionSetView,
    labels: Seq<Text>,
)
    ensures
        reduced_selection(
            SelectionView::InlineFragment { fragment, set },
            labels,
        ) matches Ok(new) ==> (new matches SelectionView::InlineFragment {
            fragment: after,
            set: below,
        } && after == (InlineFragmentView {
            directives: fragment.directives.filter(
                |d: DirectiveView| !defers_under(d, labels),
            ),
            ..fragment
        }) && reduced_set(set, labels) == Ok::<SelectionSetView, ErrorView>(below)),
{
    let all = fragment.directives;
    lemma_staying_filtered(all, labels, all.len());
    assert(all.take(all.len() as int) =~= all);
}

// Labels in use.

/// Whether the label of a `@defer` of a selection, if it has one, is among some labels.
pub open spec fn has_known_label(selection: SelectionView, labels: Seq<Text>) -> bool {
    match selection {
        SelectionView::Field { field, sub } => true,
        SelectionView::InlineFragment { fragment, set } => forall|i: int, label: Text|
            0 <= i < fragment.directives.len() && fragment.directives[i].name == "defer"@
                && #[trigger] says(
                fragment.directives[i].arguments,
                "label"@,
                ValueView::String(label),
            ) ==> labels.contains(label),
    }
}

spec fn known(labels: Seq<Text>) -> spec_fn(SelectionView) -> bool {
    |s: SelectionView| has_known_label(s, labels)
}

/// Whether all labels are among others.
spec fn are_still_used(before: Seq<Text>, after: Seq<Text>) -> bool {
    forall|label: Text| #[trigger] before.contains(label) ==> after.contains(label)
}

proof fn lemma_known_longer(
    selections: Seq<SelectionView>,
    before: Seq<Text>,
    after: Seq<Text>,
    i: int,
)
    requires
        0 <= i < selections.len(),
        every_in_selection(selections[i], known(before)),
        are_still_used(before, after),
    ensures
        every_in_selection(selections[i], known(after)),
{
    assert forall|s: SelectionView| #[trigger] known(before)(s) implies known(after)(s) by {
        match s {
            SelectionView::Field { field, sub } => {},
            SelectionView::InlineFragment { fragment, set } => {
                assert forall|i: int, label: Text|
                    0 <= i < fragment.directives.len() && fragment.directives[i].name == "defer"@
                        && #[trigger] says(
                        fragment.directives[i].arguments,
                        "label"@,
                        ValueView::String(label),
                    ) implies after.contains(label) by {
                    assert(before.contains(label));
                }
            },
        }
    }
    lemma_weaken(selections[i], known(before), known(after));
}

proof fn lemma_labels_of_set(set: SelectionSetView, used: Seq<Text>, n: nat)
    requires
        n <= set.selections.len(),
        forall|i: int|
            0 <= i < n ==> every_in_selection(
                #[trigger] set.selections[i],
                |s: SelectionView| defers_once(s),
            ),
    ensures
        labels_of_set(set, used, n) matches Ok(after) ==> {
            &&& are_still_used(used, after)
            &&& forall|i: int|
                0 <= i < n ==> every_in_selection(#[trigger] set.selections[i], known(after))
        },
    decreases set, n,
{
    if n > 0 {
        lemma_labels_of_selection(set.selections[n - 1], used);
        if let Ok(next) = labels_of_selection(set.selections[n - 1], used) {
            lemma_labels_of_set(set, next, (n - 1) as nat);
            if let Ok(after) = labels_of_set(set, next, (n - 1) as nat) {
                lemma_known_longer(set.selections, next, after, n - 1);
            }
        }
    }
}

proof fn lemma_labels_of_selection(selection: SelectionView, used: Seq<Text>)
    requires
        every_in_selection(selection, |s: SelectionView| defers_once(s)),
    ensures
        labels_of_selection(selection, used) matches Ok(after) ==> are_still_used(used, after)
            && every_in_selection(selection, known(after)),
    decreases selection, 0nat,
{
    let once = |s: SelectionView| defers_once(s);
    assert(once(selection));
    match selection {
        SelectionView::Field { field, sub } => match sub {
            Some(set) => {
                lemma_each(set, once, set.selections.len());
                lemma_labels_of_set(set, used, set.selections.len());
                if let Ok(after) = labels_of_set(set, used, set.selections.len()) {
                    lemma_every(set, known(after), set.selections.len());
                }
            },
            None => {},
        },
        SelectionView::InlineFragment { fragment, set } => {
            lemma_each(set, once, set.selections.len());
            if let Ok(arguments) = fragment_defer(fragment) {
                let own = match arguments {
                    Some(DeferView { label: Some(label), if_ }) => set_with(used, label),
                    _ => used,
                };
                lemma_labels_of_set(set, own, set.selections.len());
                if let Ok(after) = labels_of_set(set, own, set.selections.len()) {
                    lemma_every(set, known(after), set.selections.len());
                    assert(are_still_used(used, own)) by {
                        assert forall|label: Text| #[trigger]
                            used.contains(label) implies own.contains(label) by {
                            let k = choose|k: int| 0 <= k < used.len() && used[k] == label;
                            assert(own[k] == label);
                        }
                    }
                    assert(are_still_used(used, after)) by {
                        assert forall|label: Text| #[trigger]
                            used.contains(label) implies after.contains(label) by {
                            assert(own.contains(label));
                        }
                    }
                    assert forall|i: int, label: Text|
                        0 <= i < fragment.directives.len() && fragment.directives[i].name
                            == "defer"@ && #[trigger] says(
                            fragment.directives[i].arguments,
                            "label"@,
                            ValueView::String(label),
                        ) implies after.contains(label) by {
                        lemma_only_defer(fragment, set, i);
                        lemma_says(fragment.directives[i].arguments, "label"@);
                        assert(own == set_with(used, label));
                        if !used.contains(label) {
                            assert(own[used.len() as int] == label);
                        }
                        assert(own.contains(label));
                    }
                    assert(known(after)(selection));
                }
            }
        },
    }
}

/// Every label of a `@defer` in a set is known to be in use, so that no made-up label is one of
/// them.
pub proof fn law_labels_in_use_are_known(set: SelectionSetView)
    requires
        every_in_set(set, |s: SelectionView| defers_once(s), set.selections.len()),
    ensures
        labels_of_set(set, Seq::empty(), set.selections.len()) matches Ok(used) ==> every_in_set(
            set,
            |s: SelectionView| has_known_label(s, used),
            set.selections.len(),
        ),
{
    lemma_each(set, |s: SelectionView| defers_once(s), set.selections.len());
    lemma_labels_of_set(set, Seq::empty(), set.selections.len());
    if let Ok(used) = labels_of_set(set, Seq::empty(), set.selections.len()) {
        lemma_every(set, known(used), set.selections.len());
        lemma_weaken_set(
            set,
            known(used),
            |s: SelectionView| has_known_label(s, used),
            set.selections.len(),
        );
    }
}

} // verus!
