//! What the conditions of selections mean, whatever the values of the variables.

use crate::ast::DirectiveView;
use crate::ast::ValueView;
use crate::collections::has_key;
use crate::collections::keys_distinct;
use crate::collections::key_index;
use crate::collections::lemma_key_index;
use crate::collections::put;
use crate::collections::value_of;
use crate::collections::Entries;
use crate::merge::directives::argument_value;
use crate::operation::conditions::conditions_agree;
use crate::operation::conditions::directive_conditions;
use crate::operation::conditions::directive_variables;
use crate::operation::conditions::merged_conditions;
use crate::operation::conditions::merged_variables;
use crate::operation::conditions::same_conditions_spec;
use crate::operation::conditions::selection_conditions;
use crate::operation::conditions::set_conditions;
use crate::operation::conditions::with_variable;
use crate::operation::conditions::ConditionsView;
use crate::operation::defer_laws::lemma_says;
use crate::operation::defer_laws::says;
use crate::operation::selection::SelectionSetView;
use crate::operation::selection::SelectionView;
use crate::text::Text;
use vstd::prelude::*;

verus! {

/// Whether a directive says `if` with a value that is the given one, once the variables have
/// theirs.
pub open spec fn says_if(
    directive: DirectiveView,
    values: spec_fn(Text) -> bool,
    value: bool,
) -> bool {
    ||| says(directive.arguments, "if"@, ValueView::Boolean(value))
    ||| exists|variable: Text|
        says(directive.arguments, "if"@, ValueView::Variable(variable)) && #[trigger] values(
            variable,
        ) == value
}

/// Whether a directive lets something be taken: `@include` does not if its condition is false, nor
/// `@skip` if its condition is true.
pub open spec fn lets_be(directive: DirectiveView, values: spec_fn(Text) -> bool) -> bool {
    &&& directive.name == "include"@ ==> !says_if(directive, values, false)
    &&& directive.name == "skip"@ ==> !says_if(directive, values, true)
}

/// Whether all of some directives let something be taken.
pub open spec fn all_let_be(
    directives: Seq<DirectiveView>,
    values: spec_fn(Text) -> bool,
) -> bool {
    forall|i: int| 0 <= i < directives.len() ==> lets_be(#[trigger] directives[i], values)
}

/// Whether the variables have the values that they have to have: one with `true` has to be false.
pub open spec fn variables_hold(variables: Entries<bool>, values: spec_fn(Text) -> bool) -> bool {
    forall|i: int|
        0 <= i < variables.len() ==> values((#[trigger] variables[i]).0) != variables[i].1
}

/// Whether conditions hold.
pub open spec fn conditions_hold(
    conditions: ConditionsView,
    values: spec_fn(Text) -> bool,
) -> bool {
    match conditions {
        ConditionsView::Boolean(b) => b,
        ConditionsView::Variables(variables) => variables_hold(variables, values),
    }
}

proof fn lemma_with_variable(
    variables: Entries<bool>,
    name: Text,
    negated: bool,
    values: spec_fn(Text) -> bool,
)
    ensures
        (with_variable(variables, name, negated) matches Some(after) && variables_hold(
            after,
            values,
        )) == (variables_hold(variables, values) && values(name) != negated),
        keys_distinct(variables) ==> (with_variable(variables, name, negated) matches Some(after)
            ==> keys_distinct(after)),
{
    if has_key(variables, name) {
        lemma_key_index(variables, name);
        let i = key_index(variables, name);
        assert(variables[i].0 == name);
    } else {
        let after = put(variables, name, negated);
        if variables_hold(after, values) {
            assert forall|i: int| 0 <= i < variables.len() implies values(
                (#[trigger] variables[i]).0,
            ) != variables[i].1 by {
                assert(after[i] == variables[i]);
            }
            assert(after[variables.len() as int] == (name, negated));
        }
    }
}

proof fn lemma_directive_variables(
    directives: Seq<DirectiveView>,
    n: nat,
    values: spec_fn(Text) -> bool,
)
    requires
        n <= directives.len(),
    ensures
        directive_variables(directives, n) matches Ok(found) ==> {
            &&& (found matches Some(variables) && variables_hold(variables, values)) == all_let_be(
                directives.take(n as int),
                values,
            )
            &&& found matches Some(variables) ==> keys_distinct(variables)
        },
    decreases n,
{
    if n > 0 {
        lemma_directive_variables(directives, (n - 1) as nat, values);
        let last = directives[n - 1];
        let all = directives.take(n as int);
        let some = directives.take(n - 1);
        lemma_says(last.arguments, "if"@);
        assert("include"@ != "skip"@) by {
            reveal_strlit("include");
            reveal_strlit("skip");
            assert("include"@.len() == 7 && "skip"@.len() == 4);
        }
        assert(all_let_be(all, values) == (all_let_be(some, values) && lets_be(last, values))) by {
            if all_let_be(all, values) {
                assert forall|i: int| 0 <= i < some.len() implies lets_be(
                    #[trigger] some[i],
                    values,
                ) by {
                    assert(lets_be(all[i], values));
                }
                assert(lets_be(all[n - 1], values));
            }
            if all_let_be(some, values) && lets_be(last, values) {
                assert forall|i: int| 0 <= i < all.len() implies lets_be(#[trigger] all[i], values) by {
                    if i < n - 1 {
                        assert(lets_be(some[i], values));
                    }
                }
            }
        }
        match directive_variables(directives, (n - 1) as nat) {
            Ok(Some(before)) => {
                match argument_value(last.arguments, "if"@) {
                    Some(ValueView::Variable(name)) => {
                        lemma_with_variable(before, name, true, values);
                        lemma_with_variable(before, name, false, values);
                        assert(says(last.arguments, "if"@, ValueView::Variable(name)));
                        assert(says_if(last, values, true) == (values(name) == true));
                        assert(says_if(last, values, false) == (values(name) == false));
                    },
                    Some(ValueView::Boolean(b)) => {
                        assert(says(last.arguments, "if"@, ValueView::Boolean(b)));
                        assert(says_if(last, values, b));
                        assert(!says_if(last, values, !b));
                    },
                    _ => {},
                }
            },
            _ => {},
        }
    }
}

/// The conditions of directives hold exactly if every `@include` and `@skip` among them lets
/// something be taken.
pub proof fn law_conditions_are_those_of_the_directives(
    directives: Seq<DirectiveView>,
    values: spec_fn(Text) -> bool,
)
    ensures
        directive_conditions(directives) matches Ok(conditions) ==> conditions_hold(
            conditions,
            values,
        ) == all_let_be(directives, values),
{
    lemma_directive_variables(directives, directives.len(), values);
    assert(directives.take(directives.len() as int) =~= directives);
}

/// Whether no variable stands twice in conditions.
pub open spec fn variables_are_distinct(conditions: ConditionsView) -> bool {
    conditions matches ConditionsView::Variables(variables) ==> keys_distinct(variables)
}

proof fn lemma_merged_variables(
    a: Entries<bool>,
    b: Entries<bool>,
    n: nat,
    values: spec_fn(Text) -> bool,
)
    requires
        n <= b.len(),
    ensures
        (merged_variables(a, b, n) matches Some(both) && variables_hold(both, values)) == (
        variables_hold(a, values) && variables_hold(b.take(n as int), values)),
        keys_distinct(a) ==> (merged_variables(a, b, n) matches Some(both) ==> keys_distinct(both)),
    decreases n,
{
    if n > 0 {
        lemma_merged_variables(a, b, (n - 1) as nat, values);
        let all = b.take(n as int);
        let some = b.take(n - 1);
        let (name, negated) = b[n - 1];
        assert(variables_hold(all, values) == (variables_hold(some, values) && values(name)
            != negated)) by {
            if variables_hold(all, values) {
                assert forall|i: int| 0 <= i < some.len() implies values((#[trigger] some[i]).0)
                    != some[i].1 by {
                    assert(all[i] == some[i]);
                }
                assert(all[n - 1] == (name, negated));
            }
            if variables_hold(some, values) && values(name) != negated {
                assert forall|i: int| 0 <= i < all.len() implies values((#[trigger] all[i]).0)
                    != all[i].1 by {
                    if i < n - 1 {
                        assert(all[i] == some[i]);
                    }
                }
            }
        }
        match merged_variables(a, b, (n - 1) as nat) {
            None => {},
            Some(before) => {
                lemma_with_variable(before, name, negated, values);
            },
        }
    }
}

/// Merged conditions hold exactly if both hold.
pub proof fn law_merged_conditions_hold_together(
    a: ConditionsView,
    b: ConditionsView,
    values: spec_fn(Text) -> bool,
)
    ensures
        conditions_hold(merged_conditions(a, b), values) == (conditions_hold(a, values)
            && conditions_hold(b, values)),
        variables_are_distinct(a) && variables_are_distinct(b) ==> variables_are_distinct(
            merged_conditions(a, b),
        ),
{
    match (a, b) {
        (ConditionsView::Variables(x), ConditionsView::Variables(y)) => {
            lemma_merged_variables(x, y, y.len(), values);
            assert(y.take(y.len() as int) =~= y);
        },
        _ => {},
    }
}

proof fn lemma_same_variables(x: Entries<bool>, y: Entries<bool>, values: spec_fn(Text) -> bool)
    requires
        same_conditions_spec(ConditionsView::Variables(x), ConditionsView::Variables(y)),
        keys_distinct(x),
        keys_distinct(y),
        variables_hold(x, values),
    ensures
        variables_hold(y, values),
{
    let xs = x.map_values(|e: (Text, bool)| e.0);
    let ys = y.map_values(|e: (Text, bool)| e.0);
    assert(xs.no_duplicates()) by {
        assert forall|i: int, j: int| 0 <= i < xs.len() && 0 <= j < xs.len() && i != j implies xs[i]
            != xs[j] by {
            if i < j {
                assert(x[i].0 != x[j].0);
            } else {
                assert(x[j].0 != x[i].0);
            }
        }
    }
    assert(ys.no_duplicates()) by {
        assert forall|i: int, j: int| 0 <= i < ys.len() && 0 <= j < ys.len() && i != j implies ys[i]
            != ys[j] by {
            if i < j {
                assert(y[i].0 != y[j].0);
            } else {
                assert(y[j].0 != y[i].0);
            }
        }
    }
    xs.unique_seq_to_set();
    ys.unique_seq_to_set();
    vstd::seq_lib::seq_to_set_is_finite(xs);
    vstd::seq_lib::seq_to_set_is_finite(ys);
    assert forall|name: Text| xs.to_set().contains(name) implies ys.to_set().contains(name) by {
        assert(xs.contains(name));
        let i = choose|i: int| 0 <= i < xs.len() && xs[i] == name;
        assert(value_of(y, x[i].0) == Some(x[i].1));
        lemma_key_index(y, name);
        assert(ys[key_index(y, name)] == name);
    }
    vstd::set_lib::lemma_subset_equality(xs.to_set(), ys.to_set());
    assert forall|j: int| 0 <= j < y.len() implies values((#[trigger] y[j]).0) != y[j].1 by {
        assert(ys[j] == y[j].0);
        assert(ys.to_set().contains(ys[j]));
        assert(xs.contains(ys[j]));
        let i = choose|i: int| 0 <= i < xs.len() && xs[i] == ys[j];
        assert(value_of(y, x[i].0) == Some(x[i].1));
        lemma_key_index(y, y[j].0);
        let k = key_index(y, y[j].0);
        if k != j {
            if k < j {
                assert(y[k].0 != y[j].0);
            } else {
                assert(y[j].0 != y[k].0);
            }
        }
        assert(x[i].1 == y[j].1);
    }
}

// Selections.

/// Whether a field is taken, or a fragment and something in it.
pub open spec fn is_taken(selection: SelectionView, values: spec_fn(Text) -> bool) -> bool
    decreases selection,
{
    match selection {
        SelectionView::Field { field, sub } => all_let_be(field.directives, values),
        SelectionView::InlineFragment { fragment, set } => all_let_be(fragment.directives, values)
            && exists|i: int|
            0 <= i < set.selections.len() && is_taken(#[trigger] set.selections[i], values),
    }
}

proof fn lemma_selection_taken(selection: SelectionView, values: spec_fn(Text) -> bool)
    ensures
        selection_conditions(selection) matches Ok(conditions) ==> {
            &&& is_taken(selection, values) ==> conditions_hold(conditions, values)
            &&& selection is Field ==> is_taken(selection, values) == conditions_hold(
                conditions,
                values,
            )
            &&& variables_are_distinct(conditions)
        },
    decreases selection, 1nat,
{
    match selection {
        SelectionView::Field { field, sub } => {
            law_conditions_are_those_of_the_directives(field.directives, values);
            lemma_directive_variables(field.directives, field.directives.len(), values);
        },
        SelectionView::InlineFragment { fragment, set } => {
            law_conditions_are_those_of_the_directives(fragment.directives, values);
            lemma_directive_variables(fragment.directives, fragment.directives.len(), values);
            lemma_set_taken(set, values);
            match (directive_conditions(fragment.directives), set_conditions(set)) {
                (Ok(own), Ok(below)) => law_merged_conditions_hold_together(own, below, values),
                _ => {},
            }
            if is_taken(selection, values) {
                let i = choose|i: int|
                    0 <= i < set.selections.len() && is_taken(#[trigger] set.selections[i], values);
                assert(is_taken(set.selections[i], values));
            }
        },
    }
}

proof fn lemma_set_taken(set: SelectionSetView, values: spec_fn(Text) -> bool)
    ensures
        set_conditions(set) matches Ok(conditions) ==> {
            &&& variables_are_distinct(conditions)
            &&& (exists|i: int|
                0 <= i < set.selections.len() && is_taken(#[trigger] set.selections[i], values))
                ==> conditions_hold(conditions, values)
        },
    decreases set, 2nat,
{
    if set.selections.len() > 0 {
        lemma_selection_taken(set.selections[0], values);
        match selection_conditions(set.selections[0]) {
            Err(_) => {},
            Ok(first) => {
                lemma_taken_agree(set, first, set.selections.len(), values);
            },
        }
    }
}

proof fn lemma_taken_agree(
    set: SelectionSetView,
    first: ConditionsView,
    n: nat,
    values: spec_fn(Text) -> bool,
)
    requires
        n <= set.selections.len(),
        set.selections.len() > 0,
        selection_conditions(set.selections[0]) matches Ok(c) && c == first,
        variables_are_distinct(first),
        is_taken(set.selections[0], values) ==> conditions_hold(first, values),
    ensures
        conditions_agree(set, first, n) matches Ok(true) ==> forall|i: int|
            0 <= i < n && is_taken(#[trigger] set.selections[i], values) ==> conditions_hold(
                first,
                values,
            ),
    decreases set, 1nat, n,
{
    if n > 1 {
        lemma_taken_agree(set, first, (n - 1) as nat, values);
        lemma_selection_taken(set.selections[n - 1], values);
        match selection_conditions(set.selections[n - 1]) {
            Err(_) => {},
            Ok(own) => {
                if same_conditions_spec(own, first) && conditions_hold(own, values) {
                    match (own, first) {
                        (ConditionsView::Variables(x), ConditionsView::Variables(y)) => {
                            lemma_same_variables(x, y, values);
                        },
                        _ => {},
                    }
                }
            },
        }
    }
}

/// Where the conditions of a set do not hold, nothing of it is taken: what is fetched under them
/// is not missed otherwise.
pub proof fn law_nothing_is_taken_without_the_conditions(
    set: SelectionSetView,
    values: spec_fn(Text) -> bool,
    i: int,
)
    requires
        0 <= i < set.selections.len(),
    ensures
        set_conditions(set) matches Ok(conditions) ==> (is_taken(set.selections[i], values)
            ==> conditions_hold(conditions, values)),
{
    lemma_set_taken(set, values);
    if is_taken(set.selections[i], values) {
        assert(is_taken(set.selections[i], values));
    }
}

/// A field is taken exactly if its conditions hold.
pub proof fn law_fields_are_taken_under_their_conditions(
    selection: SelectionView,
    values: spec_fn(Text) -> bool,
)
    requires
        selection is Field,
    ensures
        selection_conditions(selection) matches Ok(conditions) ==> is_taken(selection, values)
            == conditions_hold(conditions, values),
{
    lemma_selection_taken(selection, values);
}

} // verus!
