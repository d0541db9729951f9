//! The conditions under which selections are taken.

use crate::ast::Directive;
use crate::ast::DirectiveView;
use crate::ast::Value;
use crate::ast::ValueView;
use crate::collections::clone_keeps_view;
use crate::collections::put;
use crate::collections::value_of;
use crate::collections::Entries;
use crate::collections::NameMap;
use crate::error::internal_error;
use crate::error::result_view;
use crate::error::ErrorView;
use crate::error::FederationError;
use crate::merge::directives::argument_value;
use crate::merge::directives::directive_arg_value;
use crate::operation::selection::lemma_set_view;
use crate::operation::selection::selections_view;
use crate::operation::selection::Selection;
use crate::operation::selection::SelectionSet;
use crate::operation::selection::SelectionSetView;
use crate::operation::selection::SelectionView;
use crate::text::same;
use crate::text::Text;
use vstd::prelude::*;

verus! {

/// When something is taken: always, never, or depending on variables. A variable with `true` has
/// to be false.
pub enum Conditions {
    Variables(NameMap<bool>),
    Boolean(bool),
}

/// The mathematical content of [`Conditions`].
#[verifier::ext_equal]
pub enum ConditionsView {
    Variables(Entries<bool>),
    Boolean(bool),
}

impl DeepView for Conditions {
    type V = ConditionsView;

    open spec fn deep_view(&self) -> ConditionsView {
        match self {
            Conditions::Variables(variables) => ConditionsView::Variables(variables.deep_view()),
            Conditions::Boolean(b) => ConditionsView::Boolean(*b),
        }
    }
}

impl Clone for Conditions {
    fn clone(&self) -> (r: Self)
        ensures
            r.deep_view() == self.deep_view(),
    {
        match self {
            Conditions::Variables(variables) => {
                let copy = variables.clone();
                assert(clone_keeps_view::<bool>());
                Conditions::Variables(copy)
            },
            Conditions::Boolean(b) => Conditions::Boolean(*b),
        }
    }
}

/// Conditions on variables; without any there is no condition.
pub open spec fn from_variables(variables: Entries<bool>) -> ConditionsView {
    if variables.len() == 0 {
        ConditionsView::Boolean(true)
    } else {
        ConditionsView::Variables(variables)
    }
}

/// Variables with one more; none where it would have to be true and false.
pub open spec fn with_variable(variables: Entries<bool>, name: Text, negated: bool) -> Option<
    Entries<bool>,
> {
    match value_of(variables, name) {
        Some(before) => if before == negated {
            Some(variables)
        } else {
            None
        },
        None => Some(put(variables, name, negated)),
    }
}

/// Whether a directive is a condition, and whether it is negated.
pub open spec fn condition_kind(name: Text) -> Option<bool> {
    if name == "include"@ {
        Some(false)
    } else if name == "skip"@ {
        Some(true)
    } else {
        None
    }
}

/// The variables of the first `n` directives; none where something is never taken.
pub open spec fn directive_variables(directives: Seq<DirectiveView>, n: nat) -> Result<
    Option<Entries<bool>>,
    ErrorView,
>
    decreases n,
{
    if n == 0 {
        Ok(Some(Seq::empty()))
    } else {
        match directive_variables(directives, (n - 1) as nat) {
            Err(error) => Err(error),
            Ok(None) => Ok(None),
            Ok(Some(before)) => match condition_kind(directives[n - 1].name) {
                None => Ok(Some(before)),
                Some(negated) => match argument_value(directives[n - 1].arguments, "if"@) {
                    None => Err(internal_error("missing if argument on condition"@)),
                    Some(ValueView::Boolean(b)) => if b == negated {
                        Ok(None)
                    } else {
                        Ok(Some(before))
                    },
                    Some(ValueView::Variable(name)) => Ok(with_variable(before, name, negated)),
                    Some(_) => Err(internal_error("expected boolean or variable `if` argument"@)),
                },
            },
        }
    }
}

/// The conditions that directives are.
pub open spec fn directive_conditions(directives: Seq<DirectiveView>) -> Result<
    ConditionsView,
    ErrorView,
> {
    match directive_variables(directives, directives.len()) {
        Err(error) => Err(error),
        Ok(None) => Ok(ConditionsView::Boolean(false)),
        Ok(Some(variables)) => Ok(from_variables(variables)),
    }
}

/// Variables with the first `n` of some others; none where one would have to be true and false.
pub open spec fn merged_variables(a: Entries<bool>, b: Entries<bool>, n: nat) -> Option<Entries<bool>>
    decreases n,
{
    if n == 0 {
        Some(a)
    } else {
        match merged_variables(a, b, (n - 1) as nat) {
            None => None,
            Some(before) => with_variable(before, b[n - 1].0, b[n - 1].1),
        }
    }
}

/// Both conditions together.
pub open spec fn merged_conditions(a: ConditionsView, b: ConditionsView) -> ConditionsView {
    match (a, b) {
        (ConditionsView::Boolean(x), _) => if x {
            b
        } else {
            ConditionsView::Boolean(false)
        },
        (_, ConditionsView::Boolean(y)) => if y {
            a
        } else {
            ConditionsView::Boolean(false)
        },
        (ConditionsView::Variables(x), ConditionsView::Variables(y)) => match merged_variables(
            x,
            y,
            y.len(),
        ) {
            Some(both) => ConditionsView::Variables(both),
            None => ConditionsView::Boolean(false),
        },
    }
}

/// Whether two conditions are the same, whatever the order of their variables.
pub open spec fn same_conditions_spec(a: ConditionsView, b: ConditionsView) -> bool {
    match (a, b) {
        (ConditionsView::Boolean(x), ConditionsView::Boolean(y)) => x == y,
        (ConditionsView::Variables(x), ConditionsView::Variables(y)) => x.len() == y.len()
            && forall|i: int|
            0 <= i < x.len() ==> value_of(y, (#[trigger] x[i]).0) == Some(x[i].1),
        _ => false,
    }
}

proof fn lemma_variables_stay(directives: Seq<DirectiveView>, n: nat, m: nat)
    requires
        n <= m,
        directive_variables(directives, n) matches Ok(found) ==> found is None,
    ensures
        directive_variables(directives, m) == directive_variables(directives, n),
    decreases m,
{
    if n < m {
        lemma_variables_stay(directives, n, (m - 1) as nat);
    }
}

proof fn lemma_merged_stays(a: Entries<bool>, b: Entries<bool>, n: nat, m: nat)
    requires
        n <= m,
        merged_variables(a, b, n) is None,
    ensures
        merged_variables(a, b, m) is None,
    decreases m,
{
    if n < m {
        lemma_merged_stays(a, b, n, (m - 1) as nat);
    }
}

fn add_variable(variables: &mut NameMap<bool>, name: &String, negated: bool) -> (r: bool)
    ensures
        match with_variable(old(variables).deep_view(), name@, negated) {
            Some(after) => r && final(variables).deep_view() == after,
            None => !r,
        },
{
    match variables.get(name) {
        Some(before) => *before == negated,
        None => {
            variables.insert(name.clone(), negated);
            true
        },
    }
}

impl Conditions {
    /// The conditions that directives are.
    pub fn from_directives(directives: &Vec<Directive>) -> (r: Result<Conditions, FederationError>)
        ensures
            result_view(r) == directive_conditions(directives.deep_view()),
    {
        let ghost all = directives.deep_view();
        let mut variables: NameMap<bool> = NameMap::new();
        let mut i: usize = 0;
        while i < directives.len()
            invariant
                i <= directives@.len(),
                all == directives.deep_view(),
                directive_variables(all, i as nat) == Ok::<Option<Entries<bool>>, ErrorView>(
                    Some(variables.deep_view()),
                ),
            decreases directives@.len() - i,
        {
            let directive = &directives[i];
            assert(all[i as int] == directive.deep_view());
            let included = same(&directive.name, "include");
            let skipped = same(&directive.name, "skip");
            assert(condition_kind(directive.name@) == (if included {
                Some(false)
            } else if skipped {
                Some(true)
            } else {
                None
            }));
            if included || skipped {
                let negated = !included;
                match directive_arg_value(directive, "if") {
                    None => {
                        proof {
                            lemma_variables_stay(all, i as nat + 1, all.len());
                        }
                        return Err(FederationError::internal("missing if argument on condition"));
                    },
                    Some(Value::Boolean(b)) => {
                        if *b == negated {
                            proof {
                                lemma_variables_stay(all, i as nat + 1, all.len());
                            }
                            return Ok(Conditions::Boolean(false));
                        }
                    },
                    Some(Value::Variable(name)) => {
                        if !add_variable(&mut variables, name, negated) {
                            proof {
                                lemma_variables_stay(all, i as nat + 1, all.len());
                            }
                            return Ok(Conditions::Boolean(false));
                        }
                    },
                    Some(_) => {
                        proof {
                            lemma_variables_stay(all, i as nat + 1, all.len());
                        }
                        return Err(
                            FederationError::internal("expected boolean or variable `if` argument"),
                        );
                    },
                }
            }
            i += 1;
        }
        if variables.len() == 0 {
            Ok(Conditions::Boolean(true))
        } else {
            Ok(Conditions::Variables(variables))
        }
    }

    /// Both conditions together.
    pub fn merge(self, other: Conditions) -> (r: Conditions)
        ensures
            r.deep_view() == merged_conditions(self.deep_view(), other.deep_view()),
    {
        match (self, other) {
            (Conditions::Boolean(x), other) => if x {
                other
            } else {
                Conditions::Boolean(false)
            },
            (Conditions::Variables(variables), Conditions::Boolean(y)) => if y {
                Conditions::Variables(variables)
            } else {
                Conditions::Boolean(false)
            },
            (Conditions::Variables(variables), Conditions::Variables(others)) => {
                let ghost a = variables.deep_view();
                let ghost b = others.deep_view();
                let mut both = variables;
                let mut i: usize = 0;
                while i < others.len()
                    invariant
                        i <= b.len(),
                        b == others.deep_view(),
                        self.deep_view() == ConditionsView::Variables(a),
                        other.deep_view() == ConditionsView::Variables(b),
                        merged_variables(a, b, i as nat) == Some(both.deep_view()),
                    decreases b.len() - i,
                {
                    let name = others.key_at(i);
                    let negated = *others.value_at(i);
                    assert(b[i as int] == (name@, negated));
                    if !add_variable(&mut both, name, negated) {
                        proof {
                            lemma_merged_stays(a, b, i as nat + 1, b.len());
                        }
                        return Conditions::Boolean(false);
                    }
                    i += 1;
                }
                Conditions::Variables(both)
            },
        }
    }

    /// Whether two conditions are the same, whatever the order of their variables.
    pub fn same_as(&self, other: &Conditions) -> (r: bool)
        ensures
            r == same_conditions_spec(self.deep_view(), other.deep_view()),
    {
        match (self, other) {
            (Conditions::Boolean(x), Conditions::Boolean(y)) => *x == *y,
            (Conditions::Variables(x), Conditions::Variables(y)) => {
                let ghost a = x.deep_view();
                let ghost b = y.deep_view();
                if x.len() != y.len() {
                    return false;
                }
                let mut i: usize = 0;
                while i < x.len()
                    invariant
                        i <= a.len(),
                        a == x.deep_view(),
                        b == y.deep_view(),
                        a.len() == b.len(),
                        self.deep_view() == ConditionsView::Variables(a),
                        other.deep_view() == ConditionsView::Variables(b),
                        forall|j: int|
                            0 <= j < i ==> value_of(b, (#[trigger] a[j]).0) == Some(a[j].1),
                    decreases a.len() - i,
                {
                    let name = x.key_at(i);
                    let value = *x.value_at(i);
                    assert(a[i as int] == (name@, value));
                    let matches = match y.get(name) {
                        Some(found) => *found == value,
                        None => false,
                    };
                    if !matches {
                        assert(value_of(b, a[i as int].0) != Some(a[i as int].1));
                        return false;
                    }
                    i += 1;
                }
                true
            },
            _ => false,
        }
    }
}

/// The conditions of a selection. What is below a field does not matter to the field.
pub open spec fn selection_conditions(selection: SelectionView) -> Result<ConditionsView, ErrorView>
    decreases selection, 1nat,
{
    match selection {
        SelectionView::Field { field, sub } => directive_conditions(field.directives),
        SelectionView::InlineFragment { fragment, set } => match directive_conditions(
            fragment.directives,
        ) {
            Err(error) => Err(error),
            Ok(own) => if own == ConditionsView::Boolean(false) {
                Ok(own)
            } else {
                match set_conditions(set) {
                    Err(error) => Err(error),
                    Ok(below) => Ok(merged_conditions(own, below)),
                }
            },
        },
    }
}

/// The conditions of a set: those of its selections if they are the same, else none.
pub open spec fn set_conditions(set: SelectionSetView) -> Result<ConditionsView, ErrorView>
    decreases set, 2nat,
{
    if set.selections.len() == 0 {
        Ok(ConditionsView::Boolean(false))
    } else {
        match selection_conditions(set.selections[0]) {
            Err(error) => Err(error),
            Ok(first) => match conditions_agree(set, first, set.selections.len()) {
                Err(error) => Err(error),
                Ok(true) => Ok(first),
                Ok(false) => Ok(ConditionsView::Boolean(true)),
            },
        }
    }
}

/// Whether the first `n` selections of a set have the given conditions. The conditions of all of
/// them have to be valid.
pub open spec fn conditions_agree(set: SelectionSetView, first: ConditionsView, n: nat) -> Result<
    bool,
    ErrorView,
>
    decreases set, 1nat, n,
{
    if n <= 1 || n > set.selections.len() {
        Ok(true)
    } else {
        match conditions_agree(set, first, (n - 1) as nat) {
            Err(error) => Err(error),
            Ok(agree) => match selection_conditions(set.selections[n - 1]) {
                Err(error) => Err(error),
                Ok(own) => Ok(agree && same_conditions_spec(own, first)),
            },
        }
    }
}

proof fn lemma_agree_stays(set: SelectionSetView, first: ConditionsView, n: nat, m: nat)
    requires
        n <= m <= set.selections.len(),
        conditions_agree(set, first, n) is Err,
    ensures
        conditions_agree(set, first, m) == conditions_agree(set, first, n),
    decreases m,
{
    if n < m {
        lemma_agree_stays(set, first, n, (m - 1) as nat);
    }
}

impl Selection {
    /// The conditions under which the selection is taken.
    pub fn conditions(&self) -> (r: Result<Conditions, FederationError>)
        ensures
            result_view(r) == selection_conditions(self.deep_view()),
        decreases self, 1int,
    {
        match self {
            Selection::Field(f) => Conditions::from_directives(&f.field.directives),
            Selection::InlineFragment(f) => {
                let own = match Conditions::from_directives(&f.inline_fragment.directives) {
                    Ok(own) => own,
                    Err(error) => {
                        return Err(error);
                    },
                };
                if let Conditions::Boolean(false) = own {
                    return Ok(Conditions::Boolean(false));
                }
                match f.selection_set.conditions() {
                    Ok(below) => Ok(own.merge(below)),
                    Err(error) => Err(error),
                }
            },
        }
    }
}

impl SelectionSet {
    /// The conditions under which the set is taken: those of its selections if they are the same,
    /// else none.
    pub fn conditions(&self) -> (r: Result<Conditions, FederationError>)
        ensures
            result_view(r) == set_conditions(self.deep_view()),
        decreases self, 2int,
    {
        proof {
            lemma_set_view(*self);
        }
        let ghost all = self.deep_view();
        if self.selections.len() == 0 {
            return Ok(Conditions::Boolean(false));
        }
        assert(decreases_to!(*self => self.selections));
        assert(decreases_to!(self.selections@ => self.selections@[0]));
        assert(all.selections[0] == self.selections@[0].deep_view());
        let conditions = match self.selections[0].conditions() {
            Ok(conditions) => conditions,
            Err(error) => {
                return Err(error);
            },
        };
        let ghost first = conditions.deep_view();
        let mut agree = true;
        let mut i: usize = 1;
        while i < self.selections.len()
            invariant
                1 <= i <= self.selections@.len(),
                all == self.deep_view(),
                all.selections == selections_view(self.selections@),
                first == conditions.deep_view(),
                selection_conditions(all.selections[0]) == Ok::<ConditionsView, ErrorView>(first),
                conditions_agree(all, first, i as nat) == Ok::<bool, ErrorView>(agree),
            decreases self.selections@.len() - i,
        {
            assert(decreases_to!(*self => self.selections));
            assert(decreases_to!(self.selections@ => self.selections@[i as int]));
            assert(all.selections[i as int] == self.selections@[i as int].deep_view());
            match self.selections[i].conditions() {
                Ok(own) => {
                    agree = own.same_as(&conditions) && agree;
                },
                Err(error) => {
                    proof {
                        lemma_agree_stays(all, first, i as nat + 1, all.selections.len());
                    }
                    return Err(error);
                },
            }
            i += 1;
        }
        if agree {
            Ok(conditions)
        } else {
            Ok(Conditions::Boolean(true))
        }
    }
}

} // verus!
