//! Merging selections under their keys.

use crate::error::internal_error;
use crate::error::result_view;
use crate::error::ErrorKind;
use crate::error::ErrorView;
use crate::error::FederationError;
use crate::operation::selection::find_selection;
use crate::operation::selection::lemma_set_view;
use crate::operation::selection::selections_view;
use crate::operation::selection::selection_index;
use crate::operation::selection::selection_key;
use crate::operation::selection::FieldSelection;
use crate::operation::selection::InlineFragmentSelection;
use crate::operation::selection::Selection;
use crate::operation::selection::SelectionSet;
use crate::operation::selection::SelectionSetView;
use crate::operation::selection::SelectionView;
use crate::schema::position::FieldDefinitionPosition;
use crate::text::same;
use vstd::prelude::*;

verus! {

/// The selections with one more: it is merged into the one with its key, or added at the end.
pub open spec fn with_selection(selections: Seq<SelectionView>, new: SelectionView) -> Result<
    Seq<SelectionView>,
    ErrorView,
>
    decreases new, 1nat, 0nat,
{
    let i = selection_index(selections, selection_key(new));
    if i < selections.len() {
        match merged_selection(selections[i], new) {
            Err(error) => Err(error),
            Ok(merged) => Ok(selections.update(i, merged)),
        }
    } else {
        Ok(selections.push(new))
    }
}

/// Two selections of one key as one.
pub open spec fn merged_selection(a: SelectionView, b: SelectionView) -> Result<
    SelectionView,
    ErrorView,
>
    decreases b, 0nat, 0nat,
{
    match (a, b) {
        (
            SelectionView::Field { field: f, sub: s },
            SelectionView::Field { field: g, sub: t },
        ) => if f.field_position != g.field_position {
            Err(internal_error("Cannot merge selections of different fields"@))
        } else {
            match (s, t) {
                (Some(x), Some(y)) => match merged_sets(x, y) {
                    Err(error) => Err(error),
                    Ok(set) => Ok(SelectionView::Field { field: f, sub: Some(set) }),
                },
                (None, None) => Ok(a),
                (Some(_), None) => Err(
                    internal_error("Field has a composite type, but no selections"@),
                ),
                (None, Some(_)) => Err(
                    internal_error("Field has a type without fields, but selections"@),
                ),
            }
        },
        (
            SelectionView::InlineFragment { fragment: f, set: x },
            SelectionView::InlineFragment { fragment: g, set: y },
        ) => if f.parent_type_position != g.parent_type_position {
            Err(internal_error("Cannot merge fragments on different types"@))
        } else {
            match merged_sets(x, y) {
                Err(error) => Err(error),
                Ok(set) => Ok(SelectionView::InlineFragment { fragment: f, set }),
            }
        },
        _ => Err(internal_error("Cannot merge a field and a fragment"@)),
    }
}

/// A set with the selections of another one on the same type.
pub open spec fn merged_sets(a: SelectionSetView, b: SelectionSetView) -> Result<
    SelectionSetView,
    ErrorView,
>
    decreases b, 1nat, 0nat,
{
    if a.type_position != b.type_position {
        Err(internal_error("Cannot merge selections on different types"@))
    } else {
        match merged_selections(a.selections, b, b.selections.len()) {
            Err(error) => Err(error),
            Ok(selections) => Ok(SelectionSetView { selections, ..a }),
        }
    }
}

/// Selections with the first `n` of a set.
pub open spec fn merged_selections(a: Seq<SelectionView>, b: SelectionSetView, n: nat) -> Result<
    Seq<SelectionView>,
    ErrorView,
>
    decreases b, 0nat, n,
{
    if n == 0 || n > b.selections.len() {
        Ok(a)
    } else {
        match merged_selections(a, b, (n - 1) as nat) {
            Err(error) => Err(error),
            Ok(before) => with_selection(before, b.selections[n - 1]),
        }
    }
}

/// Selections with the first `n` of some others.
pub open spec fn with_selections(a: Seq<SelectionView>, b: Seq<SelectionView>, n: nat) -> Result<
    Seq<SelectionView>,
    ErrorView,
>
    decreases n,
{
    if n == 0 {
        Ok(a)
    } else {
        match with_selections(a, b, (n - 1) as nat) {
            Err(error) => Err(error),
            Ok(before) => with_selection(before, b[n - 1]),
        }
    }
}

/// Merging fails with internal errors only.
pub(crate) proof fn lemma_with_selection_kind(selections: Seq<SelectionView>, new: SelectionView)
    ensures
        with_selection(selections, new) matches Err(error) ==> error.kind == ErrorKind::Internal,
    decreases new, 1nat, 0nat,
{
    let i = selection_index(selections, selection_key(new));
    if i < selections.len() {
        lemma_merged_selection_kind(selections[i], new);
    }
}

proof fn lemma_merged_selection_kind(a: SelectionView, b: SelectionView)
    ensures
        merged_selection(a, b) matches Err(error) ==> error.kind == ErrorKind::Internal,
    decreases b, 0nat, 0nat,
{
    match (a, b) {
        (
            SelectionView::Field { field: f, sub: Some(x) },
            SelectionView::Field { field: g, sub: Some(y) },
        ) => lemma_merged_sets_kind(x, y),
        (
            SelectionView::InlineFragment { fragment: f, set: x },
            SelectionView::InlineFragment { fragment: g, set: y },
        ) => lemma_merged_sets_kind(x, y),
        _ => {},
    }
}

proof fn lemma_merged_sets_kind(a: SelectionSetView, b: SelectionSetView)
    ensures
        merged_sets(a, b) matches Err(error) ==> error.kind == ErrorKind::Internal,
    decreases b, 1nat, 0nat,
{
    lemma_merged_selections_kind(a.selections, b, b.selections.len());
}

proof fn lemma_merged_selections_kind(a: Seq<SelectionView>, b: SelectionSetView, n: nat)
    ensures
        merged_selections(a, b, n) matches Err(error) ==> error.kind == ErrorKind::Internal,
    decreases b, 0nat, n,
{
    if 0 < n <= b.selections.len() {
        lemma_merged_selections_kind(a, b, (n - 1) as nat);
        match merged_selections(a, b, (n - 1) as nat) {
            Err(_) => {},
            Ok(before) => lemma_with_selection_kind(before, b.selections[n - 1]),
        }
    }
}

pub(crate) proof fn lemma_with_selections_kind(
    a: Seq<SelectionView>,
    b: Seq<SelectionView>,
    n: nat,
)
    ensures
        with_selections(a, b, n) matches Err(error) ==> error.kind == ErrorKind::Internal,
    decreases n,
{
    if n > 0 {
        lemma_with_selections_kind(a, b, (n - 1) as nat);
        match with_selections(a, b, (n - 1) as nat) {
            Err(_) => {},
            Ok(before) => lemma_with_selection_kind(before, b[n - 1]),
        }
    }
}

proof fn lemma_merged_error(a: Seq<SelectionView>, b: SelectionSetView, n: nat, m: nat)
    requires
        n <= m <= b.selections.len(),
        merged_selections(a, b, n) is Err,
    ensures
        merged_selections(a, b, m) == merged_selections(a, b, n),
    decreases m,
{
    if n < m {
        lemma_merged_error(a, b, n, (m - 1) as nat);
    }
}

proof fn lemma_with_selections_error(
    a: Seq<SelectionView>,
    b: Seq<SelectionView>,
    n: nat,
    m: nat,
)
    requires
        n <= m,
        with_selections(a, b, n) is Err,
    ensures
        with_selections(a, b, m) == with_selections(a, b, n),
    decreases m,
{
    if n < m {
        lemma_with_selections_error(a, b, n, (m - 1) as nat);
    }
}

impl FieldDefinitionPosition {
    /// Whether two places are the same.
    pub fn same_as(&self, other: &Self) -> (r: bool)
        ensures
            r == (self.deep_view() == other.deep_view()),
    {
        same(&self.field_name, &other.field_name) && self.parent.same_as(&other.parent)
    }
}

/// Adds a selection: it is merged into the one with its key, or added at the end.
pub(crate) fn add_selection(selections: &mut Vec<Selection>, new: &Selection) -> (r: Result<
    (),
    FederationError,
>)
    ensures
        ({
            let expected = with_selection(selections_view(old(selections)@), new.deep_view());
            match r {
                Ok(_) => expected == Ok::<Seq<SelectionView>, ErrorView>(
                    selections_view(final(selections)@),
                ),
                Err(error) => expected == Err::<Seq<SelectionView>, ErrorView>(error.deep_view()),
            }
        }),
    decreases new, 1int,
{
    let ghost before = selections_view(selections@);
    let i = find_selection(selections, new);
    if i < selections.len() {
        assert(before[i as int] == selections@[i as int].deep_view());
        match merge_selection(&selections[i], new) {
            Err(error) => Err(error),
            Ok(merged) => {
                let ghost view = merged.deep_view();
                selections.set(i, merged);
                assert(selections_view(selections@) =~= before.update(i as int, view));
                Ok(())
            },
        }
    } else {
        selections.push(new.clone());
        assert(selections_view(selections@) =~= before.push(new.deep_view()));
        Ok(())
    }
}

fn merge_selection(a: &Selection, b: &Selection) -> (r: Result<Selection, FederationError>)
    ensures
        result_view(r) == merged_selection(a.deep_view(), b.deep_view()),
    decreases b, 0int,
{
    match (a, b) {
        (Selection::Field(f), Selection::Field(g)) => {
            if !f.field.field_position.same_as(&g.field.field_position) {
                return Err(
                    FederationError::internal("Cannot merge selections of different fields"),
                );
            }
            match (&f.selection_set, &g.selection_set) {
                (Some(x), Some(y)) => match merge_sets(x, y) {
                    Err(error) => Err(error),
                    Ok(set) => Ok(
                        Selection::Field(
                            FieldSelection { field: f.field.clone(), selection_set: Some(set) },
                        ),
                    ),
                },
                (None, None) => Ok(
                    Selection::Field(
                        FieldSelection { field: f.field.clone(), selection_set: None },
                    ),
                ),
                (Some(_), None) => Err(
                    FederationError::internal("Field has a composite type, but no selections"),
                ),
                (None, Some(_)) => Err(
                    FederationError::internal("Field has a type without fields, but selections"),
                ),
            }
        },
        (Selection::InlineFragment(f), Selection::InlineFragment(g)) => {
            if !f.inline_fragment.parent_type_position.same_as(
                &g.inline_fragment.parent_type_position,
            ) {
                return Err(FederationError::internal("Cannot merge fragments on different types"));
            }
            match merge_sets(&f.selection_set, &g.selection_set) {
                Err(error) => Err(error),
                Ok(set) => Ok(
                    Selection::InlineFragment(
                        InlineFragmentSelection {
                            inline_fragment: f.inline_fragment.clone(),
                            selection_set: set,
                        },
                    ),
                ),
            }
        },
        _ => Err(FederationError::internal("Cannot merge a field and a fragment")),
    }
}

fn merge_sets(a: &SelectionSet, b: &SelectionSet) -> (r: Result<SelectionSet, FederationError>)
    ensures
        result_view(r) == merged_sets(a.deep_view(), b.deep_view()),
    decreases b, 1int,
{
    if !a.type_position.same_as(&b.type_position) {
        return Err(FederationError::internal("Cannot merge selections on different types"));
    }
    let mut r = a.clone();
    proof {
        lemma_set_view(*a);
        lemma_set_view(*b);
        lemma_set_view(r);
    }
    let ghost start = a.deep_view().selections;
    let ghost other = b.deep_view();
    let mut i: usize = 0;
    while i < b.selections.len()
        invariant
            i <= b.selections@.len(),
            start == a.deep_view().selections,
            other == b.deep_view(),
            other.selections == selections_view(b.selections@),
            a.deep_view().type_position == other.type_position,
            r.schema.deep_view() == a.deep_view().schema,
            r.type_position.deep_view() == a.deep_view().type_position,
            merged_selections(start, other, i as nat) == Ok::<Seq<SelectionView>, ErrorView>(
                selections_view(r.selections@),
            ),
        decreases b.selections@.len() - i,
    {
        assert(decreases_to!(*b => b.selections));
        assert(decreases_to!(b.selections@ => b.selections@[i as int]));
        assert(other.selections[i as int] == b.selections@[i as int].deep_view());
        match add_selection(&mut r.selections, &b.selections[i]) {
            Ok(_) => {},
            Err(error) => {
                proof {
                    lemma_merged_error(start, other, i as nat + 1, other.selections.len());
                }
                return Err(error);
            },
        }
        i += 1;
    }
    proof {
        lemma_set_view(r);
    }
    Ok(r)
}

/// What adding to a set gives, as a set.
pub open spec fn as_set(set: SelectionSetView, selections: Result<Seq<SelectionView>, ErrorView>) -> Result<
    SelectionSetView,
    ErrorView,
> {
    match selections {
        Ok(selections) => Ok(SelectionSetView { selections, ..set }),
        Err(error) => Err(error),
    }
}

/// Whether a set was changed as expected, or the expected error came.
pub open spec fn changed_to(
    r: Result<(), FederationError>,
    set: SelectionSet,
    expected: Result<SelectionSetView, ErrorView>,
) -> bool {
    match r {
        Ok(_) => expected == Ok::<SelectionSetView, ErrorView>(set.deep_view()),
        Err(error) => expected == Err::<SelectionSetView, ErrorView>(error.deep_view()),
    }
}

impl SelectionSet {
    /// Adds a selection: it is merged into the one with its key, or added at the end.
    pub fn add_local_selection(&mut self, selection: &Selection) -> (r: Result<(), FederationError>)
        ensures
            changed_to(
                r,
                *final(self),
                as_set(
                    old(self).deep_view(),
                    with_selection(old(self).deep_view().selections, selection.deep_view()),
                ),
            ),
            final(self).schema == old(self).schema,
            final(self).type_position == old(self).type_position,
    {
        proof {
            lemma_set_view(*self);
        }
        let r = add_selection(&mut self.selections, selection);
        proof {
            lemma_set_view(*self);
        }
        r
    }

    /// Adds the selections of a set on the same type.
    pub fn add_local_selection_set(&mut self, other: &SelectionSet) -> (r: Result<
        (),
        FederationError,
    >)
        ensures
            changed_to(r, *final(self), merged_sets(old(self).deep_view(), other.deep_view())),
    {
        match merge_sets(self, other) {
            Ok(set) => {
                *self = set;
                Ok(())
            },
            Err(error) => Err(error),
        }
    }

    /// Adds some selections.
    pub fn merge_selections_into(&mut self, others: &Vec<Selection>) -> (r: Result<
        (),
        FederationError,
    >)
        ensures
            changed_to(
                r,
                *final(self),
                as_set(
                    old(self).deep_view(),
                    with_selections(
                        old(self).deep_view().selections,
                        selections_view(others@),
                        others@.len(),
                    ),
                ),
            ),
    {
        proof {
            lemma_set_view(*self);
        }
        let ghost start = self.deep_view();
        let ghost all = selections_view(others@);
        let mut i: usize = 0;
        while i < others.len()
            invariant
                i <= others@.len(),
                all == selections_view(others@),
                start == old(self).deep_view(),
                self.schema.deep_view() == start.schema,
                self.type_position.deep_view() == start.type_position,
                with_selections(start.selections, all, i as nat) == Ok::<
                    Seq<SelectionView>,
                    ErrorView,
                >(selections_view(self.selections@)),
            decreases others@.len() - i,
        {
            assert(all[i as int] == others@[i as int].deep_view());
            match add_selection(&mut self.selections, &others[i]) {
                Ok(_) => {},
                Err(error) => {
                    proof {
                        lemma_with_selections_error(
                            start.selections,
                            all,
                            i as nat + 1,
                            others@.len(),
                        );
                    }
                    return Err(error);
                },
            }
            i += 1;
        }
        proof {
            lemma_set_view(*self);
        }
        Ok(())
    }
}

} // verus!
