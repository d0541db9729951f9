//! Operations and their parts as texts, for messages.

use crate::compiler::directives_fit;
use crate::compiler::directives_text;
use crate::compiler::operation_fits;
use crate::compiler::operation_text;
use crate::compiler::printed_directives_text;
use crate::compiler::printed_operation_text;
use crate::compiler::printed_selection_text;
use crate::compiler::selection_fits;
use crate::compiler::selection_text;
use crate::compiler::set_fits;
use crate::operation::condition_name;
use crate::operation::executable::executables_view;
use crate::operation::executable::lemma_executable_set;
use crate::operation::executable::ExecutableSet;
use crate::operation::executable::ExecutableView;
use crate::operation::operations::Operation;
use crate::operation::operations::OperationView;
use crate::operation::print::printed_operation;
use crate::operation::print::printed_selection;
use crate::operation::print::printed_set;
use crate::operation::selection::FieldSelection;
use crate::operation::selection::Selection;
use crate::operation::selection::SelectionSet;
use crate::operation::selection::SelectionSetView;
use crate::operation::selection::SelectionView;
use crate::operation::Field;
use crate::operation::FieldElementView;
use crate::operation::InlineFragment;
use crate::operation::InlineFragmentView;
use crate::text::joined;
use crate::text::joined3;
use crate::text::Text;
use vstd::prelude::*;

verus! {

/// The texts of the first `n` selections, separated by spaces.
pub open spec fn selections_text(selections: Seq<ExecutableView>, n: nat) -> Text
    decreases n,
{
    if n == 0 {
        Seq::empty()
    } else if n == 1 {
        printed_selection_text(selections[0])
    } else {
        selections_text(selections, (n - 1) as nat) + " "@ + printed_selection_text(
            selections[n - 1],
        )
    }
}

/// The text of selections without the brackets round them, if what is in them fits.
pub open spec fn field_set_text(set: SelectionSetView) -> Option<Text> {
    match printed_set(set) {
        Err(_) => None,
        Ok(written) => if set_fits(written) {
            Some(selections_text(written.selections, written.selections.len()))
        } else {
            None
        },
    }
}

/// The text of selections on one line. There is none where the type of a field is not known, or
/// where something in the selections does not fit.
pub open spec fn set_text(set: SelectionSetView) -> Option<Text> {
    match field_set_text(set) {
        None => None,
        Some(inner) => Some("{ "@ + inner + " }"@),
    }
}

/// The text of a selection on one line.
pub open spec fn text_of_selection(selection: SelectionView) -> Option<Text> {
    match printed_selection(selection) {
        Err(_) => None,
        Ok(written) => if selection_fits(written) {
            Some(printed_selection_text(written))
        } else {
            None
        },
    }
}

/// The text of a field without its selections.
pub open spec fn field_text(field: FieldElementView) -> Option<Text> {
    text_of_selection(SelectionView::Field { field, sub: None })
}

/// The text of a fragment without its selections.
pub open spec fn fragment_text(fragment: InlineFragmentView) -> Option<Text> {
    if directives_fit(fragment.directives) {
        let start = match condition_name(fragment) {
            Some(name) => "... on "@ + name,
            None => "..."@,
        };
        Some(start + printed_directives_text(fragment.directives))
    } else {
        None
    }
}

/// The text of an operation, with its selections on lines of their own.
pub open spec fn text_of_operation(operation: OperationView) -> Option<Text> {
    match printed_operation(operation) {
        Err(_) => None,
        Ok(written) => if operation_fits(written) {
            Some(printed_operation_text(written))
        } else {
            None
        },
    }
}

fn texts_of(set: &ExecutableSet) -> (r: Option<String>)
    ensures
        r.deep_view() == (if set_fits(set.deep_view()) {
            Some(
                selections_text(
                    set.deep_view().selections,
                    set.deep_view().selections.len(),
                ),
            )
        } else {
            None
        }),
{
    proof {
        lemma_executable_set(*set);
    }
    let ghost all = set.deep_view();
    let mut text = String::new();
    assert(text@ =~= Seq::empty());
    let mut i: usize = 0;
    while i < set.selections.len()
        invariant
            i <= set.selections@.len(),
            all == set.deep_view(),
            all.selections == executables_view(set.selections@),
            text@ == selections_text(all.selections, i as nat),
            forall|j: int| 0 <= j < i ==> selection_fits(#[trigger] all.selections[j]),
        decreases set.selections@.len() - i,
    {
        assert(all.selections[i as int] == set.selections@[i as int].deep_view());
        match selection_text(&set.selections[i]) {
            Some(own) => {
                if i == 0 {
                    text = own;
                } else {
                    text = joined3(&text, " ", &own);
                }
            },
            None => {
                return None;
            },
        }
        i += 1;
    }
    Some(text)
}

impl SelectionSet {
    /// The text of the selections without the brackets round them. There is none where the type of a
    /// field is not known, or where something in the selections does not fit.
    pub fn to_field_set_text(&self) -> (r: Option<String>)
        ensures
            r.deep_view() == field_set_text(self.deep_view()),
    {
        match self.to_executable() {
            Ok(written) => texts_of(&written),
            Err(_) => None,
        }
    }

    /// The text of the selections on one line. There is none where the type of a field is not known,
    /// or where something in the selections does not fit.
    pub fn to_text(&self) -> (r: Option<String>)
        ensures
            r.deep_view() == set_text(self.deep_view()),
    {
        match self.to_field_set_text() {
            Some(inner) => Some(joined3("{ ", &inner, " }")),
            None => None,
        }
    }
}

impl Selection {
    /// The text of the selection on one line. There is none where the type of a field is not known, or
    /// where something in the selection does not fit.
    pub fn to_text(&self) -> (r: Option<String>)
        ensures
            r.deep_view() == text_of_selection(self.deep_view()),
    {
        match self.to_executable() {
            Ok(written) => selection_text(&written),
            Err(_) => None,
        }
    }
}

impl Field {
    /// The text of the field without selections. There is none where the type of the field is not
    /// known, or where something in it does not fit.
    pub fn to_text(&self) -> (r: Option<String>)
        ensures
            r.deep_view() == field_text(self.deep_view()),
    {
        let alone = Selection::Field(FieldSelection { field: self.clone(), selection_set: None });
        alone.to_text()
    }
}

impl InlineFragment {
    /// The text of the fragment without selections. There is none where something in its directives
    /// does not fit.
    pub fn to_text(&self) -> (r: Option<String>)
        ensures
            r.deep_view() == fragment_text(self.deep_view()),
    {
        match directives_text(&self.directives) {
            Some(directives) => {
                let start = match &self.type_condition_position {
                    Some(position) => joined("... on ", position.name()),
                    None => "...".to_owned(),
                };
                Some(joined(&start, &directives))
            },
            None => None,
        }
    }
}

impl Operation {
    /// The text of the operation, with its selections on lines of their own. There is none where the
    /// type of a field is not known, or where something in the operation does not fit.
    pub fn to_text(&self) -> (r: Option<String>)
        ensures
            r.deep_view() == text_of_operation(self.deep_view()),
    {
        match self.to_executable() {
            Ok(written) => operation_text(&written),
            Err(_) => None,
        }
    }
}

} // verus!
