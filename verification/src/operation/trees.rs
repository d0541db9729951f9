//! Functions on sets of selections as trees.

use crate::error::internal_error;
use crate::error::FederationError;
use crate::operation::at_path::sub_of;
use crate::operation::equality::directives_match;
use crate::operation::equality::same_directives;
use crate::operation::introspection_typename;
use crate::operation::response_name;
use crate::operation::selection::insert_selection;
use crate::operation::selection::lemma_set_view;
use crate::operation::selection::put_selection;
use crate::operation::selection::selections_view;
use crate::operation::selection::FieldSelection;
use crate::operation::selection::InlineFragmentSelection;
use crate::operation::selection::Selection;
use crate::operation::selection::SelectionSet;
use crate::operation::selection::SelectionSetView;
use crate::operation::selection::SelectionView;
use crate::operation::typename_field;
use crate::operation::Field;
use crate::operation::InlineFragmentView;
use crate::query_graph::elements::ElementView;
use crate::query_graph::elements::OpPathElement;
use crate::query_graph::graph_path::Comparison;
use crate::schema::position::composite_name;
use crate::schema::position::CompositeTypeDefinitionPosition;
use crate::schema::position::CompositeView;
use crate::schema::Schema;
use crate::schema::SchemaView;
use crate::text::same;
use crate::text::str_lt;
use crate::text::text_lt;
use crate::text::text_order_is_strict;
use crate::text::text_order_is_total;
use crate::text::Text;
use std::sync::Arc;
use vstd::prelude::*;

verus! {

/// The schema of a selection.
pub open spec fn selection_schema(selection: SelectionView) -> SchemaView {
    match selection {
        SelectionView::Field { field, sub } => field.schema,
        SelectionView::InlineFragment { fragment, set } => fragment.schema,
    }
}

/// A set of one selection.
pub open spec fn set_of_one(type_position: CompositeView, selection: SelectionView) -> SelectionSetView {
    SelectionSetView {
        schema: selection_schema(selection),
        type_position,
        selections: seq![selection],
    }
}

impl Selection {
    /// The schema of the selection.
    pub fn schema(&self) -> (r: &Arc<Schema>)
        ensures
            r.deep_view() == selection_schema(self.deep_view()),
    {
        match self {
            Selection::Field(f) => &f.field.schema,
            Selection::InlineFragment(f) => &f.inline_fragment.schema,
        }
    }

    /// Whether the selection is `__typename` without directives.
    pub fn is_typename_field(&self) -> (r: bool)
        ensures
            r == (match self.deep_view() {
                SelectionView::Field { field, sub } => response_name(field) == typename_field()
                    && field.directives.len() == 0,
                SelectionView::InlineFragment { fragment, set } => false,
            }),
    {
        match self {
            Selection::Field(f) => same(f.field.response_name(), "__typename")
                && f.field.directives.len() == 0,
            Selection::InlineFragment(_) => false,
        }
    }
}

impl SelectionSet {
    /// A set of one selection.
    pub fn from_selection(
        type_position: CompositeTypeDefinitionPosition,
        selection: Selection,
    ) -> (r: SelectionSet)
        ensures
            r.deep_view() == set_of_one(type_position.deep_view(), selection.deep_view()),
    {
        let ghost view = selection.deep_view();
        let schema = selection.schema().clone();
        let r = SelectionSet { schema, type_position, selections: vec![selection] };
        proof {
            lemma_set_view(r);
        }
        assert(r.deep_view().selections =~= seq![view]);
        r
    }

    /// The set of `__typename` alone.
    pub fn for_composite_type(
        schema: Arc<Schema>,
        type_position: CompositeTypeDefinitionPosition,
    ) -> (r: SelectionSet)
        ensures
            r.deep_view() == (SelectionSetView {
                schema: schema.deep_view(),
                type_position: type_position.deep_view(),
                selections: seq![
                    SelectionView::Field {
                        field: introspection_typename(
                            schema.deep_view(),
                            type_position.deep_view(),
                            None,
                        ),
                        sub: None,
                    },
                ],
            }),
    {
        let field = Field::new_introspection_typename(&schema, &type_position, None);
        let selection = Selection::Field(FieldSelection { field, selection_set: None });
        let ghost view = selection.deep_view();
        let r = SelectionSet { schema, type_position, selections: vec![selection] };
        proof {
            lemma_set_view(r);
        }
        assert(r.deep_view().selections =~= seq![view]);
        r
    }
}

// One set per field.

/// The sets that select one field each of the first `n` selections; a field in a fragment is selected
/// in the fragment.
pub open spec fn split_fields(set: SelectionSetView, n: nat) -> Seq<SelectionSetView>
    decreases set, n,
{
    if n == 0 || n > set.selections.len() {
        Seq::empty()
    } else {
        split_fields(set, (n - 1) as nat) + split_selection(
            set.selections[n - 1],
            set.type_position,
        )
    }
}

/// The sets that select one field each of a selection.
pub open spec fn split_selection(selection: SelectionView, type_position: CompositeView) -> Seq<
    SelectionSetView,
>
    decreases selection, 0nat,
{
    match selection {
        SelectionView::Field { field, sub } => seq![set_of_one(type_position, selection)],
        SelectionView::InlineFragment { fragment, set } => in_fragment(
            fragment,
            split_fields(set, set.selections.len()),
        ),
    }
}

/// Sets, each in a fragment.
pub open spec fn in_fragment(fragment: InlineFragmentView, sets: Seq<SelectionSetView>) -> Seq<
    SelectionSetView,
> {
    sets.map_values(
        |set: SelectionSetView|
            set_of_one(
                fragment.parent_type_position,
                SelectionView::InlineFragment { fragment, set },
            ),
    )
}

impl SelectionSet {
    /// The sets that select one field each, in order; a field in a fragment is selected in the
    /// fragment.
    pub fn split_top_level_fields(&self) -> (r: Vec<SelectionSet>)
        ensures
            r.deep_view() == split_fields(self.deep_view(), self.deep_view().selections.len()),
        decreases self,
    {
        proof {
            lemma_set_view(*self);
        }
        let ghost all = self.deep_view();
        let mut r: Vec<SelectionSet> = Vec::new();
        assert(r.deep_view() =~= Seq::empty());
        let mut i: usize = 0;
        while i < self.selections.len()
            invariant
                i <= self.selections@.len(),
                all == self.deep_view(),
                all.type_position == self.type_position.deep_view(),
                all.selections == selections_view(self.selections@),
                r.deep_view() == split_fields(all, i as nat),
            decreases self.selections@.len() - i,
        {
            assert(decreases_to!(*self => self.selections));
            assert(decreases_to!(self.selections@ => self.selections@[i as int]));
            let selection = &self.selections[i];
            assert(all.selections[i as int] == selection.deep_view());
            let ghost before = r.deep_view();
            match selection {
                Selection::Field(_) => {
                    r.push(
                        SelectionSet::from_selection(
                            self.type_position.clone(),
                            selection.clone(),
                        ),
                    );
                    assert(r.deep_view() =~= before + split_selection(
                        all.selections[i as int],
                        all.type_position,
                    ));
                },
                Selection::InlineFragment(fragment) => {
                    let sets = fragment.selection_set.split_top_level_fields();
                    let mut wrapped = wrap_in_fragment(fragment, &sets);
                    r.append(&mut wrapped);
                    assert(r.deep_view() =~= before + split_selection(
                        all.selections[i as int],
                        all.type_position,
                    ));
                },
            }
            i += 1;
        }
        r
    }
}

fn wrap_in_fragment(fragment: &InlineFragmentSelection, sets: &Vec<SelectionSet>) -> (r: Vec<
    SelectionSet,
>)
    ensures
        r.deep_view() == in_fragment(fragment.inline_fragment.deep_view(), sets.deep_view()),
{
    let ghost f = fragment.inline_fragment.deep_view();
    let mut r: Vec<SelectionSet> = Vec::new();
    let mut i: usize = 0;
    while i < sets.len()
        invariant
            i <= sets@.len(),
            f == fragment.inline_fragment.deep_view(),
            r@.len() == i,
            forall|j: int|
                0 <= j < i ==> (#[trigger] r@[j]).deep_view() == set_of_one(
                    f.parent_type_position,
                    SelectionView::InlineFragment { fragment: f, set: sets@[j].deep_view() },
                ),
        decreases sets@.len() - i,
    {
        let selection = Selection::InlineFragment(
            InlineFragmentSelection {
                inline_fragment: fragment.inline_fragment.clone(),
                selection_set: sets[i].clone(),
            },
        );
        r.push(
            SelectionSet::from_selection(
                fragment.inline_fragment.parent_type_position.clone(),
                selection,
            ),
        );
        i += 1;
    }
    assert(r.deep_view() =~= in_fragment(f, sets.deep_view()));
    r
}

// Leaving out empty branches.

/// A set without the selections below which there should be something, but is nothing.
pub open spec fn without_empty(set: SelectionSetView) -> SelectionSetView
    decreases set, 1nat, 0nat,
{
    SelectionSetView { selections: nonempty_selections(set, set.selections.len()), ..set }
}

/// The first `n` selections of a set that are not empty branches.
pub open spec fn nonempty_selections(set: SelectionSetView, n: nat) -> Seq<SelectionView>
    decreases set, 0nat, n,
{
    if n == 0 || n > set.selections.len() {
        Seq::empty()
    } else {
        let before = nonempty_selections(set, (n - 1) as nat);
        let new = branch_without_empty(set.selections[n - 1]);
        if is_empty_branch(new) {
            before
        } else {
            put_selection(before, new)
        }
    }
}

/// Whether nothing is below a selection where something should be.
pub open spec fn is_empty_branch(selection: SelectionView) -> bool {
    match sub_of(selection) {
        Some(set) => set.selections.len() == 0,
        None => false,
    }
}

/// A selection without the empty branches below it.
pub open spec fn branch_without_empty(selection: SelectionView) -> SelectionView
    decreases selection, 2nat, 0nat,
{
    match selection {
        SelectionView::Field { field, sub } => SelectionView::Field {
            field,
            sub: match sub {
                Some(set) => Some(without_empty(set)),
                None => None,
            },
        },
        SelectionView::InlineFragment { fragment, set } => SelectionView::InlineFragment {
            fragment,
            set: without_empty(set),
        },
    }
}

impl SelectionSet {
    fn empty_branches_removed(&self) -> (r: SelectionSet)
        ensures
            r.deep_view() == without_empty(self.deep_view()),
        decreases self, 1int,
    {
        proof {
            lemma_set_view(*self);
        }
        let ghost all = self.deep_view();
        let mut selections: Vec<Selection> = Vec::new();
        assert(selections_view(selections@) =~= Seq::empty());
        let mut i: usize = 0;
        while i < self.selections.len()
            invariant
                i <= self.selections@.len(),
                all == self.deep_view(),
                all.selections == selections_view(self.selections@),
                selections_view(selections@) == nonempty_selections(all, i as nat),
            decreases self.selections@.len() - i,
        {
            assert(decreases_to!(*self => self.selections));
            assert(decreases_to!(self.selections@ => self.selections@[i as int]));
            assert(all.selections[i as int] == self.selections@[i as int].deep_view());
            let new = self.selections[i].empty_branches_removed();
            let empty = match new.selection_set() {
                Some(set) => set.is_empty(),
                None => false,
            };
            if !empty {
                insert_selection(&mut selections, new);
            }
            i += 1;
        }
        let r = SelectionSet {
            schema: self.schema.clone(),
            type_position: self.type_position.clone(),
            selections,
        };
        proof {
            lemma_set_view(r);
        }
        r
    }

    /// The set without empty branches at any depth; nothing where all of it is empty.
    pub fn without_empty_branches(&self) -> (r: Option<SelectionSet>)
        ensures
            r.deep_view() == ({
                let kept = without_empty(self.deep_view());
                if kept.selections.len() == 0 {
                    None
                } else {
                    Some(kept)
                }
            }),
    {
        let kept = self.empty_branches_removed();
        if kept.is_empty() {
            None
        } else {
            Some(kept)
        }
    }
}

impl Selection {
    fn empty_branches_removed(&self) -> (r: Selection)
        ensures
            r.deep_view() == branch_without_empty(self.deep_view()),
        decreases self, 2int,
    {
        match self {
            Selection::Field(f) => {
                let selection_set = match &f.selection_set {
                    Some(set) => Some(set.empty_branches_removed()),
                    None => None,
                };
                Selection::Field(FieldSelection { field: f.field.clone(), selection_set })
            },
            Selection::InlineFragment(f) => Selection::InlineFragment(
                InlineFragmentSelection {
                    inline_fragment: f.inline_fragment.clone(),
                    selection_set: f.selection_set.empty_branches_removed(),
                },
            ),
        }
    }
}

// Whether a set is complete.

/// Whether there is something in a set and below each of its first `n` selections.
pub open spec fn is_complete(set: SelectionSetView, n: nat) -> bool
    decreases set, n,
{
    if n == 0 || n > set.selections.len() {
        set.selections.len() > 0
    } else {
        is_complete(set, (n - 1) as nat) && branch_is_complete(set.selections[n - 1])
    }
}

/// Whether there is something below a selection where there should be.
pub open spec fn branch_is_complete(selection: SelectionView) -> bool
    decreases selection, 0nat,
{
    match selection {
        SelectionView::Field { field, sub } => match sub {
            Some(set) => is_complete(set, set.selections.len()),
            None => true,
        },
        SelectionView::InlineFragment { fragment, set } => is_complete(set, set.selections.len()),
    }
}

proof fn lemma_incomplete(set: SelectionSetView, n: nat, m: nat)
    requires
        n <= m <= set.selections.len(),
        !is_complete(set, n),
    ensures
        !is_complete(set, m),
    decreases m,
{
    if n < m {
        lemma_incomplete(set, n, (m - 1) as nat);
    }
}

impl SelectionSet {
    /// Fails where a set at any depth has no selections.
    pub fn validate(&self) -> (r: Result<(), FederationError>)
        ensures
            match r {
                Ok(_) => is_complete(self.deep_view(), self.deep_view().selections.len()),
                Err(error) => !is_complete(self.deep_view(), self.deep_view().selections.len())
                    && error.deep_view() == internal_error("Invalid empty selection set"@),
            },
        decreases self,
    {
        proof {
            lemma_set_view(*self);
        }
        let ghost all = self.deep_view();
        if self.selections.len() == 0 {
            return Err(FederationError::internal("Invalid empty selection set"));
        }
        let mut i: usize = 0;
        while i < self.selections.len()
            invariant
                i <= self.selections@.len(),
                all == self.deep_view(),
                all.selections == selections_view(self.selections@),
                is_complete(all, i as nat),
            decreases self.selections@.len() - i,
        {
            assert(decreases_to!(*self => self.selections));
            assert(decreases_to!(self.selections@ => self.selections@[i as int]));
            assert(all.selections[i as int] == self.selections@[i as int].deep_view());
            assert(branch_is_complete(all.selections[i as int]) == (match sub_of(
                all.selections[i as int],
            ) {
                Some(set) => is_complete(set, set.selections.len()),
                None => true,
            }));
            if let Some(set) = self.selections[i].selection_set() {
                match set.validate() {
                    Ok(_) => {},
                    Err(error) => {
                        proof {
                            lemma_incomplete(all, i as nat + 1, all.selections.len());
                        }
                        return Err(error);
                    },
                }
            }
            i += 1;
        }
        Ok(())
    }
}

// Elements.

/// The elements of the first `n` selections of a set and of everything below them.
pub open spec fn elements_in_set(set: SelectionSetView, n: nat) -> Seq<ElementView>
    decreases set, n,
{
    if n == 0 || n > set.selections.len() {
        Seq::empty()
    } else {
        elements_in_set(set, (n - 1) as nat) + elements_in_selection(set.selections[n - 1])
    }
}

/// The element of a selection and those of everything below it.
pub open spec fn elements_in_selection(selection: SelectionView) -> Seq<ElementView>
    decreases selection, 0nat,
{
    match selection {
        SelectionView::Field { field, sub } => seq![ElementView::Field(field)] + match sub {
            Some(set) => elements_in_set(set, set.selections.len()),
            None => Seq::empty(),
        },
        SelectionView::InlineFragment { fragment, set } => seq![
            ElementView::InlineFragment(fragment),
        ] + elements_in_set(set, set.selections.len()),
    }
}

/// Whether the predicate was found to hold of one of some elements.
pub open spec fn holds_of_one<F: Fn(&OpPathElement) -> bool>(
    predicate: F,
    elements: Seq<ElementView>,
) -> bool {
    exists|e: OpPathElement| elements.contains(e.deep_view()) && #[trigger] predicate.ensures((&e,), true)
}

/// Whether the predicate was found to hold of none of some elements.
pub open spec fn holds_of_none<F: Fn(&OpPathElement) -> bool>(
    predicate: F,
    elements: Seq<ElementView>,
) -> bool {
    forall|i: int| 0 <= i < elements.len() ==> fails_for(predicate, #[trigger] elements[i])
}

/// Whether the predicate was found not to hold of an element.
pub open spec fn fails_for<F: Fn(&OpPathElement) -> bool>(predicate: F, element: ElementView) -> bool {
    exists|e: OpPathElement| e.deep_view() == element && #[trigger] predicate.ensures((&e,), false)
}

proof fn lemma_elements_from(set: SelectionSetView, n: nat, m: nat, element: ElementView)
    requires
        n <= m <= set.selections.len(),
        elements_in_set(set, n).contains(element),
    ensures
        elements_in_set(set, m).contains(element),
    decreases m,
{
    if n < m {
        lemma_elements_from(set, n, (m - 1) as nat, element);
        let before = elements_in_set(set, (m - 1) as nat);
        let i = before.index_of(element);
        assert(elements_in_set(set, m)[i] == element);
    }
}

impl SelectionSet {
    /// Whether the predicate holds of some element in the set, at any depth.
    pub fn any_element<F: Fn(&OpPathElement) -> bool>(&self, predicate: &F) -> (r: bool)
        requires
            forall|e: OpPathElement| #[trigger] predicate.requires((&e,)),
        ensures
            r ==> holds_of_one(
                *predicate,
                elements_in_set(self.deep_view(), self.deep_view().selections.len()),
            ),
            !r ==> holds_of_none(
                *predicate,
                elements_in_set(self.deep_view(), self.deep_view().selections.len()),
            ),
        decreases self, 1int,
    {
        proof {
            lemma_set_view(*self);
        }
        let ghost all = self.deep_view();
        let mut i: usize = 0;
        while i < self.selections.len()
            invariant
                i <= self.selections@.len(),
                all == self.deep_view(),
                all.selections == selections_view(self.selections@),
                forall|e: OpPathElement| #[trigger] predicate.requires((&e,)),
                holds_of_none(*predicate, elements_in_set(all, i as nat)),
            decreases self.selections@.len() - i,
        {
            assert(decreases_to!(*self => self.selections));
            assert(decreases_to!(self.selections@ => self.selections@[i as int]));
            assert(all.selections[i as int] == self.selections@[i as int].deep_view());
            let ghost before = elements_in_set(all, i as nat);
            let ghost own = elements_in_selection(all.selections[i as int]);
            assert(elements_in_set(all, i as nat + 1) == before + own);
            if self.selections[i].any_element(predicate) {
                proof {
                    let e = choose|e: OpPathElement|
                        own.contains(e.deep_view()) && #[trigger] predicate.ensures((&e,), true);
                    let k = own.index_of(e.deep_view());
                    assert((before + own)[before.len() + k] == e.deep_view());
                    lemma_elements_from(
                        all,
                        i as nat + 1,
                        all.selections.len(),
                        e.deep_view(),
                    );
                }
                return true;
            }
            assert forall|k: int| 0 <= k < (before + own).len() implies fails_for(
                *predicate,
                #[trigger] (before + own)[k],
            ) by {
                if k >= before.len() {
                    assert(fails_for(*predicate, own[k - before.len()]));
                } else {
                    assert(fails_for(*predicate, before[k]));
                }
            }
            i += 1;
        }
        false
    }
}

impl Selection {
    /// Whether the predicate holds of the element of the selection or of one below it.
    pub fn any_element<F: Fn(&OpPathElement) -> bool>(&self, predicate: &F) -> (r: bool)
        requires
            forall|e: OpPathElement| #[trigger] predicate.requires((&e,)),
        ensures
            r ==> holds_of_one(*predicate, elements_in_selection(self.deep_view())),
            !r ==> holds_of_none(*predicate, elements_in_selection(self.deep_view())),
        decreases self, 0int,
    {
        let element = self.element();
        let ghost all = elements_in_selection(self.deep_view());
        assert(all[0] == element.deep_view());
        if predicate(&element) {
            assert(all.contains(element.deep_view()));
            return true;
        }
        assert(fails_for(*predicate, all[0]));
        if let Some(set) = self.selection_set() {
            let ghost below = elements_in_set(set.deep_view(), set.deep_view().selections.len());
            assert(all =~= seq![element.deep_view()] + below);
            if set.any_element(predicate) {
                proof {
                    let e = choose|e: OpPathElement|
                        below.contains(e.deep_view()) && #[trigger] predicate.ensures((&e,), true);
                    let k = below.index_of(e.deep_view());
                    assert(all[k + 1] == e.deep_view());
                }
                return true;
            }
            assert forall|k: int| 0 <= k < all.len() implies fails_for(
                *predicate,
                #[trigger] all[k],
            ) by {
                if k > 0 {
                    assert(all[k] == below[k - 1]);
                    assert(fails_for(*predicate, below[k - 1]));
                }
            }
        }
        false
    }
}

// The order of selections.

/// The order of two names.
pub open spec fn text_comparison(a: Text, b: Text) -> Comparison {
    if a == b {
        Comparison::Equal
    } else if text_lt(a, b) {
        Comparison::Less
    } else {
        Comparison::Greater
    }
}

/// The order of two lists of directives, given what they are printed as.
pub open spec fn directives_comparison(
    a: InlineFragmentView,
    b: InlineFragmentView,
    a_printed: Text,
    b_printed: Text,
) -> Comparison {
    if directives_match(a.directives, b.directives) {
        Comparison::Equal
    } else if a.directives.len() == 0 {
        Comparison::Less
    } else if b.directives.len() == 0 {
        Comparison::Greater
    } else {
        text_comparison(a_printed, b_printed)
    }
}

/// The order of two selections: fields come first, by name; then fragments with type condition, by
/// its name; then the others. Directives decide where these are the same.
pub open spec fn selection_comparison(
    a: SelectionView,
    b: SelectionView,
    a_printed: Text,
    b_printed: Text,
) -> Comparison {
    match (a, b) {
        (SelectionView::Field { field: f, sub: _ }, SelectionView::Field { field: g, sub: _ }) => {
            text_comparison(response_name(f), response_name(g))
        },
        (SelectionView::Field { field: _, sub: _ }, _) => Comparison::Less,
        (_, SelectionView::Field { field: _, sub: _ }) => Comparison::Greater,
        (
            SelectionView::InlineFragment { fragment: f, set: _ },
            SelectionView::InlineFragment { fragment: g, set: _ },
        ) => match (f.type_condition_position, g.type_condition_position) {
            (Some(x), Some(y)) => if composite_name(x) == composite_name(y) {
                directives_comparison(f, g, a_printed, b_printed)
            } else {
                text_comparison(composite_name(x), composite_name(y))
            },
            (Some(_), None) => Comparison::Less,
            (None, Some(_)) => Comparison::Greater,
            (None, None) => directives_comparison(f, g, a_printed, b_printed),
        },
    }
}

/// The comparison the other way round.
pub open spec fn turned(c: Comparison) -> Comparison {
    match c {
        Comparison::Less => Comparison::Greater,
        Comparison::Equal => Comparison::Equal,
        Comparison::Greater => Comparison::Less,
    }
}

/// Comparing two selections the other way round turns the result.
pub proof fn law_order_of_selections_is_antisymmetric(
    a: SelectionView,
    b: SelectionView,
    a_printed: Text,
    b_printed: Text,
)
    ensures
        selection_comparison(b, a, b_printed, a_printed) == turned(
            selection_comparison(a, b, a_printed, b_printed),
        ),
{
    lemma_text_comparison(a_printed, b_printed);
    match (a, b) {
        (SelectionView::Field { field: f, sub: _ }, SelectionView::Field { field: g, sub: _ }) => {
            lemma_text_comparison(response_name(f), response_name(g));
        },
        (
            SelectionView::InlineFragment { fragment: f, set: _ },
            SelectionView::InlineFragment { fragment: g, set: _ },
        ) => {
            if let Some(x) = f.type_condition_position {
                if let Some(y) = g.type_condition_position {
                    lemma_text_comparison(composite_name(x), composite_name(y));
                }
            }
            if f.directives.len() == 0 && g.directives.len() == 0 {
                assert(f.directives =~= g.directives);
            }
        },
        _ => {},
    }
}

proof fn lemma_text_comparison(a: Text, b: Text)
    ensures
        text_comparison(b, a) == turned(text_comparison(a, b)),
{
    text_order_is_total(a, b);
    text_order_is_strict(a, b);
    text_order_is_strict(b, a);
}

fn compare_texts(a: &str, b: &str) -> (r: Comparison)
    ensures
        r == text_comparison(a@, b@),
{
    if same(a, b) {
        Comparison::Equal
    } else if str_lt(a, b) {
        Comparison::Less
    } else {
        Comparison::Greater
    }
}

fn compare_directives(
    a: &InlineFragmentSelection,
    b: &InlineFragmentSelection,
    a_printed: &str,
    b_printed: &str,
) -> (r: Comparison)
    ensures
        r == directives_comparison(
            a.inline_fragment.deep_view(),
            b.inline_fragment.deep_view(),
            a_printed@,
            b_printed@,
        ),
{
    let x = &a.inline_fragment.directives;
    let y = &b.inline_fragment.directives;
    if same_directives(x, y) {
        Comparison::Equal
    } else if x.len() == 0 {
        Comparison::Less
    } else if y.len() == 0 {
        Comparison::Greater
    } else {
        compare_texts(a_printed, b_printed)
    }
}

impl Selection {
    /// The order of two selections, given what their directives are printed as.
    pub fn compare(&self, other: &Selection, own_directives: &str, other_directives: &str) -> (r:
        Comparison)
        ensures
            r == selection_comparison(
                self.deep_view(),
                other.deep_view(),
                own_directives@,
                other_directives@,
            ),
    {
        match (self, other) {
            (Selection::Field(f), Selection::Field(g)) => compare_texts(
                f.field.response_name(),
                g.field.response_name(),
            ),
            (Selection::Field(_), Selection::InlineFragment(_)) => Comparison::Less,
            (Selection::InlineFragment(_), Selection::Field(_)) => Comparison::Greater,
            (Selection::InlineFragment(f), Selection::InlineFragment(g)) => {
                match (
                    &f.inline_fragment.type_condition_position,
                    &g.inline_fragment.type_condition_position,
                ) {
                    (Some(x), Some(y)) => if same(x.name(), y.name()) {
                        compare_directives(f, g, own_directives, other_directives)
                    } else {
                        compare_texts(x.name(), y.name())
                    },
                    (Some(_), None) => Comparison::Less,
                    (None, Some(_)) => Comparison::Greater,
                    (None, None) => compare_directives(f, g, own_directives, other_directives),
                }
            },
        }
    }
}

} // verus!
