//! Selections and sets of selections.

use crate::operation::equality::same_arguments;
use crate::operation::field_key;
use crate::operation::fragment_key;
use crate::operation::Field;
use crate::operation::FieldElementView;
use crate::operation::InlineFragment;
use crate::operation::InlineFragmentView;
use crate::operation::SelectionKeyView;
use crate::schema::position::CompositeTypeDefinitionPosition;
use crate::schema::position::CompositeView;
use crate::schema::Schema;
use crate::schema::SchemaView;
use crate::text::same;
use std::sync::Arc;
use vstd::prelude::*;

verus! {

/// A set of selections on a type, in order; the keys of the selections differ.
pub struct SelectionSet {
    pub schema: Arc<Schema>,
    pub type_position: CompositeTypeDefinitionPosition,
    pub selections: Vec<Selection>,
}

/// A field or fragment with its selections.
pub enum Selection {
    Field(FieldSelection),
    InlineFragment(InlineFragmentSelection),
}

/// A field with its selections, if its type has any.
pub struct FieldSelection {
    pub field: Field,
    pub selection_set: Option<SelectionSet>,
}

/// An inline fragment with its selections.
pub struct InlineFragmentSelection {
    pub inline_fragment: InlineFragment,
    pub selection_set: SelectionSet,
}

/// The mathematical content of a [`SelectionSet`].
#[verifier::ext_equal]
pub struct SelectionSetView {
    pub schema: SchemaView,
    pub type_position: CompositeView,
    pub selections: Seq<SelectionView>,
}

/// The mathematical content of a [`Selection`].
#[verifier::ext_equal]
pub enum SelectionView {
    Field { field: FieldElementView, sub: Option<SelectionSetView> },
    InlineFragment { fragment: InlineFragmentView, set: SelectionSetView },
}

/// The content of a set of selections.
pub open spec fn set_view(set: SelectionSet) -> SelectionSetView
    decreases set,
{
    SelectionSetView {
        schema: set.schema.deep_view(),
        type_position: set.type_position.deep_view(),
        selections: Seq::new(
            set.selections@.len(),
            |i: int|
                if 0 <= i < set.selections@.len() {
                    selection_view(set.selections@[i])
                } else {
                    arbitrary()
                },
        ),
    }
}

/// The content of a selection.
pub open spec fn selection_view(selection: Selection) -> SelectionView
    decreases selection,
{
    match selection {
        Selection::Field(f) => SelectionView::Field {
            field: f.field.deep_view(),
            sub: match f.selection_set {
                Some(set) => Some(set_view(set)),
                None => None,
            },
        },
        Selection::InlineFragment(f) => SelectionView::InlineFragment {
            fragment: f.inline_fragment.deep_view(),
            set: set_view(f.selection_set),
        },
    }
}

impl DeepView for SelectionSet {
    type V = SelectionSetView;

    open spec fn deep_view(&self) -> SelectionSetView {
        set_view(*self)
    }
}

impl DeepView for Selection {
    type V = SelectionView;

    open spec fn deep_view(&self) -> SelectionView {
        selection_view(*self)
    }
}

/// The content of a list of selections.
pub open spec fn selections_view(selections: Seq<Selection>) -> Seq<SelectionView> {
    Seq::new(selections.len(), |i: int| selection_view(selections[i]))
}

/// The content of a set, in terms of its selections.
pub proof fn lemma_set_view(set: SelectionSet)
    ensures
        set.deep_view() == (SelectionSetView {
            schema: set.schema.deep_view(),
            type_position: set.type_position.deep_view(),
            selections: selections_view(set.selections@),
        }),
{
    assert(set_view(set).selections =~= selections_view(set.selections@));
}

impl Clone for SelectionSet {
    fn clone(&self) -> (r: Self)
        ensures
            r.deep_view() == self.deep_view(),
        decreases self,
    {
        let mut selections: Vec<Selection> = Vec::new();
        let mut i: usize = 0;
        while i < self.selections.len()
            invariant
                i <= self.selections.len(),
                selections@.len() == i,
                forall|j: int|
                    0 <= j < i ==> selection_view(#[trigger] selections@[j]) == selection_view(
                        self.selections@[j],
                    ),
            decreases self.selections.len() - i,
        {
            assert(decreases_to!(*self => self.selections));
            assert(decreases_to!(self.selections@ => self.selections@[i as int]));
            selections.push(self.selections[i].clone());
            i += 1;
        }
        let r = SelectionSet {
            schema: self.schema.clone(),
            type_position: self.type_position.clone(),
            selections,
        };
        assert(set_view(r).selections =~= set_view(*self).selections);
        r
    }
}

impl Clone for Selection {
    fn clone(&self) -> (r: Self)
        ensures
            r.deep_view() == self.deep_view(),
        decreases self,
    {
        match self {
            Selection::Field(f) => {
                let selection_set = match &f.selection_set {
                    Some(set) => Some(set.clone()),
                    None => None,
                };
                Selection::Field(FieldSelection { field: f.field.clone(), selection_set })
            },
            Selection::InlineFragment(f) => Selection::InlineFragment(
                InlineFragmentSelection {
                    inline_fragment: f.inline_fragment.clone(),
                    selection_set: f.selection_set.clone(),
                },
            ),
        }
    }
}

/// The key of a selection.
pub open spec fn selection_key(selection: SelectionView) -> SelectionKeyView {
    match selection {
        SelectionView::Field { field, sub } => field_key(field),
        SelectionView::InlineFragment { fragment, set } => fragment_key(fragment),
    }
}

/// Whether one of the selections has the given key.
pub open spec fn has_selection(selections: Seq<SelectionView>, key: SelectionKeyView) -> bool {
    exists|i: int| 0 <= i < selections.len() && selection_key(#[trigger] selections[i]) == key
}

/// Where the first selection of the given key is, or where one would be added.
pub open spec fn selection_index(selections: Seq<SelectionView>, key: SelectionKeyView) -> int
    decreases selections.len(),
{
    if selections.len() == 0 {
        0
    } else if selection_key(selections[0]) == key {
        0
    } else {
        1 + selection_index(selections.drop_first(), key)
    }
}

/// The selections with one more: in the place of the one with its key, or at the end.
pub open spec fn put_selection(selections: Seq<SelectionView>, new: SelectionView) -> Seq<
    SelectionView,
> {
    let i = selection_index(selections, selection_key(new));
    if i < selections.len() {
        selections.update(i, new)
    } else {
        selections.push(new)
    }
}

pub proof fn lemma_selection_index(selections: Seq<SelectionView>, key: SelectionKeyView)
    ensures
        0 <= selection_index(selections, key) <= selections.len(),
        selection_index(selections, key) < selections.len() ==> selection_key(
            selections[selection_index(selections, key)],
        ) == key,
        forall|j: int|
            0 <= j < selection_index(selections, key) ==> selection_key(
                #[trigger] selections[j],
            ) != key,
        has_selection(selections, key) == (selection_index(selections, key) < selections.len()),
    decreases selections.len(),
{
    if selections.len() > 0 && selection_key(selections[0]) != key {
        let rest = selections.drop_first();
        lemma_selection_index(rest, key);
        let i = selection_index(selections, key);
        assert forall|j: int| 0 <= j < i implies selection_key(#[trigger] selections[j]) != key by {
            if j > 0 {
                assert(rest[j - 1] == selections[j]);
            }
        }
        if i < selections.len() {
            assert(rest[i - 1] == selections[i]);
        }
    }
}

impl Selection {
    /// Whether two selections have the same key.
    pub fn same_key(&self, other: &Self) -> (r: bool)
        ensures
            r == (selection_key(self.deep_view()) == selection_key(other.deep_view())),
    {
        match (self, other) {
            (Selection::Field(a), Selection::Field(b)) => a.field.same_key(&b.field),
            (Selection::InlineFragment(a), Selection::InlineFragment(b)) => {
                a.inline_fragment.same_key(&b.inline_fragment)
            },
            _ => false,
        }
    }
}

/// Where the first selection with the key of `like` is, or the length.
pub fn find_selection(selections: &Vec<Selection>, like: &Selection) -> (r: usize)
    ensures
        r == selection_index(selections_view(selections@), selection_key(like.deep_view())),
        r <= selections.len(),
{
    let ghost all = selections_view(selections@);
    let ghost key = selection_key(like.deep_view());
    let mut i: usize = 0;
    assert(all.skip(0) =~= all);
    while i < selections.len()
        invariant
            i <= selections.len(),
            all == selections_view(selections@),
            key == selection_key(like.deep_view()),
            selection_index(all, key) == i + selection_index(all.skip(i as int), key),
        decreases selections.len() - i,
    {
        assert(all.skip(i as int)[0] == selections@[i as int].deep_view());
        assert(all.skip(i as int).drop_first() =~= all.skip(i + 1));
        if selections[i].same_key(like) {
            return i;
        }
        i += 1;
    }
    assert(all.skip(i as int).len() == 0);
    i
}

/// Adds a selection: in the place of the one with its key, or at the end.
pub fn insert_selection(selections: &mut Vec<Selection>, new: Selection)
    ensures
        selections_view(final(selections)@) == put_selection(
            selections_view(old(selections)@),
            new.deep_view(),
        ),
{
    let i = find_selection(selections, &new);
    if i < selections.len() {
        selections.set(i, new);
    } else {
        selections.push(new);
    }
    assert(selections_view(selections@) =~= put_selection(
        selections_view(old(selections)@),
        new.deep_view(),
    ));
}

/// A set without selections.
pub open spec fn empty_set(schema: SchemaView, type_position: CompositeView) -> SelectionSetView {
    SelectionSetView { schema, type_position, selections: Seq::empty() }
}

impl SelectionSet {
    /// A set without selections.
    pub fn empty(schema: Arc<Schema>, type_position: CompositeTypeDefinitionPosition) -> (r: Self)
        ensures
            r.deep_view() == empty_set(schema.deep_view(), type_position.deep_view()),
    {
        let r = SelectionSet { schema, type_position, selections: Vec::new() };
        assert(r.deep_view().selections =~= Seq::empty());
        r
    }

    /// Whether there is no selection.
    pub fn is_empty(&self) -> (r: bool)
        ensures
            r == (self.deep_view().selections.len() == 0),
    {
        self.selections.len() == 0
    }
}

/// Whether two fields ask for the same thing: the same field with the same arguments under the
/// same key.
pub open spec fn same_field_spec(a: FieldElementView, b: FieldElementView) -> bool {
    a.field_position.field_name == b.field_position.field_name && field_key(a) == field_key(b)
        && a.arguments == b.arguments
}

impl Field {
    /// Whether two fields ask for the same thing.
    pub fn same_as(&self, other: &Self) -> (r: bool)
        ensures
            r == same_field_spec(self.deep_view(), other.deep_view()),
    {
        same(self.name(), other.name()) && self.same_key(other) && same_arguments(
            &self.arguments,
            &other.arguments,
        )
    }
}

/// Whether a set selects the given field at its top.
pub open spec fn contains_field(set: SelectionSetView, field: FieldElementView) -> bool {
    let i = selection_index(set.selections, field_key(field));
    i < set.selections.len() && match set.selections[i] {
        SelectionView::Field { field: f, sub } => same_field_spec(f, field),
        _ => false,
    }
}

impl SelectionSet {
    /// Whether the set selects the given field at its top.
    pub fn contains_top_level_field(&self, field: &Field) -> (r: bool)
        ensures
            r == contains_field(self.deep_view(), field.deep_view()),
    {
        proof {
            lemma_set_view(*self);
        }
        let like = Selection::Field(FieldSelection { field: field.clone(), selection_set: None });
        let i = find_selection(&self.selections, &like);
        if i < self.selections.len() {
            assert(self.deep_view().selections[i as int] == self.selections@[i as int].deep_view());
            match &self.selections[i] {
                Selection::Field(f) => f.field.same_as(field),
                Selection::InlineFragment(_) => false,
            }
        } else {
            false
        }
    }
}

/// Whether two sets select the same things, whatever the order.
pub open spec fn sets_match(a: SelectionSetView, b: SelectionSetView) -> bool
    decreases a, 0int,
{
    a.selections.len() == b.selections.len() && forall|i: int|
        0 <= i < a.selections.len() ==> has_match(#[trigger] a.selections[i], b.selections)
}

/// Whether the selection with the same key selects the same things.
pub open spec fn has_match(a: SelectionView, selections: Seq<SelectionView>) -> bool
    decreases a, 1int,
{
    let j = selection_index(selections, selection_key(a));
    j < selections.len() && selections_match(a, selections[j])
}

/// Whether two selections select the same things.
pub open spec fn selections_match(a: SelectionView, b: SelectionView) -> bool
    decreases a, 0int,
{
    match (a, b) {
        (SelectionView::Field { field: f, sub: s }, SelectionView::Field { field: g, sub: t }) => {
            same_field_spec(f, g) && match (s, t) {
                (Some(x), Some(y)) => sets_match(x, y),
                (None, None) => true,
                _ => false,
            }
        },
        (
            SelectionView::InlineFragment { fragment: f, set: s },
            SelectionView::InlineFragment { fragment: g, set: t },
        ) => fragment_key(f) == fragment_key(g) && sets_match(s, t),
        _ => false,
    }
}

impl SelectionSet {
    /// Whether two sets select the same things, whatever the order.
    pub fn same_as(&self, other: &Self) -> (r: bool)
        ensures
            r == sets_match(self.deep_view(), other.deep_view()),
        decreases self,
    {
        proof {
            lemma_set_view(*self);
            lemma_set_view(*other);
        }
        let ghost a = self.deep_view().selections;
        let ghost b = other.deep_view().selections;
        if self.selections.len() != other.selections.len() {
            return false;
        }
        let mut i: usize = 0;
        while i < self.selections.len()
            invariant
                i <= self.selections.len(),
                self.selections.len() == other.selections.len(),
                a == selections_view(self.selections@),
                b == selections_view(other.selections@),
                a == self.deep_view().selections,
                b == other.deep_view().selections,
                forall|k: int| 0 <= k < i ==> has_match(#[trigger] a[k], b),
            decreases self.selections.len() - i,
        {
            assert(decreases_to!(*self => self.selections));
            assert(decreases_to!(self.selections@ => self.selections@[i as int]));
            assert(a[i as int] == self.selections@[i as int].deep_view());
            let j = find_selection(&other.selections, &self.selections[i]);
            if j >= other.selections.len() {
                assert(!has_match(a[i as int], b));
                return false;
            }
            assert(b[j as int] == other.selections@[j as int].deep_view());
            if !self.selections[i].same_as(&other.selections[j]) {
                assert(!has_match(a[i as int], b));
                return false;
            }
            i += 1;
        }
        true
    }
}

impl Selection {
    /// Whether two selections select the same things.
    pub fn same_as(&self, other: &Self) -> (r: bool)
        ensures
            r == selections_match(self.deep_view(), other.deep_view()),
        decreases self,
    {
        match (self, other) {
            (Selection::Field(f), Selection::Field(g)) => f.field.same_as(&g.field) && match (
                &f.selection_set,
                &g.selection_set,
            ) {
                (Some(x), Some(y)) => x.same_as(y),
                (None, None) => true,
                _ => false,
            },
            (Selection::InlineFragment(f), Selection::InlineFragment(g)) => {
                f.inline_fragment.same_key(&g.inline_fragment) && f.selection_set.same_as(
                    &g.selection_set,
                )
            },
            _ => false,
        }
    }
}

} // verus!
