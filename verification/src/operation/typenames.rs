//! `__typename` in selections: taking it out beside other fields, and adding it on abstract types.

use crate::collections::NameSet;
use crate::operation::introspection_typename;
use crate::operation::is_plain_typename;
use crate::operation::selection::find_selection;
use crate::operation::selection::insert_selection;
use crate::operation::selection::lemma_set_view;
use crate::operation::selection::put_selection;
use crate::operation::selection::selections_view;
use crate::operation::selection::selection_index;
use crate::operation::selection::selection_key;
use crate::operation::selection::selection_view;
use crate::operation::selection::sets_match;
use crate::operation::selection::FieldSelection;
use crate::operation::selection::InlineFragmentSelection;
use crate::operation::selection::Selection;
use crate::operation::selection::SelectionSet;
use crate::operation::selection::SelectionSetView;
use crate::operation::selection::SelectionView;
use crate::operation::typename_field;
use crate::operation::Field;
use crate::operation::FieldElementView;
use crate::operation::SiblingTypename;
use crate::operation::SiblingView;
use crate::schema::position::composite_name;
use crate::schema::position::CompositeTypeDefinitionPosition;
use crate::schema::position::CompositeView;
use crate::text::same;
use crate::text::Text;
use vstd::prelude::*;

verus! {

/// Whether a selection is a field.
pub open spec fn is_field(selection: SelectionView) -> bool {
    selection is Field
}

/// Whether a selection is a plain `__typename`.
pub open spec fn is_typename(selection: SelectionView) -> bool {
    match selection {
        SelectionView::Field { field, sub } => is_plain_typename(field),
        SelectionView::InlineFragment { fragment, set } => false,
    }
}

/// The first index from `from` on that has the property, but is not the given one.
pub open spec fn first_index(
    selections: Seq<SelectionView>,
    wanted: spec_fn(SelectionView) -> bool,
    except: Option<int>,
    from: nat,
) -> Option<int>
    decreases selections.len() - from,
{
    if from >= selections.len() {
        None
    } else if wanted(selections[from as int]) && except != Some(from as int) {
        Some(from as int)
    } else {
        first_index(selections, wanted, except, from + 1)
    }
}

/// The `__typename` that is taken out of a set: there is none where an interface object may stand
/// for the type.
pub open spec fn typename_index(set: SelectionSetView, interfaces: Seq<Text>) -> Option<int> {
    if interfaces.contains(composite_name(set.type_position)) {
        None
    } else {
        first_index(set.selections, |s: SelectionView| is_typename(s), None, 0)
    }
}

/// The field that remembers the `__typename` that was taken out.
pub open spec fn sibling_index(set: SelectionSetView, interfaces: Seq<Text>) -> Option<int> {
    first_index(
        set.selections,
        |s: SelectionView| is_field(s),
        typename_index(set, interfaces),
        0,
    )
}

/// How a `__typename` is remembered.
pub open spec fn remembered_typename(selection: SelectionView) -> SiblingView {
    match selection {
        SelectionView::Field { field, sub } => match field.alias {
            Some(alias) => SiblingView::Aliased(alias),
            None => SiblingView::Unaliased,
        },
        SelectionView::InlineFragment { fragment, set } => SiblingView::Unaliased,
    }
}

/// A field that remembers a `__typename`.
pub open spec fn remembering(selection: SelectionView, sibling: SiblingView) -> SelectionView {
    match selection {
        SelectionView::Field { field, sub } => SelectionView::Field {
            field: FieldElementView { sibling_typename: Some(sibling), ..field },
            sub,
        },
        SelectionView::InlineFragment { fragment, set } => selection,
    }
}

/// A set in which a `__typename` beside other fields is taken out and remembered by one of them, at
/// any depth.
pub open spec fn without_sibling_typenames(set: SelectionSetView, interfaces: Seq<Text>) -> SelectionSetView
    decreases set, 1nat,
{
    let below = Seq::new(
        set.selections.len(),
        |i: int|
            if 0 <= i < set.selections.len() {
                selection_without_siblings(set.selections[i], interfaces)
            } else {
                arbitrary()
            },
    );
    let selections = match (typename_index(set, interfaces), sibling_index(set, interfaces)) {
        (Some(t), Some(s)) => below.update(
            s,
            remembering(below[s], remembered_typename(below[t])),
        ).remove(t),
        _ => below,
    };
    SelectionSetView { selections, ..set }
}

/// A selection in which this is done at any depth.
pub open spec fn selection_without_siblings(selection: SelectionView, interfaces: Seq<Text>) -> SelectionView
    decreases selection, 2nat,
{
    match selection {
        SelectionView::Field { field, sub } => SelectionView::Field {
            field,
            sub: match sub {
                Some(set) => Some(without_sibling_typenames(set, interfaces)),
                None => None,
            },
        },
        SelectionView::InlineFragment { fragment, set } => SelectionView::InlineFragment {
            fragment,
            set: without_sibling_typenames(set, interfaces),
        },
    }
}

fn find_typename(selections: &Vec<Selection>) -> (r: Option<usize>)
    ensures
        match r {
            Some(i) => first_index(
                selections_view(selections@),
                |s: SelectionView| is_typename(s),
                None,
                0,
            ) == Some(i as int) && i < selections@.len(),
            None => first_index(
                selections_view(selections@),
                |s: SelectionView| is_typename(s),
                None,
                0,
            ) is None,
        },
{
    let ghost all = selections_view(selections@);
    let ghost wanted = |s: SelectionView| is_typename(s);
    let mut i: usize = 0;
    while i < selections.len()
        invariant
            i <= selections@.len(),
            all == selections_view(selections@),
            wanted == (|s: SelectionView| is_typename(s)),
            first_index(all, wanted, None, 0) == first_index(all, wanted, None, i as nat),
        decreases selections@.len() - i,
    {
        assert(all[i as int] == selections@[i as int].deep_view());
        let is = match &selections[i] {
            Selection::Field(field) => field.field.is_plain_typename_field(),
            Selection::InlineFragment(_) => false,
        };
        assert(is == wanted(all[i as int]));
        if is {
            return Some(i);
        }
        i += 1;
    }
    None
}

fn find_sibling(selections: &Vec<Selection>, except: Option<usize>) -> (r: Option<usize>)
    ensures
        ({
            let found = first_index(
                selections_view(selections@),
                |s: SelectionView| is_field(s),
                match except {
                    Some(i) => Some(i as int),
                    None => None,
                },
                0,
            );
            match r {
                Some(i) => found == Some(i as int) && i < selections@.len() && except != Some(i),
                None => found is None,
            }
        }),
{
    let ghost all = selections_view(selections@);
    let ghost wanted = |s: SelectionView| is_field(s);
    let ghost left_out = match except {
        Some(i) => Some(i as int),
        None => None,
    };
    let mut i: usize = 0;
    while i < selections.len()
        invariant
            i <= selections@.len(),
            all == selections_view(selections@),
            wanted == (|s: SelectionView| is_field(s)),
            left_out == (match except {
                Some(i) => Some(i as int),
                None => None,
            }),
            first_index(all, wanted, left_out, 0) == first_index(all, wanted, left_out, i as nat),
        decreases selections@.len() - i,
    {
        assert(all[i as int] == selections@[i as int].deep_view());
        let is = match &selections[i] {
            Selection::Field(_) => true,
            Selection::InlineFragment(_) => false,
        };
        assert(is == wanted(all[i as int]));
        let excepted = match except {
            Some(j) => i == j,
            None => false,
        };
        if is && !excepted {
            return Some(i);
        }
        i += 1;
    }
    None
}

impl SelectionSet {
    /// Takes a `__typename` beside other fields out, at any depth; one of the other fields
    /// remembers it. A `__typename` on its own stays, and so does one on a type that an interface
    /// object may stand for.
    pub fn optimize_sibling_typenames(
        &mut self,
        interface_types_with_interface_objects: &NameSet,
    )
        ensures
            final(self).deep_view() == without_sibling_typenames(
                old(self).deep_view(),
                interface_types_with_interface_objects.deep_view(),
            ),
    {
        let optimized = self.sibling_typenames_optimized(interface_types_with_interface_objects);
        *self = optimized;
    }

    fn sibling_typenames_optimized(&self, interfaces: &NameSet) -> (r: SelectionSet)
        ensures
            r.deep_view() == without_sibling_typenames(self.deep_view(), interfaces.deep_view()),
        decreases self, 1int,
    {
        proof {
            lemma_set_view(*self);
        }
        let ghost all = self.deep_view();
        let ghost names = interfaces.deep_view();
        let typename = if interfaces.contains(self.type_position.name()) {
            None
        } else {
            find_typename(&self.selections)
        };
        let sibling = find_sibling(&self.selections, typename);
        let mut selections: Vec<Selection> = Vec::new();
        let mut i: usize = 0;
        while i < self.selections.len()
            invariant
                i <= self.selections@.len(),
                names == interfaces.deep_view(),
                selections@.len() == i,
                forall|j: int|
                    0 <= j < i ==> selection_view(#[trigger] selections@[j])
                        == selection_without_siblings(selection_view(self.selections@[j]), names),
            decreases self.selections@.len() - i,
        {
            assert(decreases_to!(*self => self.selections));
            assert(decreases_to!(self.selections@ => self.selections@[i as int]));
            selections.push(self.selections[i].sibling_typenames_optimized(interfaces));
            i += 1;
        }
        let ghost below = Seq::new(
            all.selections.len(),
            |i: int|
                if 0 <= i < all.selections.len() {
                    selection_without_siblings(all.selections[i], names)
                } else {
                    arbitrary()
                },
        );
        assert(selections_view(selections@) =~= below);
        if let Some(t) = typename {
            if let Some(s) = sibling {
                let remembered = match &selections[t] {
                    Selection::Field(field) => match &field.field.alias {
                        Some(alias) => SiblingTypename::Aliased(alias.clone()),
                        None => SiblingTypename::Unaliased,
                    },
                    Selection::InlineFragment(_) => SiblingTypename::Unaliased,
                };
                assert(below[t as int] == selections@[t as int].deep_view());
                assert(below[s as int] == selections@[s as int].deep_view());
                let mut tagged = selections[s].clone();
                let ghost before = tagged.deep_view();
                let ghost sibling_view = remembered.deep_view();
                if let Selection::Field(field) = &mut tagged {
                    field.field.sibling_typename = Some(remembered);
                }
                assert(tagged.deep_view() =~= remembering(before, sibling_view));
                selections.set(s, tagged);
                selections.remove(t);
                assert(selections_view(selections@) =~= below.update(
                    s as int,
                    remembering(before, sibling_view),
                ).remove(t as int));
            }
        }
        let r = SelectionSet {
            schema: self.schema.clone(),
            type_position: self.type_position.clone(),
            selections,
        };
        proof {
            lemma_set_view(r);
            let expected = without_sibling_typenames(all, names);
            assert(r.deep_view().selections =~= expected.selections);
        }
        r
    }
}

impl Selection {
    fn sibling_typenames_optimized(&self, interfaces: &NameSet) -> (r: Selection)
        ensures
            r.deep_view() == selection_without_siblings(self.deep_view(), interfaces.deep_view()),
        decreases self, 2int,
    {
        match self {
            Selection::Field(f) => {
                let selection_set = match &f.selection_set {
                    Some(set) => Some(set.sibling_typenames_optimized(interfaces)),
                    None => None,
                };
                Selection::Field(FieldSelection { field: f.field.clone(), selection_set })
            },
            Selection::InlineFragment(f) => Selection::InlineFragment(
                InlineFragmentSelection {
                    inline_fragment: f.inline_fragment.clone(),
                    selection_set: f.selection_set.sibling_typenames_optimized(interfaces),
                },
            ),
        }
    }
}

/// The selections among the first `n` that are not `__typename`, under whatever name.
pub open spec fn without_typenames(selections: Seq<SelectionView>, n: nat) -> Seq<SelectionView>
    decreases n,
{
    if n == 0 {
        Seq::empty()
    } else {
        let before = without_typenames(selections, (n - 1) as nat);
        match selections[n - 1] {
            SelectionView::Field { field, sub } => if field.field_position.field_name
                == typename_field() {
                before
            } else {
                before.push(selections[n - 1])
            },
            SelectionView::InlineFragment { fragment, set } => before.push(selections[n - 1]),
        }
    }
}

/// Takes `__typename` out of the top of a set: there it need not be asked of a subgraph.
pub fn remove_introspection(selection_set: &mut SelectionSet)
    ensures
        final(selection_set).deep_view() == (SelectionSetView {
            selections: without_typenames(
                old(selection_set).deep_view().selections,
                old(selection_set).deep_view().selections.len(),
            ),
            ..old(selection_set).deep_view()
        }),
{
    proof {
        lemma_set_view(*selection_set);
    }
    let ghost start = selection_set.deep_view();
    let ghost all = start.selections;
    let mut kept: Vec<Selection> = Vec::new();
    assert(selections_view(kept@) =~= Seq::empty());
    let mut i: usize = 0;
    while i < selection_set.selections.len()
        invariant
            i <= selection_set.selections@.len(),
            all == selections_view(selection_set.selections@),
            selection_set.schema == old(selection_set).schema,
            selection_set.type_position == old(selection_set).type_position,
            start == old(selection_set).deep_view(),
            all == start.selections,
            selections_view(kept@) == without_typenames(all, i as nat),
        decreases selection_set.selections@.len() - i,
    {
        let selection = &selection_set.selections[i];
        assert(all[i as int] == selection.deep_view());
        let ghost before = selections_view(kept@);
        let leaves = match selection {
            Selection::Field(field) => same(field.field.name(), "__typename"),
            Selection::InlineFragment(_) => false,
        };
        if !leaves {
            kept.push(selection.clone());
            assert(selections_view(kept@) =~= before.push(all[i as int]));
        }
        i += 1;
    }
    selection_set.selections = kept;
    proof {
        lemma_set_view(*selection_set);
    }
}

/// A type, if it is abstract.
pub open spec fn if_abstract(position: Option<CompositeView>) -> Option<CompositeView> {
    match position {
        Some(CompositeView::Interface(name)) => Some(CompositeView::Interface(name)),
        Some(CompositeView::Union(name)) => Some(CompositeView::Union(name)),
        _ => None,
    }
}

/// The selection of `__typename` on a type.
pub open spec fn typename_selection(
    set: SelectionSetView,
    parent: CompositeView,
    alias: Option<Text>,
) -> SelectionView {
    SelectionView::Field { field: introspection_typename(set.schema, parent, alias), sub: None }
}

/// A set with `__typename` on every abstract type at any depth; on its own type if that is said to
/// be abstract.
pub open spec fn with_typenames(set: SelectionSetView, parent: Option<CompositeView>) -> SelectionSetView
    decreases set, 1nat, 0nat,
{
    SelectionSetView {
        selections: selections_with_typenames(set, parent, set.selections.len()),
        ..set
    }
}

/// The `__typename` that a set starts with.
pub open spec fn typename_start(set: SelectionSetView, parent: Option<CompositeView>) -> Seq<
    SelectionView,
> {
    match parent {
        Some(position) => {
            let own = typename_selection(set, position, None);
            if selection_index(set.selections, selection_key(own)) < set.selections.len() {
                Seq::empty()
            } else {
                seq![own]
            }
        },
        None => Seq::empty(),
    }
}

/// The first `n` selections of a set behind its `__typename`.
pub open spec fn selections_with_typenames(
    set: SelectionSetView,
    parent: Option<CompositeView>,
    n: nat,
) -> Seq<SelectionView>
    decreases set, 0nat, n,
{
    if n == 0 || n > set.selections.len() {
        typename_start(set, parent)
    } else {
        put_selection(
            selections_with_typenames(set, parent, (n - 1) as nat),
            selection_with_typenames(set.selections[n - 1]),
        )
    }
}

/// A selection with `__typename` on every abstract type at any depth.
pub open spec fn selection_with_typenames(selection: SelectionView) -> SelectionView
    decreases selection, 2nat, 0nat,
{
    match selection {
        SelectionView::Field { field, sub } => match sub {
            None => selection,
            Some(set) => {
                let updated = with_typenames(set, if_abstract(Some(set.type_position)));
                if sets_match(updated, set) {
                    selection
                } else {
                    SelectionView::Field { field, sub: Some(updated) }
                }
            },
        },
        SelectionView::InlineFragment { fragment, set } => {
            let updated = with_typenames(set, if_abstract(fragment.type_condition_position));
            if sets_match(updated, set) {
                selection
            } else {
                SelectionView::InlineFragment { fragment, set: updated }
            }
        },
    }
}

fn abstract_position(position: &Option<CompositeTypeDefinitionPosition>) -> (r: Option<
    CompositeTypeDefinitionPosition,
>)
    ensures
        r.deep_view() == if_abstract(position.deep_view()),
{
    match position {
        Some(CompositeTypeDefinitionPosition::Interface(name)) => Some(
            CompositeTypeDefinitionPosition::Interface(name.clone()),
        ),
        Some(CompositeTypeDefinitionPosition::Union(name)) => Some(
            CompositeTypeDefinitionPosition::Union(name.clone()),
        ),
        _ => None,
    }
}

impl SelectionSet {
    /// The set with `__typename` on every abstract type at any depth; on its own type if that is
    /// said to be abstract.
    pub fn add_typename_field_for_abstract_types(
        &self,
        parent_type_if_abstract: &Option<CompositeTypeDefinitionPosition>,
    ) -> (r: SelectionSet)
        ensures
            r.deep_view() == with_typenames(
                self.deep_view(),
                parent_type_if_abstract.deep_view(),
            ),
        decreases self, 1int,
    {
        proof {
            lemma_set_view(*self);
        }
        let ghost all = self.deep_view();
        let ghost p = parent_type_if_abstract.deep_view();
        let mut selections: Vec<Selection> = Vec::new();
        if let Some(parent) = parent_type_if_abstract {
            let own = Selection::Field(
                FieldSelection {
                    field: Field::new_introspection_typename(&self.schema, parent, None),
                    selection_set: None,
                },
            );
            let ghost view = own.deep_view();
            if find_selection(&self.selections, &own) >= self.selections.len() {
                selections.push(own);
                assert(selections_view(selections@) =~= seq![view]);
            }
        }
        assert(selections_view(selections@) =~= typename_start(all, p));
        let mut i: usize = 0;
        while i < self.selections.len()
            invariant
                i <= self.selections@.len(),
                all == self.deep_view(),
                all.selections == selections_view(self.selections@),
                p == parent_type_if_abstract.deep_view(),
                selections_view(selections@) == selections_with_typenames(all, p, i as nat),
            decreases self.selections@.len() - i,
        {
            assert(decreases_to!(*self => self.selections));
            assert(decreases_to!(self.selections@ => self.selections@[i as int]));
            assert(all.selections[i as int] == self.selections@[i as int].deep_view());
            insert_selection(&mut selections, self.selections[i].with_typenames_added());
            i += 1;
        }
        let r = SelectionSet {
            schema: self.schema.clone(),
            type_position: self.type_position.clone(),
            selections,
        };
        proof {
            lemma_set_view(r);
        }
        r
    }
}

impl Selection {
    fn with_typenames_added(&self) -> (r: Selection)
        ensures
            r.deep_view() == selection_with_typenames(self.deep_view()),
        decreases self, 2int,
    {
        match self {
            Selection::Field(f) => match &f.selection_set {
                None => self.clone(),
                Some(set) => {
                    let ty = abstract_position(&Some(set.type_position.clone()));
                    let updated = set.add_typename_field_for_abstract_types(&ty);
                    if updated.same_as(set) {
                        self.clone()
                    } else {
                        Selection::Field(
                            FieldSelection { field: f.field.clone(), selection_set: Some(updated) },
                        )
                    }
                },
            },
            Selection::InlineFragment(f) => {
                let ty = abstract_position(&f.inline_fragment.type_condition_position);
                let updated = f.selection_set.add_typename_field_for_abstract_types(&ty);
                if updated.same_as(&f.selection_set) {
                    self.clone()
                } else {
                    Selection::InlineFragment(
                        InlineFragmentSelection {
                            inline_fragment: f.inline_fragment.clone(),
                            selection_set: updated,
                        },
                    )
                }
            },
        }
    }
}

} // verus!
