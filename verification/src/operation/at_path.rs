//! Adding selections below a path.

use crate::error::internal_error;
use crate::error::result_view;
use crate::error::ErrorView;
use crate::error::FederationError;
use crate::operation::merging::add_selection;
use crate::operation::merging::as_set;
use crate::operation::merging::changed_to;
use crate::operation::merging::with_selection;
use crate::operation::rebase::rebased_element;
use crate::operation::rebase::rebased_selection;
use crate::operation::selection::empty_set;
use crate::operation::selection::find_selection;
use crate::operation::selection::lemma_set_view;
use crate::operation::selection::selections_view;
use crate::operation::selection::selection_index;
use crate::operation::selection::selection_key;
use crate::operation::selection::FieldSelection;
use crate::operation::selection::InlineFragmentSelection;
use crate::operation::selection::Selection;
use crate::operation::selection::SelectionSet;
use crate::operation::selection::SelectionSetView;
use crate::operation::selection::SelectionView;
use crate::operation::InlineFragmentView;
use crate::query_graph::elements::element_is_terminal;
use crate::query_graph::elements::sub_selection_type;
use crate::query_graph::elements::ElementView;
use crate::query_graph::elements::OpPathElement;
use crate::schema::position::composite_name;
use crate::schema::position::subtype;
use crate::schema::position::CompositeTypeDefinitionPosition;
use crate::schema::position::CompositeView;
use crate::schema::Schema;
use crate::schema::SchemaView;
use crate::text::same;
use std::sync::Arc;
use vstd::prelude::*;

verus! {

/// A selection of an element with what is below it.
pub open spec fn selection_of(element: ElementView, sub: Option<SelectionSetView>) -> Result<
    SelectionView,
    ErrorView,
> {
    match element {
        ElementView::Field(field) => Ok(SelectionView::Field { field, sub }),
        ElementView::InlineFragment(fragment) => match sub {
            Some(set) => Ok(SelectionView::InlineFragment { fragment, set }),
            None => Err(internal_error("unexpected inline fragment without sub-selections"@)),
        },
    }
}

/// The element of a selection.
pub open spec fn element_of(selection: SelectionView) -> ElementView {
    match selection {
        SelectionView::Field { field, sub } => ElementView::Field(field),
        SelectionView::InlineFragment { fragment, set } => ElementView::InlineFragment(fragment),
    }
}

/// What is selected below a selection.
pub open spec fn sub_of(selection: SelectionView) -> Option<SelectionSetView> {
    match selection {
        SelectionView::Field { field, sub } => sub,
        SelectionView::InlineFragment { fragment, set } => Some(set),
    }
}

/// A selection with something else below it.
pub open spec fn with_sub(selection: SelectionView, sub: Option<SelectionSetView>) -> Result<
    SelectionView,
    ErrorView,
> {
    match selection {
        SelectionView::Field { field, sub: _ } => Ok(SelectionView::Field { field, sub }),
        SelectionView::InlineFragment { fragment, set } => match sub {
            Some(new) => Ok(SelectionView::InlineFragment { fragment, set: new }),
            None => Err(internal_error("updating inline fragment without a sub-selection set"@)),
        },
    }
}

impl Selection {
    /// A selection of an element with what is below it.
    pub fn from_element(element: OpPathElement, sub_selections: Option<SelectionSet>) -> (r: Result<
        Selection,
        FederationError,
    >)
        ensures
            result_view(r) == selection_of(element.deep_view(), sub_selections.deep_view()),
    {
        match element {
            OpPathElement::Field(field) => Ok(
                Selection::Field(FieldSelection { field, selection_set: sub_selections }),
            ),
            OpPathElement::InlineFragment(inline_fragment) => match sub_selections {
                Some(selection_set) => Ok(
                    Selection::InlineFragment(
                        InlineFragmentSelection { inline_fragment, selection_set },
                    ),
                ),
                None => Err(
                    FederationError::internal("unexpected inline fragment without sub-selections"),
                ),
            },
        }
    }

    /// The element of the selection.
    pub fn element(&self) -> (r: OpPathElement)
        ensures
            r.deep_view() == element_of(self.deep_view()),
    {
        match self {
            Selection::Field(f) => OpPathElement::Field(f.field.clone()),
            Selection::InlineFragment(f) => OpPathElement::InlineFragment(f.inline_fragment.clone()),
        }
    }

    /// What is selected below the selection.
    pub fn selection_set(&self) -> (r: Option<&SelectionSet>)
        ensures
            r.deep_view() == sub_of(self.deep_view()),
            r matches Some(set) ==> decreases_to!(*self => *set),
    {
        match self {
            Selection::Field(f) => match &f.selection_set {
                Some(set) => Some(set),
                None => None,
            },
            Selection::InlineFragment(f) => Some(&f.selection_set),
        }
    }

    /// The selection with something else below it.
    pub fn with_updated_selection_set(&self, selection_set: Option<SelectionSet>) -> (r: Result<
        Selection,
        FederationError,
    >)
        ensures
            result_view(r) == with_sub(self.deep_view(), selection_set.deep_view()),
    {
        match self {
            Selection::Field(f) => Ok(
                Selection::Field(FieldSelection { field: f.field.clone(), selection_set }),
            ),
            Selection::InlineFragment(f) => match selection_set {
                Some(set) => Ok(
                    Selection::InlineFragment(
                        InlineFragmentSelection {
                            inline_fragment: f.inline_fragment.clone(),
                            selection_set: set,
                        },
                    ),
                ),
                None => Err(
                    FederationError::internal(
                        "updating inline fragment without a sub-selection set",
                    ),
                ),
            },
        }
    }
}

/// Whether a fragment says nothing on a type: it has no directives, and everything of the type is
/// of its type.
pub open spec fn unnecessary(
    fragment: InlineFragmentView,
    parent: CompositeView,
    schema: SchemaView,
) -> bool {
    fragment.directives.len() == 0 && match fragment.type_condition_position {
        None => true,
        Some(condition) => composite_name(condition) == composite_name(parent) || subtype(
            schema,
            composite_name(condition),
            composite_name(parent),
        ),
    }
}

/// The first `n` selections of a set, with the fragments on top that say nothing taken apart.
pub open spec fn flattened(
    set: SelectionSetView,
    parent: CompositeView,
    schema: SchemaView,
    n: nat,
) -> Seq<SelectionView>
    decreases set, n,
{
    if n == 0 || n > set.selections.len() {
        Seq::empty()
    } else {
        flattened(set, parent, schema, (n - 1) as nat) + flattened_selection(
            set.selections[n - 1],
            parent,
            schema,
        )
    }
}

/// A selection, or what is in the fragment that it is.
pub open spec fn flattened_selection(
    selection: SelectionView,
    parent: CompositeView,
    schema: SchemaView,
) -> Seq<SelectionView>
    decreases selection, 0nat,
{
    match selection {
        SelectionView::InlineFragment { fragment, set } => if unnecessary(fragment, parent, schema) {
            flattened(set, parent, schema, set.selections.len())
        } else {
            seq![selection]
        },
        SelectionView::Field { field, sub } => seq![selection],
    }
}

impl InlineFragmentSelection {
    /// Whether the fragment says nothing on a type.
    pub fn is_unnecessary(&self, parent: &CompositeTypeDefinitionPosition, schema: &Schema) -> (r:
        bool)
        ensures
            r == unnecessary(
                self.inline_fragment.deep_view(),
                parent.deep_view(),
                schema.deep_view(),
            ),
    {
        if self.inline_fragment.directives.len() != 0 {
            return false;
        }
        match &self.inline_fragment.type_condition_position {
            None => true,
            Some(condition) => same(condition.name(), parent.name()) || schema.is_subtype(
                condition.name(),
                parent.name(),
            ),
        }
    }
}

impl SelectionSet {
    /// The selections, with the fragments on top that say nothing taken apart.
    pub fn without_unnecessary_fragments(
        &self,
        parent_type: &CompositeTypeDefinitionPosition,
        schema: &Schema,
    ) -> (r: Vec<Selection>)
        ensures
            selections_view(r@) == flattened(
                self.deep_view(),
                parent_type.deep_view(),
                schema.deep_view(),
                self.deep_view().selections.len(),
            ),
        decreases self,
    {
        proof {
            lemma_set_view(*self);
        }
        let ghost all = self.deep_view();
        let ghost p = parent_type.deep_view();
        let ghost s = schema.deep_view();
        let mut r: Vec<Selection> = Vec::new();
        assert(selections_view(r@) =~= Seq::empty());
        let mut i: usize = 0;
        while i < self.selections.len()
            invariant
                i <= self.selections@.len(),
                all == self.deep_view(),
                all.selections == selections_view(self.selections@),
                p == parent_type.deep_view(),
                s == schema.deep_view(),
                selections_view(r@) == flattened(all, p, s, i as nat),
            decreases self.selections@.len() - i,
        {
            assert(decreases_to!(*self => self.selections));
            assert(decreases_to!(self.selections@ => self.selections@[i as int]));
            let selection = &self.selections[i];
            assert(all.selections[i as int] == selection.deep_view());
            let ghost before = selections_view(r@);
            let mut done = false;
            if let Selection::InlineFragment(fragment) = selection {
                if fragment.is_unnecessary(parent_type, schema) {
                    let mut inner = fragment.selection_set.without_unnecessary_fragments(
                        parent_type,
                        schema,
                    );
                    let ghost added = selections_view(inner@);
                    r.append(&mut inner);
                    assert(selections_view(r@) =~= before + added);
                    done = true;
                }
            }
            if !done {
                r.push(selection.clone());
                assert(selections_view(r@) =~= before + seq![selection.deep_view()]);
            }
            assert(selections_view(r@) == before + flattened_selection(
                all.selections[i as int],
                p,
                s,
            ));
            i += 1;
        }
        r
    }
}

/// Selections with the first `n` of some others, which are moved to the given type.
pub open spec fn with_rebased(
    start: Seq<SelectionView>,
    more: Seq<SelectionView>,
    parent: CompositeView,
    schema: SchemaView,
    n: nat,
) -> Result<Seq<SelectionView>, ErrorView>
    decreases n,
{
    if n == 0 {
        Ok(start)
    } else {
        match with_rebased(start, more, parent, schema, (n - 1) as nat) {
            Err(error) => Err(error),
            Ok(before) => match rebased_selection(more[n - 1], parent, schema) {
                Err(error) => Err(error),
                Ok(own) => with_selection(before, own),
            },
        }
    }
}

proof fn lemma_with_rebased_error(
    start: Seq<SelectionView>,
    more: Seq<SelectionView>,
    parent: CompositeView,
    schema: SchemaView,
    n: nat,
    m: nat,
)
    requires
        n <= m,
        with_rebased(start, more, parent, schema, n) is Err,
    ensures
        with_rebased(start, more, parent, schema, m) == with_rebased(
            start,
            more,
            parent,
            schema,
            n,
        ),
    decreases m,
{
    if n < m {
        lemma_with_rebased_error(start, more, parent, schema, n, (m - 1) as nat);
    }
}

fn add_rebased(
    selections: &mut Vec<Selection>,
    more: &Vec<Selection>,
    parent: &CompositeTypeDefinitionPosition,
    schema: &Arc<Schema>,
) -> (r: Result<(), FederationError>)
    ensures
        ({
            let expected = with_rebased(
                selections_view(old(selections)@),
                selections_view(more@),
                parent.deep_view(),
                schema.deep_view(),
                more@.len(),
            );
            match r {
                Ok(_) => expected == Ok::<Seq<SelectionView>, ErrorView>(
                    selections_view(final(selections)@),
                ),
                Err(error) => expected == Err::<Seq<SelectionView>, ErrorView>(error.deep_view()),
            }
        }),
{
    let ghost start = selections_view(selections@);
    let ghost all = selections_view(more@);
    let ghost p = parent.deep_view();
    let ghost s = schema.deep_view();
    let mut i: usize = 0;
    while i < more.len()
        invariant
            i <= more@.len(),
            start == selections_view(old(selections)@),
            all == selections_view(more@),
            p == parent.deep_view(),
            s == schema.deep_view(),
            with_rebased(start, all, p, s, i as nat) == Ok::<Seq<SelectionView>, ErrorView>(
                selections_view(selections@),
            ),
        decreases more@.len() - i,
    {
        assert(all[i as int] == more@[i as int].deep_view());
        let own = match more[i].rebase_on(parent, schema) {
            Ok(own) => own,
            Err(error) => {
                proof {
                    lemma_with_rebased_error(start, all, p, s, i as nat + 1, all.len());
                }
                return Err(error);
            },
        };
        match add_selection(selections, &own) {
            Ok(_) => {},
            Err(error) => {
                proof {
                    lemma_with_rebased_error(start, all, p, s, i as nat + 1, all.len());
                }
                return Err(error);
            },
        }
        i += 1;
    }
    Ok(())
}

/// Whether there is nothing to add.
pub open spec fn nothing(sub: Option<SelectionSetView>) -> bool {
    match sub {
        Some(set) => set.selections.len() == 0,
        None => true,
    }
}

/// What is below the last element of a path: the selections without fragments that say nothing.
pub open spec fn last_sub(element: ElementView, set: SelectionSetView, schema: SchemaView) -> Result<
    SelectionSetView,
    ErrorView,
> {
    match sub_selection_type(element) {
        Err(error) => Err(error),
        Ok(None) => Err(
            internal_error(
                "unexpected: Element has a selection set with non-composite base type"@,
            ),
        ),
        Ok(Some(ty)) => {
            let flat = flattened(set, ty, schema, set.selections.len());
            as_set(
                empty_set(schema, ty),
                with_rebased(Seq::empty(), flat, ty, schema, flat.len()),
            )
        },
    }
}

/// Selections with the last element of a path. An element that would need selections is not added
/// without any.
pub open spec fn with_last(
    set: SelectionSetView,
    element: ElementView,
    sub: Option<SelectionSetView>,
) -> Result<Seq<SelectionView>, ErrorView> {
    match rebased_element(element, set.type_position, set.schema) {
        Err(error) => Err(error),
        Ok(own) => if nothing(sub) {
            match element_is_terminal(element) {
                Err(error) => Err(error),
                Ok(false) => Ok(set.selections),
                Ok(true) => match selection_of(own, None) {
                    Err(error) => Err(error),
                    Ok(new) => with_selection(set.selections, new),
                },
            }
        } else {
            match last_sub(own, sub->0, set.schema) {
                Err(error) => Err(error),
                Ok(below) => match selection_of(own, Some(below)) {
                    Err(error) => Err(error),
                    Ok(new) => with_selection(set.selections, new),
                },
            }
        },
    }
}

/// The selection under which the rest of a path goes: the one that is there, or an empty one.
pub open spec fn selection_for(
    set: SelectionSetView,
    element: ElementView,
) -> Result<(int, SelectionView), ErrorView> {
    match rebased_element(element, set.type_position, set.schema) {
        Err(error) => Err(error),
        Ok(own) => match sub_selection_type(own) {
            Err(error) => Err(error),
            Ok(None) => Err(
                internal_error(
                    "unexpected error: add_at_path encountered a field that is not of a composite type"@,
                ),
            ),
            Ok(Some(ty)) => match selection_of(own, Some(empty_set(set.schema, ty))) {
                Err(error) => Err(error),
                Ok(new) => {
                    let i = selection_index(set.selections, selection_key(new));
                    if i < set.selections.len() {
                        Ok((i, set.selections[i]))
                    } else {
                        Ok((i, new))
                    }
                },
            },
        },
    }
}

/// Selections with one in the given place, or at the end.
pub open spec fn placed(selections: Seq<SelectionView>, i: int, new: SelectionView) -> Seq<
    SelectionView,
> {
    if i < selections.len() {
        selections.update(i, new)
    } else {
        selections.push(new)
    }
}

/// A set with the selections that are added below a path, from its `from`-th element on.
pub open spec fn added_at_path(
    set: SelectionSetView,
    path: Seq<ElementView>,
    from: nat,
    sub: Option<SelectionSetView>,
) -> Result<SelectionSetView, ErrorView>
    decreases path.len() - from,
{
    if from >= path.len() {
        match sub {
            None => Ok(set),
            Some(more) => as_set(
                set,
                with_rebased(
                    set.selections,
                    more.selections,
                    set.type_position,
                    set.schema,
                    more.selections.len(),
                ),
            ),
        }
    } else if from + 1 == path.len() {
        as_set(set, with_last(set, path[from as int], sub))
    } else {
        match selection_for(set, path[from as int]) {
            Err(error) => Err(error),
            Ok((i, selection)) => match sub_of(selection) {
                None => Err(
                    internal_error(
                        "add_at_path encountered a field without a subselection which should never happen"@,
                    ),
                ),
                Some(below) => match added_at_path(below, path, from + 1, sub) {
                    Err(error) => Err(error),
                    Ok(longer) => match with_sub(selection, Some(longer)) {
                        Err(error) => Err(error),
                        Ok(new) => Ok(
                            SelectionSetView { selections: placed(set.selections, i, new), ..set },
                        ),
                    },
                },
            },
        }
    }
}

impl SelectionSet {
    fn add_last(&mut self, element: &OpPathElement, selection_set: &Option<SelectionSet>) -> (r:
        Result<(), FederationError>)
        ensures
            changed_to(
                r,
                *final(self),
                as_set(
                    old(self).deep_view(),
                    with_last(
                        old(self).deep_view(),
                        element.deep_view(),
                        selection_set.deep_view(),
                    ),
                ),
            ),
    {
        let ghost start = self.deep_view();
        proof {
            lemma_set_view(*self);
        }
        let own = match element.rebase_on(&self.type_position, &self.schema) {
            Ok(own) => own,
            Err(error) => {
                return Err(error);
            },
        };
        let more = match selection_set {
            Some(set) => if set.selections.len() == 0 {
                None
            } else {
                Some(set)
            },
            None => None,
        };
        let new = match more {
            None => {
                match element.is_terminal() {
                    Err(error) => {
                        return Err(error);
                    },
                    Ok(false) => {
                        return Ok(());
                    },
                    Ok(true) => {},
                }
                match Selection::from_element(own, None) {
                    Ok(new) => new,
                    Err(error) => {
                        return Err(error);
                    },
                }
            },
            Some(set) => {
                let ty = match own.sub_selection_type_position() {
                    Ok(Some(ty)) => ty,
                    Ok(None) => {
                        return Err(
                            FederationError::internal(
                                "unexpected: Element has a selection set with non-composite base type",
                            ),
                        );
                    },
                    Err(error) => {
                        return Err(error);
                    },
                };
                let flat = set.without_unnecessary_fragments(&ty, &self.schema);
                let mut below = SelectionSet::empty(self.schema.clone(), ty.clone());
                proof {
                    lemma_set_view(below);
                }
                match add_rebased(&mut below.selections, &flat, &ty, &self.schema) {
                    Ok(_) => {},
                    Err(error) => {
                        return Err(error);
                    },
                }
                proof {
                    lemma_set_view(below);
                }
                match Selection::from_element(own, Some(below)) {
                    Ok(new) => new,
                    Err(error) => {
                        return Err(error);
                    },
                }
            },
        };
        self.add_local_selection(&new)
    }

    /// Adds the selections below the path, from its `from`-th element on. Selections on the way
    /// are made as needed.
    pub fn add_at_path(
        &mut self,
        path: &Vec<OpPathElement>,
        from: usize,
        selection_set: &Option<SelectionSet>,
    ) -> (r: Result<(), FederationError>)
        ensures
            changed_to(
                r,
                *final(self),
                added_at_path(
                    old(self).deep_view(),
                    path.deep_view(),
                    from as nat,
                    selection_set.deep_view(),
                ),
            ),
        decreases path@.len() - from,
    {
        let ghost start = self.deep_view();
        proof {
            lemma_set_view(*self);
        }
        if from >= path.len() {
            match selection_set {
                None => {
                    return Ok(());
                },
                Some(more) => {
                    proof {
                        lemma_set_view(*more);
                    }
                    let ty = self.type_position.clone();
                    let schema = self.schema.clone();
                    let r = add_rebased(&mut self.selections, &more.selections, &ty, &schema);
                    proof {
                        lemma_set_view(*self);
                    }
                    return r;
                },
            }
        }
        assert(path.deep_view()[from as int] == path@[from as int].deep_view());
        if path.len() - from == 1 {
            return self.add_last(&path[from], selection_set);
        }
        let own = match path[from].rebase_on(&self.type_position, &self.schema) {
            Ok(own) => own,
            Err(error) => {
                return Err(error);
            },
        };
        let ty = match own.sub_selection_type_position() {
            Ok(Some(ty)) => ty,
            Ok(None) => {
                return Err(
                    FederationError::internal(
                        "unexpected error: add_at_path encountered a field that is not of a composite type",
                    ),
                );
            },
            Err(error) => {
                return Err(error);
            },
        };
        let new = match Selection::from_element(
            own,
            Some(SelectionSet::empty(self.schema.clone(), ty)),
        ) {
            Ok(new) => new,
            Err(error) => {
                return Err(error);
            },
        };
        let i = find_selection(&self.selections, &new);
        let selection = if i < self.selections.len() {
            assert(start.selections[i as int] == self.selections@[i as int].deep_view());
            self.selections[i].clone()
        } else {
            new
        };
        let mut below = match selection.selection_set() {
            Some(set) => set.clone(),
            None => {
                return Err(
                    FederationError::internal(
                        "add_at_path encountered a field without a subselection which should never happen",
                    ),
                );
            },
        };
        match below.add_at_path(path, from + 1, selection_set) {
            Ok(_) => {},
            Err(error) => {
                return Err(error);
            },
        }
        let updated = match selection.with_updated_selection_set(Some(below)) {
            Ok(updated) => updated,
            Err(error) => {
                return Err(error);
            },
        };
        let ghost view = updated.deep_view();
        if i < self.selections.len() {
            self.selections.set(i, updated);
        } else {
            self.selections.push(updated);
        }
        assert(selections_view(self.selections@) =~= placed(start.selections, i as int, view));
        proof {
            lemma_set_view(*self);
        }
        Ok(())
    }
}

} // verus!
