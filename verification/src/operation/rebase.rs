//! Moving elements and selections to another type.

use crate::error::internal_error;
use crate::error::result_view;
use crate::error::ErrorView;
use crate::error::FederationError;
use crate::operation::casted_type;
use crate::operation::selection::insert_selection;
use crate::operation::selection::lemma_set_view;
use crate::operation::selection::put_selection;
use crate::operation::selection::selections_view;
use crate::operation::selection::FieldSelection;
use crate::operation::selection::InlineFragmentSelection;
use crate::operation::selection::Selection;
use crate::operation::selection::SelectionSet;
use crate::operation::selection::SelectionSetView;
use crate::operation::selection::SelectionView;
use crate::operation::typename_field;
use crate::operation::Field;
use crate::operation::FieldElementView;
use crate::operation::InlineFragment;
use crate::operation::InlineFragmentView;
use crate::query_graph::elements::sub_selection_type;
use crate::query_graph::elements::ElementView;
use crate::query_graph::elements::OpPathElement;
use crate::schema::position::as_composite;
use crate::schema::position::composite_name;
use crate::schema::position::field_definition;
use crate::schema::position::get_type;
use crate::schema::position::runtime_types;
use crate::schema::position::CompositeTypeDefinitionPosition;
use crate::schema::position::CompositeView;
use crate::schema::position::FieldDefinitionPosition;
use crate::schema::position::FieldPositionView;
use crate::schema::Schema;
use crate::schema::SchemaView;
use crate::text::same;
use std::sync::Arc;
use vstd::prelude::*;

verus! {

/// Whether some object can be of both types.
pub open spec fn types_intersect(schema: SchemaView, a: CompositeView, b: CompositeView) -> bool {
    a == b || exists|i: int|
        0 <= i < runtime_types(schema, a).len() && runtime_types(schema, b).contains(
            #[trigger] runtime_types(schema, a)[i],
        )
}

/// Types intersect in both directions.
pub proof fn law_intersection_is_symmetric(schema: SchemaView, a: CompositeView, b: CompositeView)
    ensures
        types_intersect(schema, a, b) == types_intersect(schema, b, a),
{
    let x = runtime_types(schema, a);
    let y = runtime_types(schema, b);
    if a != b {
        if types_intersect(schema, a, b) {
            let i = choose|i: int| 0 <= i < x.len() && y.contains(#[trigger] x[i]);
            let j = y.index_of(x[i]);
            assert(x.contains(y[j]));
        }
        if types_intersect(schema, b, a) {
            let j = choose|j: int| 0 <= j < y.len() && x.contains(#[trigger] y[j]);
            let i = x.index_of(y[j]);
            assert(y.contains(x[i]));
        }
    }
}

/// Whether some object can be of both types.
pub fn runtime_types_intersect(
    type1: &CompositeTypeDefinitionPosition,
    type2: &CompositeTypeDefinitionPosition,
    schema: &Schema,
) -> (r: bool)
    ensures
        r == types_intersect(schema.deep_view(), type1.deep_view(), type2.deep_view()),
{
    if type1.same_as(type2) {
        return true;
    }
    let left = schema.possible_runtime_types(type1);
    let right = schema.possible_runtime_types(type2);
    let ghost x = left.deep_view();
    let ghost y = right.deep_view();
    let mut i: usize = 0;
    while i < left.len()
        invariant
            i <= x.len(),
            x == left.deep_view(),
            y == right.deep_view(),
            x == runtime_types(schema.deep_view(), type1.deep_view()),
            y == runtime_types(schema.deep_view(), type2.deep_view()),
            type1.deep_view() != type2.deep_view(),
            forall|j: int| 0 <= j < i ==> !y.contains(#[trigger] x[j]),
        decreases x.len() - i,
    {
        if right.contains(left.at(i)) {
            assert(y.contains(x[i as int]));
            return true;
        }
        i += 1;
    }
    false
}

/// A field on another type, which has to have it.
pub open spec fn rebased_field(field: FieldElementView, parent: CompositeView, schema: SchemaView) -> Result<
    FieldElementView,
    ErrorView,
> {
    let name = field.field_position.field_name;
    if name == typename_field() || field_definition(schema, composite_name(parent), name) is Some {
        Ok(
            FieldElementView {
                schema,
                field_position: FieldPositionView { parent, field_name: name },
                ..field
            },
        )
    } else {
        Err(internal_error("Cannot add field to the selections of a type without it"@))
    }
}

/// A fragment on another type, which has to intersect the type of the fragment.
pub open spec fn rebased_fragment(
    fragment: InlineFragmentView,
    parent: CompositeView,
    schema: SchemaView,
) -> Result<InlineFragmentView, ErrorView> {
    match fragment.type_condition_position {
        None => Ok(InlineFragmentView { schema, parent_type_position: parent, ..fragment }),
        Some(condition) => match get_type(schema, composite_name(condition)) {
            Err(error) => Err(error),
            Ok(position) => match as_composite(position) {
                None => Err(internal_error("Type condition is not composite"@)),
                Some(own) => if types_intersect(schema, parent, own) {
                    Ok(
                        InlineFragmentView {
                            schema,
                            parent_type_position: parent,
                            type_condition_position: Some(own),
                            ..fragment
                        },
                    )
                } else {
                    Err(internal_error("Cannot add fragment to a type that it never meets"@))
                },
            },
        },
    }
}

/// An element on another type.
pub open spec fn rebased_element(element: ElementView, parent: CompositeView, schema: SchemaView) -> Result<
    ElementView,
    ErrorView,
> {
    match element {
        ElementView::Field(field) => match rebased_field(field, parent, schema) {
            Ok(own) => Ok(ElementView::Field(own)),
            Err(error) => Err(error),
        },
        ElementView::InlineFragment(fragment) => match rebased_fragment(fragment, parent, schema) {
            Ok(own) => Ok(ElementView::InlineFragment(own)),
            Err(error) => Err(error),
        },
    }
}

/// A selection on another type, with everything below it.
pub open spec fn rebased_selection(
    selection: SelectionView,
    parent: CompositeView,
    schema: SchemaView,
) -> Result<SelectionView, ErrorView>
    decreases selection, 2nat, 0nat,
{
    match selection {
        SelectionView::Field { field, sub } => match rebased_field(field, parent, schema) {
            Err(error) => Err(error),
            Ok(own) => match sub {
                None => Ok(SelectionView::Field { field: own, sub: None }),
                Some(set) => match sub_selection_type(ElementView::Field(own)) {
                    Err(error) => Err(error),
                    Ok(None) => Err(
                        internal_error("Cannot add selections to a field without fields"@),
                    ),
                    Ok(Some(ty)) => match rebased_set(set, ty, schema) {
                        Err(error) => Err(error),
                        Ok(below) => Ok(SelectionView::Field { field: own, sub: Some(below) }),
                    },
                },
            },
        },
        SelectionView::InlineFragment { fragment, set } => match rebased_fragment(
            fragment,
            parent,
            schema,
        ) {
            Err(error) => Err(error),
            Ok(own) => match rebased_set(set, casted_type(own), schema) {
                Err(error) => Err(error),
                Ok(below) => Ok(SelectionView::InlineFragment { fragment: own, set: below }),
            },
        },
    }
}

/// A set on another type.
pub open spec fn rebased_set(set: SelectionSetView, parent: CompositeView, schema: SchemaView) -> Result<
    SelectionSetView,
    ErrorView,
>
    decreases set, 1nat, 0nat,
{
    match rebased_selections(set, parent, schema, set.selections.len()) {
        Err(error) => Err(error),
        Ok(selections) => Ok(SelectionSetView { schema, type_position: parent, selections }),
    }
}

/// The first `n` selections of a set on another type.
pub open spec fn rebased_selections(
    set: SelectionSetView,
    parent: CompositeView,
    schema: SchemaView,
    n: nat,
) -> Result<Seq<SelectionView>, ErrorView>
    decreases set, 0nat, n,
{
    if n == 0 || n > set.selections.len() {
        Ok(Seq::empty())
    } else {
        match rebased_selections(set, parent, schema, (n - 1) as nat) {
            Err(error) => Err(error),
            Ok(before) => match rebased_selection(set.selections[n - 1], parent, schema) {
                Err(error) => Err(error),
                Ok(own) => Ok(put_selection(before, own)),
            },
        }
    }
}

proof fn lemma_rebased_error(
    set: SelectionSetView,
    parent: CompositeView,
    schema: SchemaView,
    n: nat,
    m: nat,
)
    requires
        n <= m <= set.selections.len(),
        rebased_selections(set, parent, schema, n) is Err,
    ensures
        rebased_selections(set, parent, schema, m) == rebased_selections(set, parent, schema, n),
    decreases m,
{
    if n < m {
        lemma_rebased_error(set, parent, schema, n, (m - 1) as nat);
    }
}

impl Field {
    /// The field on another type.
    pub fn rebase_on(
        &self,
        parent: &CompositeTypeDefinitionPosition,
        schema: &Arc<Schema>,
    ) -> (r: Result<Field, FederationError>)
        ensures
            result_view(r) == rebased_field(
                self.deep_view(),
                parent.deep_view(),
                schema.deep_view(),
            ),
    {
        if same(self.name(), "__typename") || schema.get_field(parent.name(), self.name()).is_some() {
            Ok(
                self.with_updated_position(
                    schema.clone(),
                    FieldDefinitionPosition {
                        parent: parent.clone(),
                        field_name: self.name().clone(),
                    },
                ),
            )
        } else {
            Err(
                FederationError::internal(
                    "Cannot add field to the selections of a type without it",
                ),
            )
        }
    }
}

impl InlineFragment {
    /// The fragment on another type.
    pub fn rebase_on(
        &self,
        parent: &CompositeTypeDefinitionPosition,
        schema: &Arc<Schema>,
    ) -> (r: Result<InlineFragment, FederationError>)
        ensures
            result_view(r) == rebased_fragment(
                self.deep_view(),
                parent.deep_view(),
                schema.deep_view(),
            ),
    {
        let condition = match &self.type_condition_position {
            None => None,
            Some(condition) => match schema.get_type(condition.name()) {
                Err(error) => {
                    return Err(error);
                },
                Ok(position) => match position.to_composite() {
                    None => {
                        return Err(FederationError::internal("Type condition is not composite"));
                    },
                    Some(own) => {
                        if !runtime_types_intersect(parent, &own, schema) {
                            return Err(
                                FederationError::internal(
                                    "Cannot add fragment to a type that it never meets",
                                ),
                            );
                        }
                        Some(own)
                    },
                },
            },
        };
        let mut r = self.clone();
        r.schema = schema.clone();
        r.parent_type_position = parent.clone();
        r.type_condition_position = condition;
        Ok(r)
    }
}

impl OpPathElement {
    /// The element on another type.
    pub fn rebase_on(
        &self,
        parent: &CompositeTypeDefinitionPosition,
        schema: &Arc<Schema>,
    ) -> (r: Result<OpPathElement, FederationError>)
        ensures
            result_view(r) == rebased_element(
                self.deep_view(),
                parent.deep_view(),
                schema.deep_view(),
            ),
    {
        match self {
            OpPathElement::Field(field) => match field.rebase_on(parent, schema) {
                Ok(own) => Ok(OpPathElement::Field(own)),
                Err(error) => Err(error),
            },
            OpPathElement::InlineFragment(fragment) => match fragment.rebase_on(parent, schema) {
                Ok(own) => Ok(OpPathElement::InlineFragment(own)),
                Err(error) => Err(error),
            },
        }
    }
}

impl Selection {
    /// The selection on another type, with everything below it.
    pub fn rebase_on(
        &self,
        parent: &CompositeTypeDefinitionPosition,
        schema: &Arc<Schema>,
    ) -> (r: Result<Selection, FederationError>)
        ensures
            result_view(r) == rebased_selection(
                self.deep_view(),
                parent.deep_view(),
                schema.deep_view(),
            ),
        decreases self,
    {
        match self {
            Selection::Field(f) => {
                let own = match f.field.rebase_on(parent, schema) {
                    Ok(own) => own,
                    Err(error) => {
                        return Err(error);
                    },
                };
                let set = match &f.selection_set {
                    None => {
                        return Ok(
                            Selection::Field(FieldSelection { field: own, selection_set: None }),
                        );
                    },
                    Some(set) => set,
                };
                let element = OpPathElement::Field(own.clone());
                let ty = match element.sub_selection_type_position() {
                    Ok(Some(ty)) => ty,
                    Ok(None) => {
                        return Err(
                            FederationError::internal(
                                "Cannot add selections to a field without fields",
                            ),
                        );
                    },
                    Err(error) => {
                        return Err(error);
                    },
                };
                match set.rebase_on(&ty, schema) {
                    Ok(below) => Ok(
                        Selection::Field(FieldSelection { field: own, selection_set: Some(below) }),
                    ),
                    Err(error) => Err(error),
                }
            },
            Selection::InlineFragment(f) => {
                let own = match f.inline_fragment.rebase_on(parent, schema) {
                    Ok(own) => own,
                    Err(error) => {
                        return Err(error);
                    },
                };
                match f.selection_set.rebase_on(own.casted_type(), schema) {
                    Ok(below) => Ok(
                        Selection::InlineFragment(
                            InlineFragmentSelection { inline_fragment: own, selection_set: below },
                        ),
                    ),
                    Err(error) => Err(error),
                }
            },
        }
    }
}

impl SelectionSet {
    /// The set on another type.
    pub fn rebase_on(
        &self,
        parent: &CompositeTypeDefinitionPosition,
        schema: &Arc<Schema>,
    ) -> (r: Result<SelectionSet, FederationError>)
        ensures
            result_view(r) == rebased_set(
                self.deep_view(),
                parent.deep_view(),
                schema.deep_view(),
            ),
        decreases self,
    {
        proof {
            lemma_set_view(*self);
        }
        let ghost all = self.deep_view();
        let ghost p = parent.deep_view();
        let ghost s = schema.deep_view();
        let mut selections: Vec<Selection> = Vec::new();
        assert(selections_view(selections@) =~= Seq::empty());
        let mut i: usize = 0;
        while i < self.selections.len()
            invariant
                i <= self.selections@.len(),
                all == self.deep_view(),
                all.selections == selections_view(self.selections@),
                p == parent.deep_view(),
                s == schema.deep_view(),
                rebased_selections(all, p, s, i as nat) == Ok::<Seq<SelectionView>, ErrorView>(
                    selections_view(selections@),
                ),
            decreases self.selections@.len() - i,
        {
            assert(decreases_to!(*self => self.selections));
            assert(decreases_to!(self.selections@ => self.selections@[i as int]));
            assert(all.selections[i as int] == self.selections@[i as int].deep_view());
            match self.selections[i].rebase_on(parent, schema) {
                Ok(own) => {
                    insert_selection(&mut selections, own);
                },
                Err(error) => {
                    proof {
                        lemma_rebased_error(all, p, s, i as nat + 1, all.selections.len());
                    }
                    return Err(error);
                },
            }
            i += 1;
        }
        let r = SelectionSet {
            schema: schema.clone(),
            type_position: parent.clone(),
            selections,
        };
        proof {
            lemma_set_view(r);
        }
        Ok(r)
    }
}

} // verus!
