//! Selections with something changed.

use crate::ast::Directive;
use crate::collections::NameSet;
use crate::error::result_view;
use crate::error::FederationError;
use crate::operation::at_path::sub_of;
use crate::operation::at_path::with_sub;
use crate::operation::output_base_type;
use crate::operation::print::set_variables;
use crate::operation::print::VariableCollector;
use crate::operation::selection::insert_selection;
use crate::operation::selection::lemma_set_view;
use crate::operation::selection::put_selection;
use crate::operation::selection::selections_view;
use crate::operation::selection::FieldSelection;
use crate::operation::selection::InlineFragmentSelection;
use crate::operation::selection::Selection;
use crate::operation::selection::SelectionSet;
use crate::operation::selection::SelectionSetView;
use crate::operation::selection::SelectionView;
use crate::operation::trees::selection_schema;
use crate::operation::Field;
use crate::operation::FieldElementView;
use crate::operation::InlineFragmentView;
use crate::schema::position::as_composite;
use crate::schema::position::CompositeTypeDefinitionPosition;
use crate::schema::position::FieldDefinitionPosition;
use crate::schema::position::FieldPositionView;
use crate::schema::Schema;
use crate::schema::SchemaView;
use std::sync::Arc;
use vstd::prelude::*;

verus! {

/// A field without alias, arguments and directives.
pub open spec fn plain_field(schema: SchemaView, position: FieldPositionView) -> FieldElementView {
    FieldElementView {
        schema,
        field_position: position,
        alias: None,
        arguments: Seq::empty(),
        directives: Seq::empty(),
        sibling_typename: None,
    }
}

/// Whether a set is what can be selected below a field: it is on the type of the field, in its
/// schema.
pub open spec fn is_below(field: FieldElementView, set: SelectionSetView) -> bool {
    &&& output_base_type(field) matches Ok(position) && as_composite(position) == Some(
        set.type_position,
    )
    &&& field.schema == set.schema
}

impl Field {
    /// A field without alias, arguments and directives.
    pub fn from_position(schema: &Arc<Schema>, field_position: FieldDefinitionPosition) -> (r: Self)
        ensures
            r.deep_view() == plain_field(schema.deep_view(), field_position.deep_view()),
    {
        let r = Field {
            schema: schema.clone(),
            field_position,
            alias: None,
            arguments: Vec::new(),
            directives: Vec::new(),
            sibling_typename: None,
        };
        assert(r.arguments.deep_view() =~= Seq::empty());
        assert(r.directives.deep_view() =~= Seq::empty());
        r
    }

    /// The field with the given selections below it, or with none if it is a leaf.
    pub fn with_subselection(self, selection_set: Option<SelectionSet>) -> (r: FieldSelection)
        requires
            selection_set matches Some(set) ==> is_below(self.deep_view(), set.deep_view()),
        ensures
            r.field == self,
            r.selection_set == selection_set,
    {
        FieldSelection { field: self, selection_set }
    }
}

impl FieldSelection {
    /// Another field with the same selections below it.
    pub fn with_updated_element(&self, field: Field) -> (r: Self)
        ensures
            r.field == field,
            r.selection_set.deep_view() == self.selection_set.deep_view(),
    {
        let selection_set = match &self.selection_set {
            Some(set) => Some(set.clone()),
            None => None,
        };
        FieldSelection { field, selection_set }
    }
}

impl InlineFragmentSelection {
    /// The fragment with other directives and other selections.
    pub fn with_updated_directives_and_selection_set(
        &self,
        directives: Vec<Directive>,
        selection_set: SelectionSet,
    ) -> (r: Self)
        ensures
            r.inline_fragment.deep_view() == (InlineFragmentView {
                directives: directives.deep_view(),
                ..self.inline_fragment.deep_view()
            }),
            r.selection_set == selection_set,
    {
        InlineFragmentSelection {
            inline_fragment: self.inline_fragment.with_updated_directives(directives),
            selection_set,
        }
    }
}

/// The first `n` selections, the last one of each key in the place of the first one.
pub open spec fn collected_selections(selections: Seq<SelectionView>, n: nat) -> Seq<SelectionView>
    decreases n,
{
    if n == 0 {
        Seq::empty()
    } else {
        put_selection(collected_selections(selections, (n - 1) as nat), selections[n - 1])
    }
}

impl SelectionSet {
    /// A set of some selections. Selections of the same key are not merged: the last one stays.
    pub fn from_raw_selections(
        schema: Arc<Schema>,
        type_position: CompositeTypeDefinitionPosition,
        selections: Vec<Selection>,
    ) -> (r: SelectionSet)
        ensures
            r.deep_view() == (SelectionSetView {
                schema: schema.deep_view(),
                type_position: type_position.deep_view(),
                selections: collected_selections(
                    selections_view(selections@),
                    selections_view(selections@).len(),
                ),
            }),
    {
        let ghost all = selections_view(selections@);
        let mut collected: Vec<Selection> = Vec::new();
        assert(selections_view(collected@) =~= Seq::empty());
        let mut i: usize = 0;
        while i < selections.len()
            invariant
                i <= selections@.len(),
                all == selections_view(selections@),
                selections_view(collected@) == collected_selections(all, i as nat),
            decreases selections@.len() - i,
        {
            let selection = selections[i].clone();
            assert(selection.deep_view() == all[i as int]);
            insert_selection(&mut collected, selection);
            i += 1;
        }
        let r = SelectionSet { schema, type_position, selections: collected };
        proof {
            lemma_set_view(r);
        }
        r
    }

    /// The variables that the set uses.
    pub fn used_variables(&self) -> (r: NameSet)
        ensures
            r.deep_view() == set_variables(
                self.deep_view(),
                Seq::empty(),
                self.deep_view().selections.len(),
            ),
    {
        let mut collector = VariableCollector::new();
        collector.visit_selection_set(self);
        collector.into_inner()
    }
}

impl Selection {
    /// The selection with other selections below it.
    pub fn with_updated_selections(
        &self,
        type_position: CompositeTypeDefinitionPosition,
        selections: Vec<Selection>,
    ) -> (r: Result<Selection, FederationError>)
        ensures
            result_view(r) == with_sub(
                self.deep_view(),
                Some(
                    SelectionSetView {
                        schema: selection_schema(self.deep_view()),
                        type_position: type_position.deep_view(),
                        selections: collected_selections(
                            selections_view(selections@),
                            selections_view(selections@).len(),
                        ),
                    },
                ),
            ),
    {
        let set = SelectionSet::from_raw_selections(
            self.schema().clone(),
            type_position,
            selections,
        );
        self.with_updated_selection_set(Some(set))
    }

    /// The selection with what `mapper` makes of the selections below it, if there are any.
    pub fn map_selection_set<
        F: FnOnce(&SelectionSet) -> Result<Option<SelectionSet>, FederationError>,
    >(&self, mapper: F) -> (r: Result<Selection, FederationError>)
        requires
            forall|set: SelectionSet| mapper.requires((&set,)),
        ensures
            match sub_of(self.deep_view()) {
                None => r matches Ok(same) && same.deep_view() == self.deep_view(),
                Some(below) => exists|
                    set: SelectionSet,
                    mapped: Result<Option<SelectionSet>, FederationError>,
                |
                    {
                        &&& set.deep_view() == below
                        &&& #[trigger] mapper.ensures((&set,), mapped)
                        &&& match mapped {
                            Ok(new) => result_view(r) == with_sub(
                                self.deep_view(),
                                new.deep_view(),
                            ),
                            Err(error) => r == Err::<Selection, FederationError>(error),
                        }
                    },
            },
    {
        match self.selection_set() {
            Some(set) => {
                let mapped = mapper(set);
                assert(mapper.ensures((set,), mapped));
                match mapped {
                    Ok(new) => self.with_updated_selection_set(new),
                    Err(error) => Err(error),
                }
            },
            None => Ok(self.clone()),
        }
    }
}

} // verus!
