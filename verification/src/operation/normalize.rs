//! Normalizing the selections of a document: fragments are expanded, selections of one key are
//! merged, and introspection is left out.

use crate::ast::clone_directives;
use crate::ast::clone_text;
use crate::ast::Directive;
use crate::ast::DirectiveLocation;
use crate::ast::DirectiveView;
use crate::collections::value_of;
use crate::collections::Entries;
use crate::collections::NameMap;
use crate::error::internal_error;
use crate::error::result_view;
use crate::error::ErrorKind;
use crate::error::ErrorView;
use crate::error::FederationError;
use crate::operation::arguments::sorted_arguments;
use crate::operation::arguments::ArgumentList;
use crate::operation::executable::executables_view;
use crate::operation::executable::lemma_executable_set;
use crate::operation::executable::ExecutableField;
use crate::operation::executable::ExecutableFieldView;
use crate::operation::executable::ExecutableFragment;
use crate::operation::executable::ExecutableFragmentView;
use crate::operation::executable::ExecutableSelection;
use crate::operation::executable::ExecutableSet;
use crate::operation::executable::ExecutableSetView;
use crate::operation::executable::ExecutableView;
use crate::operation::executable::FragmentSpread;
use crate::operation::executable::SpreadView;
use crate::operation::merging::lemma_with_selections_kind;
use crate::operation::merging::with_selections;
use crate::operation::next_id;
use crate::operation::selection::lemma_set_view;
use crate::operation::selection::selections_view;
use crate::operation::selection::FieldSelection;
use crate::operation::selection::InlineFragmentSelection;
use crate::operation::selection::Selection;
use crate::operation::selection::SelectionSet;
use crate::operation::selection::SelectionSetView;
use crate::operation::selection::SelectionView;
use crate::operation::Field;
use crate::operation::FieldElementView;
use crate::operation::InlineFragment;
use crate::operation::InlineFragmentView;
use crate::operation::SelectionId;
use crate::operation::SelectionIdCounter;
use crate::query_graph::options::may_cancel;
use crate::query_graph::options::must_cancel;
use crate::schema::position::as_composite;
use crate::schema::position::composite_name;
use crate::schema::position::field_type;
use crate::schema::position::get_type;
use crate::schema::position::CompositeTypeDefinitionPosition;
use crate::schema::position::CompositeView;
use crate::schema::position::FieldDefinitionPosition;
use crate::schema::position::FieldPositionView;
use crate::schema::Schema;
use crate::schema::SchemaView;
use crate::text::joined3;
use crate::text::joined;
use crate::text::same;
use crate::text::Text;
use std::sync::Arc;
use vstd::prelude::*;

verus! {

/// A composite type of the given name.
pub open spec fn composite_type(schema: SchemaView, name: Text) -> Result<CompositeView, ErrorView> {
    match get_type(schema, name) {
        Err(error) => Err(error),
        Ok(position) => match as_composite(position) {
            Some(composite) => Ok(composite),
            None => Err(internal_error("Type is not composite"@)),
        },
    }
}

/// A composite type of the given name.
pub(crate) fn get_composite(schema: &Schema, name: &str) -> (r: Result<
    CompositeTypeDefinitionPosition,
    FederationError,
>)
    ensures
        result_view(r) == composite_type(schema.deep_view(), name@),
{
    match schema.get_type(name) {
        Err(error) => Err(error),
        Ok(position) => match position.to_composite() {
            Some(composite) => Ok(composite),
            None => Err(FederationError::internal("Type is not composite")),
        },
    }
}

/// The error for a fragment that is not there.
pub open spec fn missing_fragment(name: Text) -> ErrorView {
    internal_error("Fragment spread referenced non-existent fragment \""@ + name + "\""@)
}

/// What is wrong with a directive on a fragment spread, if anything: it has to be one that an
/// inline fragment can have.
pub open spec fn spread_directive_error(schema: SchemaView, name: Text) -> Option<ErrorView> {
    match value_of(schema.directive_definitions, name) {
        None => Some(internal_error("Undefined directive "@ + name)),
        Some(definition) => if definition.locations.contains(DirectiveLocation::InlineFragment) {
            None
        } else {
            Some(
                ErrorView {
                    kind: ErrorKind::UnsupportedSpreadDirective,
                    message: "Directive not supported on fragment spread: @"@ + name,
                },
            )
        },
    }
}

/// What is wrong with the first bad one of the first `n` directives.
pub open spec fn spread_error(schema: SchemaView, directives: Seq<DirectiveView>, n: nat) -> Option<
    ErrorView,
>
    decreases n,
{
    if n == 0 {
        None
    } else {
        match spread_error(schema, directives, (n - 1) as nat) {
            Some(error) => Some(error),
            None => spread_directive_error(schema, directives[n - 1].name),
        }
    }
}

/// A fragment spread as an inline fragment.
pub open spec fn spread_as_fragment(
    spread: SpreadView,
    parent: CompositeView,
    cache: Entries<SelectionSetView>,
    schema: SchemaView,
    id: usize,
) -> Result<(InlineFragmentView, SelectionSetView), ErrorView> {
    match value_of(cache, spread.fragment_name) {
        None => Err(missing_fragment(spread.fragment_name)),
        Some(set) => match spread_error(schema, spread.directives, spread.directives.len()) {
            Some(error) => Err(error),
            None => Ok(
                (
                    InlineFragmentView {
                        schema,
                        parent_type_position: parent,
                        type_condition_position: Some(set.type_position),
                        directives: spread.directives,
                        selection_id: SelectionId(id),
                    },
                    set,
                ),
            ),
        },
    }
}

/// A field without its selections, on the given type.
pub open spec fn plain_field(
    field: ExecutableFieldView,
    parent: CompositeView,
    schema: SchemaView,
) -> FieldElementView {
    FieldElementView {
        schema,
        field_position: FieldPositionView { parent, field_name: field.name },
        alias: field.alias,
        arguments: sorted_arguments(field.arguments, field.arguments.len()),
        directives: field.directives,
        sibling_typename: None,
    }
}

/// Whether a field is introspection that is not planned.
pub open spec fn is_introspection(name: Text) -> bool {
    name == "__schema"@ || name == "__type"@
}

/// The selections of a document as a set, and the next number of a fragment.
pub open spec fn normalized_set(
    set: ExecutableSetView,
    cache: Entries<SelectionSetView>,
    schema: SchemaView,
    id: usize,
) -> Result<(SelectionSetView, usize), ErrorView>
    decreases set, 1nat, 0nat,
{
    match composite_type(schema, set.ty) {
        Err(error) => Err(error),
        Ok(ty) => match normalized_selections(set, ty, cache, schema, id, set.selections.len()) {
            Err(error) => Err(error),
            Ok((selections, after)) => match with_selections(
                Seq::empty(),
                selections,
                selections.len(),
            ) {
                Err(error) => Err(error),
                Ok(merged) => Ok(
                    (
                        SelectionSetView { schema, type_position: ty, selections: merged },
                        after,
                    ),
                ),
            },
        },
    }
}

/// What the first `n` selections of a document come to, one after the other.
pub open spec fn normalized_selections(
    set: ExecutableSetView,
    parent: CompositeView,
    cache: Entries<SelectionSetView>,
    schema: SchemaView,
    id: usize,
    n: nat,
) -> Result<(Seq<SelectionView>, usize), ErrorView>
    decreases set, 0nat, n,
{
    if n == 0 || n > set.selections.len() {
        Ok((Seq::empty(), id))
    } else {
        match normalized_selections(set, parent, cache, schema, id, (n - 1) as nat) {
            Err(error) => Err(error),
            Ok((before, next)) => match normalized_selection(
                set.selections[n - 1],
                parent,
                cache,
                schema,
                next,
            ) {
                Err(error) => Err(error),
                Ok((found, after)) => Ok((before + found, after)),
            },
        }
    }
}

/// What a selection of a document comes to: nothing for introspection, the selections of a fragment
/// that says nothing, or one selection.
pub open spec fn normalized_selection(
    selection: ExecutableView,
    parent: CompositeView,
    cache: Entries<SelectionSetView>,
    schema: SchemaView,
    id: usize,
) -> Result<(Seq<SelectionView>, usize), ErrorView>
    decreases selection, 2nat, 0nat,
{
    match selection {
        ExecutableView::Field(field) => if is_introspection(field.name) {
            Ok((Seq::empty(), id))
        } else {
            normalized_field(field, parent, cache, schema, id)
        },
        ExecutableView::FragmentSpread(spread) => match spread_as_fragment(
            spread,
            parent,
            cache,
            schema,
            id,
        ) {
            Err(error) => Err(error),
            Ok((fragment, set)) => Ok(
                (
                    if set.type_position == parent && spread.directives.len() == 0 {
                        set.selections
                    } else {
                        seq![SelectionView::InlineFragment { fragment, set }]
                    },
                    next_id(id),
                ),
            ),
        },
        ExecutableView::InlineFragment(fragment) => if (fragment.type_condition is None
            || fragment.type_condition == Some(composite_name(parent)))
            && fragment.directives.len() == 0 {
            normalized_selections(
                fragment.selection_set,
                parent,
                cache,
                schema,
                id,
                fragment.selection_set.selections.len(),
            )
        } else {
            normalized_fragment(fragment, parent, cache, schema, id)
        },
    }
}

/// What a field of a document comes to.
pub open spec fn normalized_field(
    field: ExecutableFieldView,
    parent: CompositeView,
    cache: Entries<SelectionSetView>,
    schema: SchemaView,
    id: usize,
) -> Result<(Seq<SelectionView>, usize), ErrorView>
    decreases field, 1nat, 0nat,
{
    match field_type(schema, FieldPositionView { parent, field_name: field.name }) {
        Err(error) => Err(error),
        Ok(_) => match get_type(schema, field.selection_set.ty) {
            Err(error) => Err(error),
            Ok(position) => if as_composite(position) is Some {
                match normalized_set(field.selection_set, cache, schema, id) {
                    Err(error) => Err(error),
                    Ok((sub, after)) => Ok(
                        (
                            seq![
                                SelectionView::Field {
                                    field: plain_field(field, parent, schema),
                                    sub: Some(sub),
                                },
                            ],
                            after,
                        ),
                    ),
                }
            } else {
                Ok(
                    (
                        seq![
                            SelectionView::Field {
                                field: plain_field(field, parent, schema),
                                sub: None,
                            },
                        ],
                        id,
                    ),
                )
            },
        },
    }
}

/// The type condition of a fragment of a document.
pub open spec fn fragment_condition(condition: Option<Text>, schema: SchemaView) -> Result<
    Option<CompositeView>,
    ErrorView,
> {
    match condition {
        None => Ok(None),
        Some(name) => match composite_type(schema, name) {
            Ok(composite) => Ok(Some(composite)),
            Err(error) => Err(error),
        },
    }
}

/// What an inline fragment of a document comes to.
pub open spec fn normalized_fragment(
    fragment: ExecutableFragmentView,
    parent: CompositeView,
    cache: Entries<SelectionSetView>,
    schema: SchemaView,
    id: usize,
) -> Result<(Seq<SelectionView>, usize), ErrorView>
    decreases fragment, 1nat, 0nat,
{
    match fragment_condition(fragment.type_condition, schema) {
        Err(error) => Err(error),
        Ok(condition) => match normalized_set(fragment.selection_set, cache, schema, id) {
            Err(error) => Err(error),
            Ok((set, after)) => Ok(
                (
                    seq![
                        SelectionView::InlineFragment {
                            fragment: InlineFragmentView {
                                schema,
                                parent_type_position: parent,
                                type_condition_position: condition,
                                directives: fragment.directives,
                                selection_id: SelectionId(after),
                            },
                            set,
                        },
                    ],
                    next_id(after),
                ),
            ),
        },
    }
}

/// Whether an error, if there is one, is not that of work that was cancelled.
pub open spec fn is_own_error<T>(r: Result<T, ErrorView>) -> bool {
    r matches Err(error) ==> error.kind != ErrorKind::PlanningCancelled
}

proof fn lemma_spread_kind(schema: SchemaView, directives: Seq<DirectiveView>, n: nat)
    ensures
        spread_error(schema, directives, n) matches Some(error) ==> error.kind
            != ErrorKind::PlanningCancelled,
    decreases n,
{
    if n > 0 {
        lemma_spread_kind(schema, directives, (n - 1) as nat);
    }
}

/// Normalizing has errors of its own, apart from that of work that was cancelled.
pub proof fn lemma_normalized_set_kind(
    set: ExecutableSetView,
    cache: Entries<SelectionSetView>,
    schema: SchemaView,
    id: usize,
)
    ensures
        is_own_error(normalized_set(set, cache, schema, id)),
    decreases set, 1nat, 0nat,
{
    match composite_type(schema, set.ty) {
        Err(_) => {},
        Ok(ty) => {
            lemma_normalized_selections_kind(set, ty, cache, schema, id, set.selections.len());
            match normalized_selections(set, ty, cache, schema, id, set.selections.len()) {
                Err(_) => {},
                Ok((selections, after)) => {
                    lemma_with_selections_kind(Seq::empty(), selections, selections.len());
                },
            }
        },
    }
}

proof fn lemma_normalized_selections_kind(
    set: ExecutableSetView,
    parent: CompositeView,
    cache: Entries<SelectionSetView>,
    schema: SchemaView,
    id: usize,
    n: nat,
)
    ensures
        is_own_error(normalized_selections(set, parent, cache, schema, id, n)),
    decreases set, 0nat, n,
{
    if 0 < n <= set.selections.len() {
        lemma_normalized_selections_kind(set, parent, cache, schema, id, (n - 1) as nat);
        match normalized_selections(set, parent, cache, schema, id, (n - 1) as nat) {
            Err(_) => {},
            Ok((before, next)) => {
                let selection = set.selections[n - 1];
                lemma_normalized_selection_kind(selection, parent, cache, schema, next);
            },
        }
    }
}

proof fn lemma_normalized_selection_kind(
    selection: ExecutableView,
    parent: CompositeView,
    cache: Entries<SelectionSetView>,
    schema: SchemaView,
    id: usize,
)
    ensures
        is_own_error(normalized_selection(selection, parent, cache, schema, id)),
    decreases selection, 2nat, 0nat,
{
    match selection {
        ExecutableView::Field(field) => {
            lemma_normalized_set_kind(field.selection_set, cache, schema, id);
            assert(is_own_error(normalized_field(field, parent, cache, schema, id)));
        },
        ExecutableView::FragmentSpread(spread) => {
            lemma_spread_kind(schema, spread.directives, spread.directives.len());
        },
        ExecutableView::InlineFragment(fragment) => {
            let set = fragment.selection_set;
            lemma_normalized_selections_kind(set, parent, cache, schema, id, set.selections.len());
            lemma_normalized_set_kind(set, cache, schema, id);
            assert(is_own_error(normalized_fragment(fragment, parent, cache, schema, id)));
        },
    }
}

proof fn lemma_normalized_error(
    set: ExecutableSetView,
    parent: CompositeView,
    cache: Entries<SelectionSetView>,
    schema: SchemaView,
    id: usize,
    n: nat,
    m: nat,
)
    requires
        n <= m <= set.selections.len(),
        normalized_selections(set, parent, cache, schema, id, n) is Err,
    ensures
        normalized_selections(set, parent, cache, schema, id, m) == normalized_selections(
            set,
            parent,
            cache,
            schema,
            id,
            n,
        ),
    decreases m,
{
    if n < m {
        lemma_normalized_error(set, parent, cache, schema, id, n, (m - 1) as nat);
    }
}

proof fn lemma_spread_error(schema: SchemaView, directives: Seq<DirectiveView>, n: nat, m: nat)
    requires
        n <= m,
        spread_error(schema, directives, n) is Some,
    ensures
        spread_error(schema, directives, m) == spread_error(schema, directives, n),
    decreases m,
{
    if n < m {
        lemma_spread_error(schema, directives, n, (m - 1) as nat);
    }
}

fn find_spread_error(schema: &Schema, directives: &Vec<Directive>) -> (r: Option<FederationError>)
    ensures
        r.deep_view() == spread_error(
            schema.deep_view(),
            directives.deep_view(),
            directives.deep_view().len(),
        ),
{
    let ghost s = schema.deep_view();
    let ghost all = directives.deep_view();
    let mut i: usize = 0;
    while i < directives.len()
        invariant
            i <= directives@.len(),
            s == schema.deep_view(),
            all == directives.deep_view(),
            spread_error(s, all, i as nat) is None,
        decreases directives@.len() - i,
    {
        let name = &directives[i].name;
        assert(all[i as int].name == name@);
        let supported = match schema.directive_definitions.get(name) {
            None => {
                proof {
                    lemma_spread_error(s, all, i as nat + 1, all.len());
                }
                return Some(
                    FederationError::internal(&joined("Undefined directive ", name)),
                );
            },
            Some(definition) => has_inline_fragment_location(&definition.locations),
        };
        if !supported {
            proof {
                lemma_spread_error(s, all, i as nat + 1, all.len());
            }
            return Some(
                FederationError {
                    kind: ErrorKind::UnsupportedSpreadDirective,
                    message: joined(
                        "Directive not supported on fragment spread: @",
                        name,
                    ),
                },
            );
        }
        i += 1;
    }
    None
}

fn has_inline_fragment_location(locations: &Vec<DirectiveLocation>) -> (r: bool)
    ensures
        r == locations@.contains(DirectiveLocation::InlineFragment),
{
    let mut i: usize = 0;
    while i < locations.len()
        invariant
            i <= locations@.len(),
            forall|j: int| 0 <= j < i ==> locations@[j] != DirectiveLocation::InlineFragment,
        decreases locations@.len() - i,
    {
        if locations[i] == DirectiveLocation::InlineFragment {
            return true;
        }
        i += 1;
    }
    false
}

/// What normalizing needs: the fragments that are expanded, the schema, and whether to go on.
pub struct Normalizer<'a, C: Fn() -> Result<(), FederationError>> {
    pub fragments_cache: &'a NameMap<SelectionSet>,
    pub schema: &'a Arc<Schema>,
    pub check_cancellation: &'a C,
}

/// Whether a result is the expected one with the expected next number, or the work was cancelled.
pub open spec fn normalized_as<T, C: Fn() -> Result<(), FederationError>>(
    r: Result<T, FederationError>,
    value: spec_fn(T) -> Seq<SelectionView>,
    next: usize,
    expected: Result<(Seq<SelectionView>, usize), ErrorView>,
    check_cancellation: C,
) -> bool {
    match r {
        Ok(found) => expected == Ok::<(Seq<SelectionView>, usize), ErrorView>((value(found), next)),
        Err(error) => expected == Err::<(Seq<SelectionView>, usize), ErrorView>(error.deep_view())
            || may_cancel(check_cancellation, error),
    }
}

/// The content of selections that were found.
pub open spec fn found_view(found: Vec<Selection>) -> Seq<SelectionView> {
    selections_view(found@)
}

impl InlineFragmentSelection {
    /// A fragment spread as an inline fragment.
    pub fn from_fragment_spread<C: Fn() -> Result<(), FederationError>>(
        parent_type_position: &CompositeTypeDefinitionPosition,
        fragment_spread: &FragmentSpread,
        normalizer: &Normalizer<C>,
        selection_ids: &mut SelectionIdCounter,
    ) -> (r: Result<InlineFragmentSelection, FederationError>)
        ensures
            match r {
                Ok(selection) => {
                    &&& final(selection_ids).next == next_id(old(selection_ids).next)
                    &&& spread_as_fragment(
                        fragment_spread.deep_view(),
                        parent_type_position.deep_view(),
                        normalizer.fragments_cache.deep_view(),
                        normalizer.schema.deep_view(),
                        old(selection_ids).next,
                    ) == Ok::<(InlineFragmentView, SelectionSetView), ErrorView>(
                        (
                            selection.inline_fragment.deep_view(),
                            selection.selection_set.deep_view(),
                        ),
                    )
                },
                Err(error) => spread_as_fragment(
                    fragment_spread.deep_view(),
                    parent_type_position.deep_view(),
                    normalizer.fragments_cache.deep_view(),
                    normalizer.schema.deep_view(),
                    old(selection_ids).next,
                ) == Err::<(InlineFragmentView, SelectionSetView), ErrorView>(error.deep_view()),
            },
    {
        let set = match normalizer.fragments_cache.get(&fragment_spread.fragment_name) {
            Some(set) => set,
            None => {
                return Err(
                    FederationError::internal(
                        &joined3(
                            "Fragment spread referenced non-existent fragment \"",
                            &fragment_spread.fragment_name,
                            "\"",
                        ),
                    ),
                );
            },
        };
        if let Some(error) = find_spread_error(normalizer.schema, &fragment_spread.directives) {
            return Err(error);
        }
        Ok(
            InlineFragmentSelection {
                inline_fragment: InlineFragment {
                    schema: normalizer.schema.clone(),
                    parent_type_position: parent_type_position.clone(),
                    type_condition_position: Some(set.type_position.clone()),
                    directives: clone_directives(&fragment_spread.directives),
                    selection_id: SelectionId::new(selection_ids),
                },
                selection_set: set.clone(),
            },
        )
    }

    /// What an inline fragment of a document comes to.
    pub fn from_inline_fragment<C: Fn() -> Result<(), FederationError>>(
        inline_fragment: &ExecutableFragment,
        parent_type_position: &CompositeTypeDefinitionPosition,
        normalizer: &Normalizer<C>,
        selection_ids: &mut SelectionIdCounter,
    ) -> (r: Result<Selection, FederationError>)
        requires
            normalizer.check_cancellation.requires(()),
        ensures
            normalized_as(
                r,
                |s: Selection| seq![s.deep_view()],
                final(selection_ids).next,
                normalized_fragment(
                    (ExecutableFragmentView {
                        type_condition: inline_fragment.type_condition.deep_view(),
                        directives: inline_fragment.directives.deep_view(),
                        selection_set: inline_fragment.selection_set.deep_view(),
                    }),
                    parent_type_position.deep_view(),
                    normalizer.fragments_cache.deep_view(),
                    normalizer.schema.deep_view(),
                    old(selection_ids).next,
                ),
                *normalizer.check_cancellation,
            ),
        decreases inline_fragment, 1int,
    {
        let condition = match &inline_fragment.type_condition {
            None => None,
            Some(name) => match get_composite(normalizer.schema, name) {
                Ok(composite) => Some(composite),
                Err(error) => {
                    return Err(error);
                },
            },
        };
        let set = match SelectionSet::from_selection_set(
            &inline_fragment.selection_set,
            normalizer,
            selection_ids,
        ) {
            Ok(set) => set,
            Err(error) => {
                return Err(error);
            },
        };
        Ok(
            Selection::InlineFragment(
                InlineFragmentSelection {
                    inline_fragment: InlineFragment {
                        schema: normalizer.schema.clone(),
                        parent_type_position: parent_type_position.clone(),
                        type_condition_position: condition,
                        directives: clone_directives(&inline_fragment.directives),
                        selection_id: SelectionId::new(selection_ids),
                    },
                    selection_set: set,
                },
            ),
        )
    }
}

impl FieldSelection {
    /// What a field of a document comes to, if it is not introspection.
    pub fn from_field<C: Fn() -> Result<(), FederationError>>(
        field: &ExecutableField,
        parent_type_position: &CompositeTypeDefinitionPosition,
        normalizer: &Normalizer<C>,
        selection_ids: &mut SelectionIdCounter,
    ) -> (r: Result<Option<Selection>, FederationError>)
        requires
            normalizer.check_cancellation.requires(()),
        ensures
            normalized_as(
                r,
                |s: Option<Selection>|
                    match s {
                        Some(selection) => seq![selection.deep_view()],
                        None => Seq::empty(),
                    },
                final(selection_ids).next,
                if is_introspection(field.name@) {
                    Ok((Seq::empty(), old(selection_ids).next))
                } else {
                    normalized_field(
                        (ExecutableFieldView {
                            alias: field.alias.deep_view(),
                            name: field.name@,
                            arguments: field.arguments.deep_view(),
                            directives: field.directives.deep_view(),
                            selection_set: field.selection_set.deep_view(),
                        }),
                        parent_type_position.deep_view(),
                        normalizer.fragments_cache.deep_view(),
                        normalizer.schema.deep_view(),
                        old(selection_ids).next,
                    )
                },
                *normalizer.check_cancellation,
            ),
        decreases field, 1int,
    {
        if same(&field.name, "__schema") || same(&field.name, "__type") {
            return Ok(None);
        }
        let field_position = FieldDefinitionPosition {
            parent: parent_type_position.clone(),
            field_name: field.name.clone(),
        };
        match normalizer.schema.field_type(&field_position) {
            Ok(_) => {},
            Err(error) => {
                return Err(error);
            },
        }
        let is_composite = match normalizer.schema.get_type(&field.selection_set.ty) {
            Ok(position) => position.to_composite().is_some(),
            Err(error) => {
                return Err(error);
            },
        };
        let selection_set = if is_composite {
            match SelectionSet::from_selection_set(
                &field.selection_set,
                normalizer,
                selection_ids,
            ) {
                Ok(set) => Some(set),
                Err(error) => {
                    return Err(error);
                },
            }
        } else {
            None
        };
        let written = field.arguments.clone();
        assert(written.deep_view() =~= field.arguments.deep_view());
        Ok(
            Some(
                Selection::Field(
                    FieldSelection {
                        field: Field {
                            schema: normalizer.schema.clone(),
                            field_position,
                            alias: clone_text(&field.alias),
                            arguments: ArgumentList::from(written).to_vec(),
                            directives: clone_directives(&field.directives),
                            sibling_typename: None,
                        },
                        selection_set,
                    },
                ),
            ),
        )
    }
}

impl SelectionSet {
    /// The selections of a document as a set: fragments are expanded, selections of one key are
    /// merged, fragments that say nothing are taken apart, and introspection is left out.
    pub fn from_selection_set<C: Fn() -> Result<(), FederationError>>(
        selection_set: &ExecutableSet,
        normalizer: &Normalizer<C>,
        selection_ids: &mut SelectionIdCounter,
    ) -> (r: Result<SelectionSet, FederationError>)
        requires
            normalizer.check_cancellation.requires(()),
        ensures
            ({
                let expected = normalized_set(
                    selection_set.deep_view(),
                    normalizer.fragments_cache.deep_view(),
                    normalizer.schema.deep_view(),
                    old(selection_ids).next,
                );
                match r {
                    Ok(set) => expected == Ok::<(SelectionSetView, usize), ErrorView>(
                        (set.deep_view(), final(selection_ids).next),
                    ),
                    Err(error) => expected == Err::<(SelectionSetView, usize), ErrorView>(
                        error.deep_view(),
                    ) || may_cancel(*normalizer.check_cancellation, error),
                }
            }),
            must_cancel(*normalizer.check_cancellation)
                && selection_set.deep_view().selections.len() != 0 && composite_type(
                normalizer.schema.deep_view(),
                selection_set.deep_view().ty,
            ) is Ok ==> (r matches Err(error) && may_cancel(*normalizer.check_cancellation, error)),
        decreases selection_set, 1int,
    {
        let type_position = match get_composite(normalizer.schema, &selection_set.ty) {
            Ok(composite) => composite,
            Err(error) => {
                return Err(error);
            },
        };
        let normalized = match SelectionSet::normalize_selections(
            selection_set,
            &type_position,
            normalizer,
            selection_ids,
        ) {
            Ok(normalized) => normalized,
            Err(error) => {
                return Err(error);
            },
        };
        let mut merged = SelectionSet::empty(normalizer.schema.clone(), type_position);
        match merged.merge_selections_into(&normalized) {
            Ok(_) => Ok(merged),
            Err(error) => Err(error),
        }
    }

    /// What the selections of a document come to, one after the other.
    pub fn normalize_selections<C: Fn() -> Result<(), FederationError>>(
        selection_set: &ExecutableSet,
        parent_type_position: &CompositeTypeDefinitionPosition,
        normalizer: &Normalizer<C>,
        selection_ids: &mut SelectionIdCounter,
    ) -> (r: Result<Vec<Selection>, FederationError>)
        requires
            normalizer.check_cancellation.requires(()),
        ensures
            normalized_as(
                r,
                |found: Vec<Selection>| found_view(found),
                final(selection_ids).next,
                normalized_selections(
                    selection_set.deep_view(),
                    parent_type_position.deep_view(),
                    normalizer.fragments_cache.deep_view(),
                    normalizer.schema.deep_view(),
                    old(selection_ids).next,
                    selection_set.deep_view().selections.len(),
                ),
                *normalizer.check_cancellation,
            ),
            must_cancel(*normalizer.check_cancellation)
                && selection_set.deep_view().selections.len() != 0 ==> (r matches Err(error)
                && may_cancel(*normalizer.check_cancellation, error)),
        decreases selection_set, 0int,
    {
        proof {
            lemma_executable_set(*selection_set);
        }
        let ghost all = selection_set.deep_view();
        let ghost p = parent_type_position.deep_view();
        let ghost cache = normalizer.fragments_cache.deep_view();
        let ghost s = normalizer.schema.deep_view();
        let ghost id = selection_ids.next;
        let check_cancellation = normalizer.check_cancellation;
        let mut destination: Vec<Selection> = Vec::new();
        assert(selections_view(destination@) =~= Seq::empty());
        let mut i: usize = 0;
        while i < selection_set.selections.len()
            invariant
                i <= selection_set.selections@.len(),
                check_cancellation.requires(()),
                check_cancellation == normalizer.check_cancellation,
                must_cancel(*normalizer.check_cancellation) ==> i == 0,
                all == selection_set.deep_view(),
                all.selections == executables_view(selection_set.selections@),
                p == parent_type_position.deep_view(),
                cache == normalizer.fragments_cache.deep_view(),
                s == normalizer.schema.deep_view(),
                id == old(selection_ids).next,
                normalized_selections(all, p, cache, s, id, i as nat) == Ok::<
                    (Seq<SelectionView>, usize),
                    ErrorView,
                >((selections_view(destination@), selection_ids.next)),
            decreases selection_set.selections@.len() - i,
        {
            match check_cancellation() {
                Ok(unit) => {
                    assert(unit == ());
                },
                Err(error) => {
                    return Err(error);
                },
            }
            assert(decreases_to!(*selection_set => selection_set.selections));
            assert(decreases_to!(selection_set.selections@ => selection_set.selections@[i as int]));
            assert(all.selections[i as int] == selection_set.selections@[i as int].deep_view());
            let ghost before = selections_view(destination@);
            match SelectionSet::normalize_selection(
                &selection_set.selections[i],
                parent_type_position,
                normalizer,
                selection_ids,
            ) {
                Ok(mut found) => {
                    let ghost added = selections_view(found@);
                    destination.append(&mut found);
                    assert(selections_view(destination@) =~= before + added);
                },
                Err(error) => {
                    proof {
                        if !may_cancel(*normalizer.check_cancellation, error) {
                            lemma_normalized_error(
                                all,
                                p,
                                cache,
                                s,
                                id,
                                i as nat + 1,
                                all.selections.len(),
                            );
                        }
                    }
                    return Err(error);
                },
            }
            i += 1;
        }
        Ok(destination)
    }

    fn normalize_selection<C: Fn() -> Result<(), FederationError>>(
        selection: &ExecutableSelection,
        parent_type_position: &CompositeTypeDefinitionPosition,
        normalizer: &Normalizer<C>,
        selection_ids: &mut SelectionIdCounter,
    ) -> (r: Result<Vec<Selection>, FederationError>)
        requires
            normalizer.check_cancellation.requires(()),
        ensures
            normalized_as(
                r,
                |found: Vec<Selection>| found_view(found),
                final(selection_ids).next,
                normalized_selection(
                    selection.deep_view(),
                    parent_type_position.deep_view(),
                    normalizer.fragments_cache.deep_view(),
                    normalizer.schema.deep_view(),
                    old(selection_ids).next,
                ),
                *normalizer.check_cancellation,
            ),
        decreases selection, 2int,
    {
        match selection {
            ExecutableSelection::Field(field) => {
                match FieldSelection::from_field(
                    field,
                    parent_type_position,
                    normalizer,
                    selection_ids,
                ) {
                    Err(error) => Err(error),
                    Ok(None) => {
                        let found: Vec<Selection> = Vec::new();
                        assert(found_view(found) =~= Seq::empty());
                        Ok(found)
                    },
                    Ok(Some(new)) => {
                        let found: Vec<Selection> = vec![new];
                        assert(found_view(found) =~= seq![new.deep_view()]);
                        Ok(found)
                    },
                }
            },
            ExecutableSelection::FragmentSpread(spread) => {
                let new = match InlineFragmentSelection::from_fragment_spread(
                    parent_type_position,
                    spread,
                    normalizer,
                    selection_ids,
                ) {
                    Ok(new) => new,
                    Err(error) => {
                        return Err(error);
                    },
                };
                if new.selection_set.type_position.same_as(parent_type_position)
                    && spread.directives.len() == 0 {
                    proof {
                        lemma_set_view(new.selection_set);
                    }
                    Ok(new.selection_set.selections)
                } else {
                    let ghost view = SelectionView::InlineFragment {
                        fragment: new.inline_fragment.deep_view(),
                        set: new.selection_set.deep_view(),
                    };
                    let found: Vec<Selection> = vec![Selection::InlineFragment(new)];
                    assert(found_view(found) =~= seq![view]);
                    Ok(found)
                }
            },
            ExecutableSelection::InlineFragment(fragment) => {
                let on_parent = match &fragment.type_condition {
                    Some(condition) => same(condition, parent_type_position.name()),
                    None => true,
                };
                if on_parent && fragment.directives.len() == 0 {
                    return SelectionSet::normalize_selections(
                        &fragment.selection_set,
                        parent_type_position,
                        normalizer,
                        selection_ids,
                    );
                }
                match InlineFragmentSelection::from_inline_fragment(
                    fragment,
                    parent_type_position,
                    normalizer,
                    selection_ids,
                ) {
                    Ok(new) => {
                        let found: Vec<Selection> = vec![new];
                        assert(found_view(found) =~= seq![new.deep_view()]);
                        Ok(found)
                    },
                    Err(error) => Err(error),
                }
            },
        }
    }
}

} // verus!
