//! Operations as they are planned.

use crate::ast::clone_directives;
use crate::ast::clone_text;
use crate::ast::Directive;
use crate::ast::DirectiveView;
use crate::ast::Name;
use crate::collections::has_key;
use crate::collections::put;
use crate::collections::set_with;
use crate::collections::Entries;
use crate::collections::NameMap;
use crate::collections::NameSet;
use crate::compiler::read_document;
use crate::compiler::schema_fits;
use crate::compiler::parse_and_validate;
use crate::error::result_view;
use crate::error::ErrorKind;
use crate::error::ErrorView;
use crate::error::FederationError;
use crate::operation::defer::labels_of_set;
use crate::operation::defer::normalized_defers;
use crate::operation::defer::reduced_set;
use crate::operation::defer::set_defers;
use crate::operation::defer::DeferNormalizer;
use crate::operation::defer::DeferNormalizerView;
use crate::operation::executable::executables_view;
use crate::operation::executable::lemma_executable_set;
use crate::operation::executable::DocumentView;
use crate::operation::executable::ExecutableDocument;
use crate::operation::executable::ExecutableOperation;
use crate::operation::executable::ExecutableOperationView;
use crate::operation::executable::ExecutableSelection;
use crate::operation::executable::ExecutableSet;
use crate::operation::executable::ExecutableSetView;
use crate::operation::executable::ExecutableView;
use crate::operation::executable::Fragment;
use crate::operation::executable::FragmentView;
use crate::operation::executable::VariableDefinition;
use crate::operation::executable::VariableView;
use crate::operation::normalize::composite_type;
use crate::operation::normalize::lemma_normalized_set_kind;
use crate::operation::normalize::normalized_set;
use crate::operation::normalize::Normalizer;
use crate::operation::selection::SelectionSet;
use crate::operation::selection::SelectionSetView;
use crate::operation::typenames::remove_introspection;
use crate::operation::typenames::without_sibling_typenames;
use crate::operation::typenames::without_typenames;
use crate::operation::SelectionIdCounter;
use crate::query_graph::options::may_cancel;
use crate::query_graph::options::must_cancel;
use crate::query_graph::SchemaRootDefinitionKind;
use crate::schema::Schema;
use crate::schema::SchemaView;
use crate::text::Text;
use std::sync::Arc;
use vstd::prelude::*;

verus! {

/// An operation whose fragments are expanded and whose selections of one key are merged.
pub struct Operation {
    pub schema: Arc<Schema>,
    pub root_kind: SchemaRootDefinitionKind,
    pub name: Option<Name>,
    pub variables: Vec<VariableDefinition>,
    pub directives: Vec<Directive>,
    pub selection_set: SelectionSet,
}

/// The mathematical content of an [`Operation`].
#[verifier::ext_equal]
pub struct OperationView {
    pub schema: SchemaView,
    pub root_kind: SchemaRootDefinitionKind,
    pub name: Option<Text>,
    pub variables: Seq<VariableView>,
    pub directives: Seq<DirectiveView>,
    pub selection_set: SelectionSetView,
}

impl DeepView for Operation {
    type V = OperationView;

    open spec fn deep_view(&self) -> OperationView {
        OperationView {
            schema: self.schema.deep_view(),
            root_kind: self.root_kind,
            name: self.name.deep_view(),
            variables: self.variables.deep_view(),
            directives: self.directives.deep_view(),
            selection_set: self.selection_set.deep_view(),
        }
    }
}

impl Clone for Operation {
    fn clone(&self) -> (r: Self)
        ensures
            r.deep_view() == self.deep_view(),
    {
        let variables = self.variables.clone();
        assert(variables.deep_view() =~= self.variables.deep_view());
        Operation {
            schema: self.schema.clone(),
            root_kind: self.root_kind,
            name: clone_text(&self.name),
            variables,
            directives: clone_directives(&self.directives),
            selection_set: self.selection_set.clone(),
        }
    }
}

/// An operation with every `@defer` normalized.
pub struct NormalizedDefer {
    pub operation: Operation,
    /// Whether there is any `@defer`.
    pub has_defers: bool,
    /// The labels that were made up.
    pub assigned_defer_labels: NameSet,
    /// The labels that depend on a variable, for each variable.
    pub defer_conditions: NameMap<NameSet>,
}

/// The mathematical content of a [`NormalizedDefer`].
#[verifier::ext_equal]
pub struct NormalizedDeferView {
    pub operation: OperationView,
    pub has_defers: bool,
    pub assigned_defer_labels: Seq<Text>,
    pub defer_conditions: Entries<Seq<Text>>,
}

impl DeepView for NormalizedDefer {
    type V = NormalizedDeferView;

    open spec fn deep_view(&self) -> NormalizedDeferView {
        NormalizedDeferView {
            operation: self.operation.deep_view(),
            has_defers: self.has_defers,
            assigned_defer_labels: self.assigned_defer_labels.deep_view(),
            defer_conditions: self.defer_conditions.deep_view(),
        }
    }
}

/// Whether something in an operation is deferred.
pub open spec fn operation_defers(operation: OperationView) -> bool {
    set_defers(operation.selection_set, operation.selection_set.selections.len())
}

/// What is known before `@defer` is normalized.
pub open spec fn defer_start(used_labels: Seq<Text>) -> DeferNormalizerView {
    DeferNormalizerView {
        used_labels,
        assigned_labels: Seq::empty(),
        conditions: Seq::empty(),
        label_offset: 0,
    }
}

/// An operation with every `@defer` normalized.
pub open spec fn with_normalized_defer(operation: OperationView) -> Result<
    NormalizedDeferView,
    ErrorView,
> {
    if !operation_defers(operation) {
        Ok(
            NormalizedDeferView {
                operation,
                has_defers: false,
                assigned_defer_labels: Seq::empty(),
                defer_conditions: Seq::empty(),
            },
        )
    } else {
        match labels_of_set(
            operation.selection_set,
            Seq::empty(),
            operation.selection_set.selections.len(),
        ) {
            Err(error) => Err(error),
            Ok(used) => match normalized_defers(operation.selection_set, defer_start(used)) {
                Err(error) => Err(error),
                Ok((selection_set, after)) => Ok(
                    NormalizedDeferView {
                        operation: OperationView { selection_set, ..operation },
                        has_defers: true,
                        assigned_defer_labels: after.assigned_labels,
                        defer_conditions: after.conditions,
                    },
                ),
            },
        }
    }
}

/// An operation without the `@defer` of the given labels.
pub open spec fn reduced_operation(operation: OperationView, labels: Seq<Text>) -> Result<
    OperationView,
    ErrorView,
> {
    if !operation_defers(operation) {
        Ok(operation)
    } else {
        match reduced_set(operation.selection_set, labels) {
            Err(error) => Err(error),
            Ok(selection_set) => Ok(OperationView { selection_set, ..operation }),
        }
    }
}

impl Operation {
    /// Whether something in the operation is deferred.
    pub fn has_defer(&self) -> (r: bool)
        ensures
            r == operation_defers(self.deep_view()),
    {
        self.selection_set.has_defer()
    }

    /// The operation without the `@defer` of the given labels.
    pub fn reduce_defer(&self, labels: &NameSet) -> (r: Result<Operation, FederationError>)
        ensures
            result_view(r) == reduced_operation(self.deep_view(), labels.deep_view()),
    {
        if !self.has_defer() {
            return Ok(self.clone());
        }
        match self.selection_set.reduce_defer(labels) {
            Err(error) => Err(error),
            Ok(selection_set) => {
                let mut r = self.clone();
                r.selection_set = selection_set;
                Ok(r)
            },
        }
    }

    /// The operation with every `@defer` normalized: each has a label, and a condition only where
    /// that is a variable.
    pub fn with_normalized_defer(self) -> (r: Result<NormalizedDefer, FederationError>)
        ensures
            result_view(r) == with_normalized_defer(self.deep_view()),
    {
        if !self.has_defer() {
            return Ok(
                NormalizedDefer {
                    operation: self,
                    has_defers: false,
                    assigned_defer_labels: NameSet::new(),
                    defer_conditions: NameMap::new(),
                },
            );
        }
        let mut normalizer = match DeferNormalizer::new(&self.selection_set) {
            Ok(normalizer) => normalizer,
            Err(error) => {
                return Err(error);
            },
        };
        let selection_set = match self.selection_set.normalize_defer(&mut normalizer) {
            Ok(selection_set) => selection_set,
            Err(error) => {
                return Err(error);
            },
        };
        let mut operation = self;
        operation.selection_set = selection_set;
        Ok(
            NormalizedDefer {
                operation,
                has_defers: true,
                assigned_defer_labels: normalizer.assigned_labels,
                defer_conditions: normalizer.conditions,
            },
        )
    }
}

// Fragments.

/// The names of the fragments that the first `n` selections use, added to the given ones.
pub open spec fn usages_of_set(set: ExecutableSetView, names: Seq<Text>, n: nat) -> Seq<Text>
    decreases set, n,
{
    if n == 0 || n > set.selections.len() {
        names
    } else {
        usages_of_selection(
            set.selections[n - 1],
            usages_of_set(set, names, (n - 1) as nat),
        )
    }
}

/// The names of the fragments that a selection uses, added to the given ones.
pub open spec fn usages_of_selection(selection: ExecutableView, names: Seq<Text>) -> Seq<Text>
    decreases selection, 0nat,
{
    match selection {
        ExecutableView::Field(field) => usages_of_set(
            field.selection_set,
            names,
            field.selection_set.selections.len(),
        ),
        ExecutableView::InlineFragment(fragment) => usages_of_set(
            fragment.selection_set,
            names,
            fragment.selection_set.selections.len(),
        ),
        ExecutableView::FragmentSpread(spread) => set_with(names, spread.fragment_name),
    }
}

fn collect_fragment_usages(set: &ExecutableSet, names: &mut NameSet)
    ensures
        final(names).deep_view() == usages_of_set(
            set.deep_view(),
            old(names).deep_view(),
            set.deep_view().selections.len(),
        ),
    decreases set,
{
    proof {
        lemma_executable_set(*set);
    }
    let ghost all = set.deep_view();
    let ghost start = names.deep_view();
    let mut i: usize = 0;
    while i < set.selections.len()
        invariant
            i <= set.selections@.len(),
            all == set.deep_view(),
            all.selections == executables_view(set.selections@),
            start == old(names).deep_view(),
            names.deep_view() == usages_of_set(all, start, i as nat),
        decreases set.selections@.len() - i,
    {
        assert(decreases_to!(*set => set.selections));
        assert(decreases_to!(set.selections@ => set.selections@[i as int]));
        assert(all.selections[i as int] == set.selections@[i as int].deep_view());
        let ghost before = names.deep_view();
        match &set.selections[i] {
            ExecutableSelection::Field(field) => {
                collect_fragment_usages(&field.selection_set, names);
            },
            ExecutableSelection::InlineFragment(fragment) => {
                collect_fragment_usages(&fragment.selection_set, names);
            },
            ExecutableSelection::FragmentSpread(spread) => {
                names.insert(spread.fragment_name.clone());
            },
        }
        assert(names.deep_view() == usages_of_selection(all.selections[i as int], before));
        i += 1;
    }
}

/// The fragments that are expanded so far, those that cannot be, and the next number of a fragment.
#[verifier::ext_equal]
pub struct Expansion {
    pub cache: Entries<SelectionSetView>,
    pub removed: Seq<Text>,
    pub id: usize,
}

/// Whether all the fragments that a fragment uses are done.
pub open spec fn is_expandable(fragment: FragmentView, so_far: Expansion) -> bool {
    let used = usages_of_set(
        fragment.selection_set,
        Seq::empty(),
        fragment.selection_set.selections.len(),
    );
    forall|i: int|
        0 <= i < used.len() ==> has_key(so_far.cache, #[trigger] used[i])
            || so_far.removed.contains(used[i])
}

/// What is expanded after one more fragment, all of whose fragments are done.
pub open spec fn expanded_with(fragment: FragmentView, so_far: Expansion, schema: SchemaView) -> Expansion {
    match normalized_set(fragment.selection_set, so_far.cache, schema, so_far.id) {
        Ok((set, id)) => Expansion { cache: put(so_far.cache, fragment.name, set), id, ..so_far },
        Err(_) => Expansion { removed: set_with(so_far.removed, fragment.name), ..so_far },
    }
}

/// Goes through the first `n` fragments once: what is expanded then, and which are left.
pub open spec fn expansion_pass(
    fragments: Seq<FragmentView>,
    so_far: Expansion,
    schema: SchemaView,
    n: nat,
) -> (Expansion, Seq<FragmentView>)
    decreases n,
{
    if n == 0 {
        (so_far, Seq::empty())
    } else {
        let (before, left) = expansion_pass(fragments, so_far, schema, (n - 1) as nat);
        if is_expandable(fragments[n - 1], before) {
            (expanded_with(fragments[n - 1], before, schema), left)
        } else {
            (before, left.push(fragments[n - 1]))
        }
    }
}

/// Goes through the fragments again and again, until all are done or nothing changes.
pub open spec fn expansion(fragments: Seq<FragmentView>, so_far: Expansion, schema: SchemaView) -> Expansion
    decreases fragments.len(),
{
    let (after, left) = expansion_pass(fragments, so_far, schema, fragments.len());
    if left.len() >= fragments.len() {
        after
    } else {
        expansion(left, after, schema)
    }
}

/// Whether the errors of a check say that the work was cancelled.
pub open spec fn says_cancelled<C: Fn() -> Result<(), FederationError>>(check_cancellation: C) -> bool {
    forall|error: FederationError| #[trigger]
        may_cancel(check_cancellation, error) ==> error.kind == ErrorKind::PlanningCancelled
}

/// The fragments of a document with their expansions, and the next number of a fragment.
pub open spec fn expanded_fragments(
    fragments: Seq<FragmentView>,
    schema: SchemaView,
    id: usize,
) -> Expansion {
    expansion(fragments, Expansion { cache: Seq::empty(), removed: Seq::empty(), id }, schema)
}

fn can_expand(
    fragment: &Fragment,
    cache: &NameMap<SelectionSet>,
    removed: &NameSet,
    Ghost(id): Ghost<usize>,
) -> (r: bool)
    ensures
        r == is_expandable(
            fragment.deep_view(),
            (Expansion { cache: cache.deep_view(), removed: removed.deep_view(), id }),
        ),
{
    let mut used = NameSet::new();
    collect_fragment_usages(&fragment.selection_set, &mut used);
    let ghost names = used.deep_view();
    let mut i: usize = 0;
    while i < used.len()
        invariant
            i <= names.len(),
            names == used.deep_view(),
            names == usages_of_set(
                fragment.deep_view().selection_set,
                Seq::empty(),
                fragment.deep_view().selection_set.selections.len(),
            ),
            forall|j: int|
                0 <= j < i ==> has_key(cache.deep_view(), #[trigger] names[j])
                    || removed.deep_view().contains(names[j]),
        decreases names.len() - i,
    {
        let name = used.at(i);
        if !cache.contains_key(name) && !removed.contains(name) {
            assert(!has_key(cache.deep_view(), names[i as int]));
            return false;
        }
        i += 1;
    }
    true
}

/// The content of the fragments with the given indices.
pub open spec fn fragments_at(fragments: Seq<Fragment>, indices: Seq<usize>) -> Seq<FragmentView> {
    Seq::new(indices.len(), |i: int| fragments[indices[i] as int].deep_view())
}

/// Expands the fragments of a document: one is expanded when all the fragments that it uses are.
/// One that cannot be expanded is left out. If the work is cancelled, nothing is expanded.
pub fn normalize_in_dependency_order<C: Fn() -> Result<(), FederationError>>(
    fragments: &Vec<Fragment>,
    schema: &Arc<Schema>,
    check_cancellation: &C,
    selection_ids: &mut SelectionIdCounter,
) -> (r: Result<NameMap<SelectionSet>, FederationError>)
    requires
        check_cancellation.requires(()),
        says_cancelled(*check_cancellation),
    ensures
        match r {
            Ok(cache) => {
                let after = expanded_fragments(
                    fragments.deep_view(),
                    schema.deep_view(),
                    old(selection_ids).next,
                );
                &&& cache.deep_view() == after.cache
                &&& final(selection_ids).next == after.id
            },
            Err(error) => may_cancel(*check_cancellation, error),
        },
{
    let ghost start = Expansion {
        cache: Seq::empty(),
        removed: Seq::empty(),
        id: selection_ids.next,
    };
    let ghost goal = expansion(fragments.deep_view(), start, schema.deep_view());
    let mut cache: NameMap<SelectionSet> = NameMap::new();
    let mut removed = NameSet::new();
    let mut left: Vec<usize> = Vec::new();
    let mut i: usize = 0;
    while i < fragments.len()
        invariant
            i <= fragments@.len(),
            left@.len() == i,
            forall|j: int| 0 <= j < i ==> left@[j] == j,
        decreases fragments@.len() - i,
    {
        left.push(i);
        i += 1;
    }
    assert(fragments_at(fragments@, left@) =~= fragments.deep_view());
    loop
        invariant
            check_cancellation.requires(()),
            says_cancelled(*check_cancellation),
            forall|j: int| 0 <= j < left@.len() ==> (#[trigger] left@[j]) < fragments@.len(),
            goal == expansion(
                fragments.deep_view(),
                Expansion { cache: Seq::empty(), removed: Seq::empty(), id: old(selection_ids).next },
                schema.deep_view(),
            ),
            goal == expansion(
                fragments_at(fragments@, left@),
                Expansion {
                    cache: cache.deep_view(),
                    removed: removed.deep_view(),
                    id: selection_ids.next,
                },
                schema.deep_view(),
            ),
        decreases left@.len(),
    {
        let ghost all = fragments_at(fragments@, left@);
        let ghost first = Expansion {
            cache: cache.deep_view(),
            removed: removed.deep_view(),
            id: selection_ids.next,
        };
        let mut kept: Vec<usize> = Vec::new();
        assert(fragments_at(fragments@, kept@) =~= Seq::empty());
        let mut k: usize = 0;
        while k < left.len()
            invariant
                k <= left@.len(),
                check_cancellation.requires(()),
                says_cancelled(*check_cancellation),
                all == fragments_at(fragments@, left@),
                kept@.len() <= k,
                forall|j: int| 0 <= j < left@.len() ==> (#[trigger] left@[j]) < fragments@.len(),
                forall|j: int| 0 <= j < kept@.len() ==> (#[trigger] kept@[j]) < fragments@.len(),
                expansion_pass(
                    all,
                    first,
                    schema.deep_view(),
                    k as nat,
                ) == (
                    Expansion {
                        cache: cache.deep_view(),
                        removed: removed.deep_view(),
                        id: selection_ids.next,
                    },
                    fragments_at(fragments@, kept@),
                ),
            decreases left@.len() - k,
        {
            let index: usize = left[k];
            let fragment = &fragments[index];
            assert(all[k as int] == fragment.deep_view());
            let ghost so_far = fragments_at(fragments@, kept@);
            if can_expand(fragment, &cache, &removed, Ghost(selection_ids.next)) {
                let before: usize = selection_ids.next;
                let normalizer = Normalizer {
                    fragments_cache: &cache,
                    schema,
                    check_cancellation,
                };
                match SelectionSet::from_selection_set(
                    &fragment.selection_set,
                    &normalizer,
                    selection_ids,
                ) {
                    Ok(set) => {
                        cache.insert(fragment.name.clone(), set);
                    },
                    Err(error) => {
                        proof {
                            lemma_normalized_set_kind(
                                fragment.deep_view().selection_set,
                                cache.deep_view(),
                                schema.deep_view(),
                                before,
                            );
                        }
                        if error.kind == ErrorKind::PlanningCancelled {
                            return Err(error);
                        }
                        selection_ids.next = before;
                        removed.insert(fragment.name.clone());
                    },
                }
            } else {
                kept.push(index);
                assert(fragments_at(fragments@, kept@) =~= so_far.push(all[k as int]));
            }
            k += 1;
        }
        if kept.len() >= left.len() {
            return Ok(cache);
        }
        left = kept;
    }
}

/// An operation of a document with the given selections.
pub open spec fn operation_with(
    operation: ExecutableOperationView,
    schema: SchemaView,
    selection_set: SelectionSetView,
) -> OperationView {
    OperationView {
        schema,
        root_kind: operation.operation_type,
        name: operation.name,
        variables: operation.variables,
        directives: operation.directives,
        selection_set,
    }
}

/// The last steps of normalizing the selections of an operation: `__typename` is taken out at the
/// top, and beside other fields.
pub open spec fn finished(set: SelectionSetView, interfaces: Seq<Text>) -> SelectionSetView {
    without_sibling_typenames(
        SelectionSetView {
            selections: without_typenames(set.selections, set.selections.len()),
            ..set
        },
        interfaces,
    )
}

/// The selections of an operation with its fragments expanded.
pub open spec fn expanded_selections(
    operation: ExecutableOperationView,
    fragments: Seq<FragmentView>,
    schema: SchemaView,
    id: usize,
) -> Result<(SelectionSetView, usize), ErrorView> {
    let expanded = expanded_fragments(fragments, schema, id);
    normalized_set(operation.selection_set, expanded.cache, schema, expanded.id)
}

/// An operation of a document as it is planned: its fragments are expanded, what `flatten` finds
/// needless is left out, and `__typename` is taken out at the top and beside other fields. The
/// result is that operation, or the error of the check if the work is cancelled.
pub fn normalize_operation<
    C: Fn() -> Result<(), FederationError>,
    F: Fn(SelectionSet) -> Result<SelectionSet, FederationError>,
>(
    operation: &ExecutableOperation,
    fragments: &Vec<Fragment>,
    schema: &Arc<Schema>,
    interface_types_with_interface_objects: &NameSet,
    flatten: &F,
    check_cancellation: &C,
    selection_ids: &mut SelectionIdCounter,
) -> (r: Result<Operation, FederationError>)
    requires
        check_cancellation.requires(()),
        says_cancelled(*check_cancellation),
        forall|set: SelectionSet| flatten.requires((set,)),
    ensures
        (r matches Err(error) && may_cancel(*check_cancellation, error)) || match expanded_selections(
            operation.deep_view(),
            fragments.deep_view(),
            schema.deep_view(),
            old(selection_ids).next,
        ) {
            Err(error) => r matches Err(e) && e.deep_view() == error,
            Ok((expanded, next)) => {
                &&& final(selection_ids).next == next
                &&& exists|set: SelectionSet, flat: Result<SelectionSet, FederationError>|
                    {
                        &&& set.deep_view() == expanded
                        &&& #[trigger] flatten.ensures((set,), flat)
                        &&& match flat {
                            Ok(kept) => r matches Ok(normalized) && normalized.deep_view()
                                == operation_with(
                                operation.deep_view(),
                                schema.deep_view(),
                                finished(
                                    kept.deep_view(),
                                    interface_types_with_interface_objects.deep_view(),
                                ),
                            ),
                            Err(error) => r == Err::<Operation, FederationError>(error),
                        }
                    }
            },
        },
        must_cancel(*check_cancellation) && operation.deep_view().selection_set.selections.len() != 0
            && composite_type(
            schema.deep_view(),
            operation.deep_view().selection_set.ty,
        ) is Ok ==> (r matches Err(error) && may_cancel(*check_cancellation, error)),
{
    let cache = match normalize_in_dependency_order(
        fragments,
        schema,
        check_cancellation,
        selection_ids,
    ) {
        Ok(cache) => cache,
        Err(error) => {
            return Err(error);
        },
    };
    let normalizer = Normalizer { fragments_cache: &cache, schema, check_cancellation };
    let expanded = match SelectionSet::from_selection_set(
        &operation.selection_set,
        &normalizer,
        selection_ids,
    ) {
        Ok(expanded) => expanded,
        Err(error) => {
            return Err(error);
        },
    };
    let ghost set = expanded;
    let flat = flatten(expanded);
    assert(flatten.ensures((set,), flat));
    let mut selection_set = match flat {
        Ok(kept) => kept,
        Err(error) => {
            return Err(error);
        },
    };
    remove_introspection(&mut selection_set);
    selection_set.optimize_sibling_typenames(interface_types_with_interface_objects);
    let variables = operation.variables.clone();
    assert(variables.deep_view() =~= operation.variables.deep_view());
    Ok(
        Operation {
            schema: schema.clone(),
            root_kind: operation.operation_type,
            name: clone_text(&operation.name),
            variables,
            directives: clone_directives(&operation.directives),
            selection_set,
        },
    )
}

/// The first operation of a document as it is planned, with its fragments expanded.
pub open spec fn parsed_operation(document: DocumentView, schema: SchemaView, id: usize) -> Result<
    OperationView,
    ErrorView,
> {
    match expanded_selections(document.operations[0], document.fragments, schema, id) {
        Err(error) => Err(error),
        Ok((selection_set, _)) => Ok(
            operation_with(document.operations[0], schema, selection_set),
        ),
    }
}

/// Whether the count of the selections goes on from one number to another where the first operation
/// of a document can be expanded.
pub open spec fn counted_on(
    document: DocumentView,
    schema: SchemaView,
    id: usize,
    next: usize,
) -> bool {
    match expanded_selections(document.operations[0], document.fragments, schema, id) {
        Ok((_, after)) => next == after,
        Err(_) => true,
    }
}

/// The operation that a text comes to, if it can be read.
pub open spec fn operation_of_text(
    document: Option<DocumentView>,
    schema: SchemaView,
    id: usize,
) -> Option<Result<OperationView, ErrorView>> {
    match document {
        None => None,
        Some(document) => Some(parsed_operation(document, schema, id)),
    }
}

impl Operation {
    /// Parses an operation from a source string: the first one of the document, with its fragments
    /// expanded. A text that is no valid document gives an error that says so.
    pub fn parse(
        schema: &Arc<Schema>,
        source_text: &str,
        source_name: &str,
        selection_ids: &mut SelectionIdCounter,
    ) -> (r: Result<Operation, FederationError>)
        requires
            schema_fits(schema.deep_view()),
            source_text@.len() < 0x4000_0000,
        ensures
            match operation_of_text(
                read_document(schema.deep_view(), source_text@, source_name@),
                schema.deep_view(),
                old(selection_ids).next,
            ) {
                None => (r matches Err(error) && error.kind == ErrorKind::InvalidGraphql)
                    && *final(selection_ids) == *old(selection_ids),
                Some(expected) => result_view(r) == expected,
            },
            read_document(schema.deep_view(), source_text@, source_name@) matches Some(document)
                ==> counted_on(
                document,
                schema.deep_view(),
                old(selection_ids).next,
                final(selection_ids).next,
            ),
    {
        match parse_and_validate(schema, source_text, source_name) {
            Ok(document) => Operation::from_document(schema, &document, selection_ids),
            Err(error) => Err(error),
        }
    }

    /// The first operation of a document as it is planned, with its fragments expanded.
    pub fn from_document(
        schema: &Arc<Schema>,
        document: &ExecutableDocument,
        selection_ids: &mut SelectionIdCounter,
    ) -> (r: Result<Operation, FederationError>)
        requires
            document.operations@.len() > 0,
        ensures
            result_view(r) == parsed_operation(
                document.deep_view(),
                schema.deep_view(),
                old(selection_ids).next,
            ),
            counted_on(
                document.deep_view(),
                schema.deep_view(),
                old(selection_ids).next,
                final(selection_ids).next,
            ),
    {
        let operation = &document.operations[0];
        assert(document.deep_view().operations[0] == operation.deep_view());
        let never = || -> (r: Result<(), FederationError>)
            ensures
                r is Ok,
            { Ok(()) };
        let cache = match normalize_in_dependency_order(
            &document.fragments,
            schema,
            &never,
            selection_ids,
        ) {
            Ok(cache) => cache,
            Err(error) => {
                return Err(error);
            },
        };
        let normalizer = Normalizer { fragments_cache: &cache, schema, check_cancellation: &never };
        let selection_set = match SelectionSet::from_selection_set(
            &operation.selection_set,
            &normalizer,
            selection_ids,
        ) {
            Ok(selection_set) => selection_set,
            Err(error) => {
                return Err(error);
            },
        };
        let variables = operation.variables.clone();
        assert(variables.deep_view() =~= operation.variables.deep_view());
        Ok(
            Operation {
                schema: schema.clone(),
                root_kind: operation.operation_type,
                name: clone_text(&operation.name),
                variables,
                directives: clone_directives(&operation.directives),
                selection_set,
            },
        )
    }
}

} // verus!
