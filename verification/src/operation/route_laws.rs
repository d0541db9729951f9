//! Which ways into the answers selections ask for.

use crate::ast::DirectiveView;
use crate::collections::value_of;
use crate::collections::Entries;
use crate::error::ErrorView;
use crate::merge::directives::has_directive;
use crate::operation::executable::ExecutableSetView;
use crate::operation::executable::ExecutableView;
use crate::operation::merging::merged_selection;
use crate::operation::merging::merged_selections;
use crate::operation::merging::merged_sets;
use crate::operation::merging::with_selection;
use crate::operation::merging::with_selections;
use crate::operation::normalize::composite_type;
use crate::operation::normalize::normalized_selection;
use crate::operation::normalize::normalized_selections;
use crate::operation::normalize::normalized_set;
use crate::operation::normalize_laws::asks_for_schema;
use crate::operation::normalize_laws::has_fields;
use crate::operation::normalize_laws::is_trivial;
use crate::operation::normalize_laws::law_fields_stay_what_they_are;
use crate::operation::normalize_laws::law_fragments_stay_what_they_are;
use crate::operation::normalize_laws::law_spreads_are_fragments;
use crate::operation::selection::lemma_selection_index;
use crate::operation::selection::selection_index;
use crate::operation::selection::selection_key;
use crate::operation::selection::SelectionSetView;
use crate::operation::selection::SelectionView;
use crate::schema::position::composite_name;
use crate::schema::position::CompositeView;
use crate::schema::position::FieldPositionView;
use crate::schema::SchemaView;
use crate::text::Text;
use vstd::multiset::Multiset;
use vstd::prelude::*;

verus! {

/// A step on a way into an answer: a field, under the name that its result is returned by and with
/// its directives in any order, or a fragment.
pub enum Step {
    Field {
        position: FieldPositionView,
        response_name: Text,
        directives: Multiset<DirectiveView>,
        has_selections: bool,
    },
    Fragment { type_condition: Option<Text>, directives: Multiset<DirectiveView> },
    Deferred,
}

/// The step that a fragment with the given type condition and directives is.
pub open spec fn fragment_step(type_condition: Option<Text>, directives: Seq<DirectiveView>) -> Step {
    if exists|i: int| 0 <= i < directives.len() && (#[trigger] directives[i]).name == "defer"@ {
        Step::Deferred
    } else {
        Step::Fragment { type_condition, directives: directives.to_multiset() }
    }
}

/// The step that a selection is.
pub open spec fn step_of(selection: SelectionView) -> Step {
    match selection {
        SelectionView::Field { field, sub } => Step::Field {
            position: field.field_position,
            response_name: match field.alias {
                Some(alias) => alias,
                None => field.field_position.field_name,
            },
            directives: field.directives.to_multiset(),
            has_selections: sub is Some,
        },
        SelectionView::InlineFragment { fragment, set } => fragment_step(
            match fragment.type_condition_position {
                Some(position) => Some(composite_name(position)),
                None => None,
            },
            fragment.directives,
        ),
    }
}

/// Whether selections ask for a way.
pub open spec fn leads(selections: Seq<SelectionView>, route: Seq<Step>) -> bool
    decreases route.len(), 1nat,
{
    route.len() == 0 || exists|i: int|
        0 <= i < selections.len() && selection_leads(#[trigger] selections[i], route)
}

/// Whether a selection asks for a way of at least one step.
pub open spec fn selection_leads(selection: SelectionView, route: Seq<Step>) -> bool
    decreases route.len(), 0nat,
{
    route.len() > 0 && step_of(selection) == route[0] && match selection {
        SelectionView::Field { field, sub: Some(set) } => leads(set.selections, route.drop_first()),
        SelectionView::Field { field, sub: None } => route.len() == 1,
        SelectionView::InlineFragment { fragment, set } => leads(
            set.selections,
            route.drop_first(),
        ),
    }
}

// Merging.

proof fn lemma_with_leads(selections: Seq<SelectionView>, new: SelectionView, route: Seq<Step>)
    requires
        route.len() > 0,
    ensures
        with_selection(selections, new) matches Ok(after) ==> leads(after, route) == (leads(
            selections,
            route,
        ) || selection_leads(new, route)),
    decreases new, 1nat, 0nat,
{
    let i = selection_index(selections, selection_key(new));
    lemma_selection_index(selections, selection_key(new));
    match with_selection(selections, new) {
        Err(_) => {},
        Ok(after) => {
            if i < selections.len() {
                lemma_merged_leads(selections[i], new, route);
                assert(after == selections.update(i, merged_selection(selections[i], new)->Ok_0));
                if leads(after, route) {
                    let j = choose|j: int|
                        0 <= j < after.len() && selection_leads(#[trigger] after[j], route);
                    if j != i {
                        assert(after[j] == selections[j]);
                    }
                    assert(selection_leads(selections[j], route) || selection_leads(new, route));
                }
                if leads(selections, route) {
                    let j = choose|j: int|
                        0 <= j < selections.len() && selection_leads(
                            #[trigger] selections[j],
                            route,
                        );
                    assert(selection_leads(after[j], route));
                }
                if selection_leads(new, route) {
                    assert(selection_leads(after[i], route));
                }
            } else {
                assert(after == selections.push(new));
                if leads(after, route) {
                    let j = choose|j: int|
                        0 <= j < after.len() && selection_leads(#[trigger] after[j], route);
                    if j < selections.len() {
                        assert(selection_leads(selections[j], route));
                    }
                }
                if leads(selections, route) {
                    let j = choose|j: int|
                        0 <= j < selections.len() && selection_leads(
                            #[trigger] selections[j],
                            route,
                        );
                    assert(selection_leads(after[j], route));
                }
                assert(after[selections.len() as int] == new);
            }
        },
    }
}

proof fn lemma_merged_leads(a: SelectionView, b: SelectionView, route: Seq<Step>)
    requires
        route.len() > 0,
        selection_key(a) == selection_key(b),
    ensures
        merged_selection(a, b) matches Ok(merged) ==> selection_leads(merged, route) == (
        selection_leads(a, route) || selection_leads(b, route)),
    decreases b, 0nat, 0nat,
{
    let rest = route.drop_first();
    match (a, b) {
        (
            SelectionView::Field { field: f, sub: Some(x) },
            SelectionView::Field { field: g, sub: Some(y) },
        ) => {
            lemma_sets_lead(x, y, rest);
        },
        (
            SelectionView::InlineFragment { fragment: f, set: x },
            SelectionView::InlineFragment { fragment: g, set: y },
        ) => {
            lemma_sets_lead(x, y, rest);
            assert(has_directive(f.directives, "defer"@) == has_directive(g.directives, "defer"@));
            assert(step_of(a) == step_of(b));
        },
        _ => {},
    }
}

proof fn lemma_sets_lead(a: SelectionSetView, b: SelectionSetView, route: Seq<Step>)
    ensures
        merged_sets(a, b) matches Ok(merged) ==> leads(merged.selections, route) == (leads(
            a.selections,
            route,
        ) || leads(b.selections, route)),
    decreases b, 1nat, 0nat,
{
    if route.len() > 0 {
        lemma_some_lead(a.selections, b, b.selections.len(), route);
        assert(b.selections.take(b.selections.len() as int) =~= b.selections);
    }
}

proof fn lemma_taken_leads(selections: Seq<SelectionView>, n: int, route: Seq<Step>)
    requires
        0 < n <= selections.len(),
        route.len() > 0,
    ensures
        leads(selections.take(n), route) == (leads(selections.take(n - 1), route)
            || selection_leads(selections[n - 1], route)),
{
    let all = selections.take(n);
    let some = selections.take(n - 1);
    if leads(all, route) {
        let j = choose|j: int| 0 <= j < all.len() && selection_leads(#[trigger] all[j], route);
        if j < n - 1 {
            assert(selection_leads(some[j], route));
        }
    }
    if leads(some, route) {
        let j = choose|j: int| 0 <= j < some.len() && selection_leads(#[trigger] some[j], route);
        assert(selection_leads(all[j], route));
    }
    assert(all[n - 1] == selections[n - 1]);
}

proof fn lemma_some_lead(a: Seq<SelectionView>, b: SelectionSetView, n: nat, route: Seq<Step>)
    requires
        route.len() > 0,
        n <= b.selections.len(),
    ensures
        merged_selections(a, b, n) matches Ok(after) ==> leads(after, route) == (leads(a, route)
            || leads(b.selections.take(n as int), route)),
    decreases b, 0nat, n,
{
    if n > 0 {
        lemma_some_lead(a, b, (n - 1) as nat, route);
        match merged_selections(a, b, (n - 1) as nat) {
            Err(_) => {},
            Ok(before) => {
                lemma_with_leads(before, b.selections[n - 1], route);
                lemma_taken_leads(b.selections, n as int, route);
            },
        }
    }
}

/// What is merged of two sets asks for the ways that one of them asks for, and for no others.
pub proof fn law_merging_keeps_ways(a: SelectionSetView, b: SelectionSetView, route: Seq<Step>)
    ensures
        merged_sets(a, b) matches Ok(merged) ==> leads(merged.selections, route) == (leads(
            a.selections,
            route,
        ) || leads(b.selections, route)),
{
    lemma_sets_lead(a, b, route);
}

proof fn lemma_added_lead(a: Seq<SelectionView>, b: Seq<SelectionView>, n: nat, route: Seq<Step>)
    requires
        route.len() > 0,
        n <= b.len(),
    ensures
        with_selections(a, b, n) matches Ok(after) ==> leads(after, route) == (leads(a, route)
            || leads(b.take(n as int), route)),
    decreases n,
{
    if n > 0 {
        lemma_added_lead(a, b, (n - 1) as nat, route);
        match with_selections(a, b, (n - 1) as nat) {
            Err(_) => {},
            Ok(before) => {
                lemma_with_leads(before, b[n - 1], route);
                lemma_taken_leads(b, n as int, route);
            },
        }
    }
}

/// Selections with others added ask for the ways that the ones or the others ask for.
pub proof fn law_adding_keeps_ways(a: Seq<SelectionView>, b: Seq<SelectionView>, route: Seq<Step>)
    ensures
        with_selections(a, b, b.len()) matches Ok(after) ==> leads(after, route) == (leads(a, route)
            || leads(b, route)),
{
    if route.len() > 0 {
        lemma_added_lead(a, b, b.len(), route);
        assert(b.take(b.len() as int) =~= b);
    }
}

/// Whether two selections are of the same field or fragment, whatever is selected below.
pub open spec fn same_element(a: SelectionView, b: SelectionView) -> bool {
    match (a, b) {
        (
            SelectionView::Field { field: f, sub: s },
            SelectionView::Field { field: g, sub: t },
        ) => f == g && s is Some == t is Some,
        (
            SelectionView::InlineFragment { fragment: f, set: x },
            SelectionView::InlineFragment { fragment: g, set: y },
        ) => f == g,
        _ => false,
    }
}

/// Whether one of the selections is of the same field or fragment as the given one.
pub open spec fn has_element(selections: Seq<SelectionView>, selection: SelectionView) -> bool {
    exists|i: int| 0 <= i < selections.len() && same_element(#[trigger] selections[i], selection)
}

/// Whether no selection before the one at `k` has its key.
pub open spec fn is_first_of_its_key(selections: Seq<SelectionView>, k: int) -> bool {
    forall|j: int|
        0 <= j < k ==> selection_key(#[trigger] selections[j]) != selection_key(selections[k])
}

proof fn lemma_element_stays(
    before: Seq<SelectionView>,
    new: SelectionView,
    selection: SelectionView,
)
    requires
        has_element(before, selection),
    ensures
        with_selection(before, new) matches Ok(after) ==> has_element(after, selection),
{
    let i = choose|i: int|
        0 <= i < before.len() && same_element(#[trigger] before[i], selection);
    lemma_selection_index(before, selection_key(new));
    match with_selection(before, new) {
        Err(_) => {},
        Ok(after) => {
            assert(same_element(after[i], selection));
        },
    }
}

proof fn lemma_elements(b: Seq<SelectionView>, n: nat, k: int)
    requires
        n <= b.len(),
    ensures
        with_selections(Seq::empty(), b, n) matches Ok(after) ==> {
            &&& forall|i: int|
                0 <= i < after.len() ==> has_element(b.take(n as int), #[trigger] after[i])
            &&& 0 <= k < n && is_first_of_its_key(b, k) ==> has_element(after, b[k])
        },
    decreases n,
{
    if n > 0 {
        lemma_elements(b, (n - 1) as nat, k);
        match with_selections(Seq::empty(), b, (n - 1) as nat) {
            Err(_) => {},
            Ok(before) => {
                let new = b[n - 1];
                let some = b.take(n - 1);
                let all = b.take(n as int);
                lemma_selection_index(before, selection_key(new));
                let at = selection_index(before, selection_key(new));
                match with_selection(before, new) {
                    Err(_) => {},
                    Ok(after) => {
                        assert forall|i: int| 0 <= i < after.len() implies has_element(
                            all,
                            #[trigger] after[i],
                        ) by {
                            if i < before.len() {
                                assert(has_element(some, before[i]));
                                let j = choose|j: int|
                                    0 <= j < some.len() && same_element(
                                        #[trigger] some[j],
                                        before[i],
                                    );
                                assert(all[j] == some[j]);
                                assert(same_element(all[j], after[i]));
                            } else {
                                assert(same_element(all[n - 1], after[i]));
                            }
                        }
                        if 0 <= k < n - 1 && is_first_of_its_key(b, k) {
                            lemma_element_stays(before, new, b[k]);
                        }
                        if k == n - 1 && is_first_of_its_key(b, k) {
                            if at < before.len() {
                                assert(has_element(some, before[at]));
                                let j = choose|j: int|
                                    0 <= j < some.len() && same_element(
                                        #[trigger] some[j],
                                        before[at],
                                    );
                                assert(selection_key(b[j]) == selection_key(new));
                            }
                            assert(same_element(after[before.len() as int], new));
                        }
                    },
                }
            },
        }
    }
}

/// Selections that are put together keep their fields and fragments: the first one of each key
/// stays as it is, whatever is merged into it, and nothing else is there.
pub proof fn law_first_of_each_key_stays(b: Seq<SelectionView>)
    ensures
        with_selections(Seq::empty(), b, b.len()) matches Ok(after) ==> {
            &&& forall|i: int| 0 <= i < after.len() ==> has_element(b, #[trigger] after[i])
            &&& forall|k: int|
                #![trigger b[k]]
                0 <= k < b.len() && is_first_of_its_key(b, k) ==> has_element(after, b[k])
        },
{
    assert(b.take(b.len() as int) =~= b);
    lemma_elements(b, b.len(), 0);
    match with_selections(Seq::empty(), b, b.len()) {
        Err(_) => {},
        Ok(after) => {
            assert forall|k: int|
                #![trigger b[k]]
                0 <= k < b.len() && is_first_of_its_key(b, k) implies has_element(after, b[k]) by {
                lemma_elements(b, b.len(), k);
            }
        },
    }
}

// Documents.

/// Whether the selections of a document ask for a way. A fragment that says nothing is no step,
/// and the introspection of a schema is not asked for. What a fragment spread stands for is in the
/// cache.
pub open spec fn document_leads(
    set: ExecutableSetView,
    parent: CompositeView,
    cache: Entries<SelectionSetView>,
    schema: SchemaView,
    route: Seq<Step>,
) -> bool
    decreases set,
{
    route.len() == 0 || exists|i: int|
        0 <= i < set.selections.len() && document_selection_leads(
            #[trigger] set.selections[i],
            parent,
            cache,
            schema,
            route,
        )
}

/// Whether a selection of a document asks for a way of at least one step.
pub open spec fn document_selection_leads(
    selection: ExecutableView,
    parent: CompositeView,
    cache: Entries<SelectionSetView>,
    schema: SchemaView,
    route: Seq<Step>,
) -> bool
    decreases selection,
{
    route.len() > 0 && match selection {
        ExecutableView::Field(field) => {
            &&& !asks_for_schema(field)
            &&& route[0] == Step::Field {
                position: FieldPositionView { parent, field_name: field.name },
                response_name: match field.alias {
                    Some(alias) => alias,
                    None => field.name,
                },
                directives: field.directives.to_multiset(),
                has_selections: has_fields(schema, field.selection_set.ty),
            }
            &&& if has_fields(schema, field.selection_set.ty) {
                document_leads(
                    field.selection_set,
                    composite_type(schema, field.selection_set.ty)->Ok_0,
                    cache,
                    schema,
                    route.drop_first(),
                )
            } else {
                route.len() == 1
            }
        },
        ExecutableView::FragmentSpread(spread) => value_of(
            cache,
            spread.fragment_name,
        ) matches Some(cached) && if spread.directives.len() == 0 && cached.type_position
            == parent {
            leads(cached.selections, route)
        } else {
            route[0] == fragment_step(
                Some(composite_name(cached.type_position)),
                spread.directives,
            ) && leads(cached.selections, route.drop_first())
        },
        ExecutableView::InlineFragment(fragment) => if is_trivial(fragment, parent) {
            document_leads(fragment.selection_set, parent, cache, schema, route)
        } else {
            route[0] == fragment_step(fragment.type_condition, fragment.directives)
                && document_leads(
                fragment.selection_set,
                composite_type(schema, fragment.selection_set.ty)->Ok_0,
                cache,
                schema,
                route.drop_first(),
            )
        },
    }
}

proof fn lemma_one_leads(selection: SelectionView, route: Seq<Step>)
    requires
        route.len() > 0,
    ensures
        leads(seq![selection], route) == selection_leads(selection, route),
{
    assert(seq![selection][0] == selection);
}

proof fn lemma_set_asks(
    set: ExecutableSetView,
    cache: Entries<SelectionSetView>,
    schema: SchemaView,
    id: usize,
    route: Seq<Step>,
)
    ensures
        normalized_set(set, cache, schema, id) matches Ok((found, _)) ==> {
            &&& composite_type(schema, set.ty) == Ok::<CompositeView, ErrorView>(
                found.type_position,
            )
            &&& leads(found.selections, route) == document_leads(
                set,
                found.type_position,
                cache,
                schema,
                route,
            )
        },
    decreases set, 1nat, 0nat,
{
    match normalized_set(set, cache, schema, id) {
        Err(_) => {},
        Ok((found, _)) => {
            let ty = composite_type(schema, set.ty)->Ok_0;
            let n = set.selections.len();
            lemma_selections_ask(set, ty, cache, schema, id, n, route);
            let (selections, _) = normalized_selections(set, ty, cache, schema, id, n)->Ok_0;
            law_adding_keeps_ways(Seq::empty(), selections, route);
        },
    }
}

proof fn lemma_selections_ask(
    set: ExecutableSetView,
    parent: CompositeView,
    cache: Entries<SelectionSetView>,
    schema: SchemaView,
    id: usize,
    n: nat,
    route: Seq<Step>,
)
    requires
        n <= set.selections.len(),
    ensures
        normalized_selections(set, parent, cache, schema, id, n) matches Ok((found, _)) ==> leads(
            found,
            route,
        ) == (route.len() == 0 || exists|i: int|
            0 <= i < n && document_selection_leads(
                #[trigger] set.selections[i],
                parent,
                cache,
                schema,
                route,
            )),
    decreases set, 0nat, n,
{
    if n > 0 && route.len() > 0 {
        lemma_selections_ask(set, parent, cache, schema, id, (n - 1) as nat, route);
        match normalized_selections(set, parent, cache, schema, id, (n - 1) as nat) {
            Err(_) => {},
            Ok((before, next)) => {
                let selection = set.selections[n - 1];
                lemma_selection_asks(selection, parent, cache, schema, next, route);
                match normalized_selection(selection, parent, cache, schema, next) {
                    Err(_) => {},
                    Ok((more, _)) => {
                        let all = before + more;
                        if leads(before, route) {
                            let j = choose|j: int|
                                0 <= j < before.len() && selection_leads(
                                    #[trigger] before[j],
                                    route,
                                );
                            assert(selection_leads(all[j], route));
                        }
                        if leads(more, route) {
                            let j = choose|j: int|
                                0 <= j < more.len() && selection_leads(#[trigger] more[j], route);
                            assert(selection_leads(all[before.len() + j], route));
                        }
                        if leads(all, route) {
                            let j = choose|j: int|
                                0 <= j < all.len() && selection_leads(#[trigger] all[j], route);
                            if j < before.len() {
                                assert(selection_leads(before[j], route));
                            } else {
                                assert(selection_leads(more[j - before.len()], route));
                            }
                        }
                        assert(leads(all, route) == (leads(before, route) || leads(more, route)));
                    },
                }
            },
        }
    }
}

proof fn lemma_selection_asks(
    selection: ExecutableView,
    parent: CompositeView,
    cache: Entries<SelectionSetView>,
    schema: SchemaView,
    id: usize,
    route: Seq<Step>,
)
    requires
        route.len() > 0,
    ensures
        normalized_selection(selection, parent, cache, schema, id) matches Ok((found, _)) ==> leads(
            found,
            route,
        ) == document_selection_leads(selection, parent, cache, schema, route),
    decreases selection, 2nat, 0nat,
{
    let rest = route.drop_first();
    match normalized_selection(selection, parent, cache, schema, id) {
        Err(_) => {},
        Ok((found, _)) => match selection {
            ExecutableView::Field(field) => {
                if !asks_for_schema(field) {
                    law_fields_stay_what_they_are(field, parent, cache, schema, id);
                    assert(found =~= seq![found[0]]);
                    lemma_one_leads(found[0], route);
                    if has_fields(schema, field.selection_set.ty) {
                        lemma_set_asks(field.selection_set, cache, schema, id, rest);
                    }
                }
            },
            ExecutableView::FragmentSpread(spread) => {
                law_spreads_are_fragments(spread, parent, cache, schema, id);
                let cached = value_of(cache, spread.fragment_name)->0;
                if !(spread.directives.len() == 0 && cached.type_position == parent) {
                    assert(found =~= seq![found[0]]);
                    lemma_one_leads(found[0], route);
                }
            },
            ExecutableView::InlineFragment(fragment) => {
                if is_trivial(fragment, parent) {
                    let set = fragment.selection_set;
                    lemma_selections_ask(
                        set,
                        parent,
                        cache,
                        schema,
                        id,
                        set.selections.len(),
                        route,
                    );
                } else {
                    law_fragments_stay_what_they_are(fragment, parent, cache, schema, id);
                    assert(found =~= seq![found[0]]);
                    lemma_one_leads(found[0], route);
                    lemma_set_asks(fragment.selection_set, cache, schema, id, rest);
                }
            },
        },
    }
}

/// The selections that a document comes to ask for exactly the ways that the document asks for.
pub proof fn law_documents_keep_their_ways(
    set: ExecutableSetView,
    cache: Entries<SelectionSetView>,
    schema: SchemaView,
    id: usize,
    route: Seq<Step>,
)
    ensures
        normalized_set(set, cache, schema, id) matches Ok((found, _)) ==> leads(
            found.selections,
            route,
        ) == document_leads(set, found.type_position, cache, schema, route),
{
    lemma_set_asks(set, cache, schema, id, route);
}

} // verus!
