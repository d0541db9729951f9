//! Changing the selections of a set and putting those of one key together again.

use crate::error::internal_error;
use crate::error::result_view;
use crate::error::ErrorView;
use crate::error::FederationError;
use crate::operation::at_path::element_of;
use crate::operation::at_path::selection_of;
use crate::operation::at_path::sub_of;
use crate::operation::conflicts::selections_depth;
use crate::operation::conflicts::selection_depth;
use crate::operation::conflicts::set_depth;
use crate::operation::introspection_typename;
use crate::operation::rebase::rebased_element;
use crate::operation::rebase::rebased_selection;
use crate::operation::selection::empty_set;
use crate::operation::selection::insert_selection;
use crate::operation::selection::lemma_set_view;
use crate::operation::selection::put_selection;
use crate::operation::selection::selections_match;
use crate::operation::selection::selections_view;
use crate::operation::selection::selection_key;
use crate::operation::selection::FieldSelection;
use crate::operation::selection::Selection;
use crate::operation::selection::SelectionSet;
use crate::operation::selection::SelectionSetView;
use crate::operation::selection::SelectionView;
use crate::operation::sibling_alias;
use crate::operation::Field;
use crate::operation::SelectionKeyView;
use crate::operation::SiblingView;
use crate::query_graph::elements::element_parent;
use crate::query_graph::elements::sub_selection_type;
use crate::schema::position::CompositeTypeDefinitionPosition;
use crate::schema::position::CompositeView;
use crate::schema::Schema;
use crate::schema::SchemaView;
use std::sync::Arc;
use vstd::prelude::*;

verus! {

// Groups of selections of one key.

/// The first group of the given key, or the number of groups.
pub open spec fn group_index(groups: Seq<Seq<SelectionView>>, key: SelectionKeyView) -> int
    decreases groups.len(),
{
    if groups.len() == 0 {
        0
    } else if groups[0].len() > 0 && selection_key(groups[0][0]) == key {
        0
    } else {
        1 + group_index(groups.drop_first(), key)
    }
}

/// The groups with one more selection, in the group of its key.
pub open spec fn with_grouped(groups: Seq<Seq<SelectionView>>, new: SelectionView) -> Seq<
    Seq<SelectionView>,
> {
    let i = group_index(groups, selection_key(new));
    if i < groups.len() {
        groups.update(i, groups[i].push(new))
    } else {
        groups.push(seq![new])
    }
}

/// The first `n` selections in groups of one key, in the order in which the keys come.
pub open spec fn grouped(selections: Seq<SelectionView>, n: nat) -> Seq<Seq<SelectionView>>
    decreases n,
{
    if n == 0 {
        Seq::empty()
    } else {
        with_grouped(grouped(selections, (n - 1) as nat), selections[n - 1])
    }
}

/// The content of groups.
pub open spec fn groups_view(groups: Seq<Vec<Selection>>) -> Seq<Seq<SelectionView>> {
    Seq::new(groups.len(), |i: int| selections_view(groups[i]@))
}

fn find_group(groups: &Vec<Vec<Selection>>, like: &Selection) -> (r: usize)
    ensures
        r == group_index(groups_view(groups@), selection_key(like.deep_view())),
        r <= groups@.len(),
{
    let ghost all = groups_view(groups@);
    let ghost key = selection_key(like.deep_view());
    let mut i: usize = 0;
    assert(all.skip(0) =~= all);
    while i < groups.len()
        invariant
            i <= groups@.len(),
            all == groups_view(groups@),
            key == selection_key(like.deep_view()),
            group_index(all, key) == i + group_index(all.skip(i as int), key),
        decreases groups@.len() - i,
    {
        assert(all.skip(i as int)[0] == selections_view(groups@[i as int]@));
        assert(all.skip(i as int).drop_first() =~= all.skip(i + 1));
        if groups[i].len() > 0 {
            assert(selections_view(groups@[i as int]@)[0] == groups@[i as int]@[0].deep_view());
            if groups[i][0].same_key(like) {
                return i;
            }
        }
        i += 1;
    }
    assert(all.skip(i as int).len() == 0);
    i
}

fn add_to_group(group: &mut Vec<Selection>, new: Selection)
    ensures
        selections_view(final(group)@) == selections_view(old(group)@).push(new.deep_view()),
{
    let ghost before = selections_view(group@);
    let ghost view = new.deep_view();
    group.push(new);
    assert(selections_view(group@) =~= before.push(view));
}

fn group_selections(selections: &Vec<Selection>) -> (r: Vec<Vec<Selection>>)
    ensures
        groups_view(r@) == grouped(selections_view(selections@), selections@.len()),
{
    let ghost all = selections_view(selections@);
    let mut groups: Vec<Vec<Selection>> = Vec::new();
    assert(groups_view(groups@) =~= Seq::empty());
    let mut i: usize = 0;
    while i < selections.len()
        invariant
            i <= selections@.len(),
            all == selections_view(selections@),
            groups_view(groups@) == grouped(all, i as nat),
        decreases selections@.len() - i,
    {
        let ghost before = groups_view(groups@);
        let new = selections[i].clone();
        assert(all[i as int] == new.deep_view());
        let k = find_group(&groups, &new);
        if k < groups.len() {
            let ghost first = groups@[k as int];
            let mut group: Vec<Selection> = Vec::new();
            std::mem::swap(&mut group, &mut groups[k]);
            let ghost grown = selections_view(group@).push(new.deep_view());
            add_to_group(&mut group, new);
            groups.set(k, group);
            assert(groups_view(groups@) =~= before.update(k as int, grown));
        } else {
            let ghost view = new.deep_view();
            let group: Vec<Selection> = vec![new];
            assert(selections_view(group@) =~= seq![view]);
            groups.push(group);
            assert(groups_view(groups@) =~= before.push(seq![view]));
        }
        i += 1;
    }
    groups
}

// Making one selection of a group.

/// The selections below the first `n` selections of a group, one after the other.
pub open spec fn subs_of(group: Seq<SelectionView>, n: nat) -> Seq<SelectionView>
    decreases n,
{
    if n == 0 {
        Seq::empty()
    } else {
        let before = subs_of(group, (n - 1) as nat);
        match sub_of(group[n - 1]) {
            Some(set) => before + set.selections,
            None => before,
        }
    }
}

/// One selection on the given type for a group of one key.
pub open spec fn made_selection(
    group: Seq<SelectionView>,
    parent: CompositeView,
    schema: SchemaView,
    depth: nat,
) -> Result<SelectionView, ErrorView>
    decreases depth, 1nat, 0nat,
{
    if group.len() == 0 {
        Err(internal_error("Should not be called without any updates"@))
    } else if group.len() == 1 {
        rebased_selection(group[0], parent, schema)
    } else {
        match rebased_element(element_of(group[0]), parent, schema) {
            Err(error) => Err(error),
            Ok(element) => match sub_selection_type(element) {
                Err(error) => Err(error),
                Ok(None) => selection_of(element, None),
                Ok(Some(ty)) => if depth == 0 {
                    selection_of(element, Some(empty_set(schema, ty)))
                } else {
                    let subs = subs_of(group, group.len());
                    let groups = grouped(subs, subs.len());
                    match made_selections(
                        groups,
                        ty,
                        schema,
                        (depth - 1) as nat,
                        groups.len(),
                    ) {
                        Err(error) => Err(error),
                        Ok(selections) => selection_of(
                            element,
                            Some(SelectionSetView { schema, type_position: ty, selections }),
                        ),
                    }
                },
            },
        }
    }
}

/// One selection for each of the first `n` groups.
pub open spec fn made_selections(
    groups: Seq<Seq<SelectionView>>,
    parent: CompositeView,
    schema: SchemaView,
    depth: nat,
    n: nat,
) -> Result<Seq<SelectionView>, ErrorView>
    decreases depth, 2nat, n,
{
    if n == 0 {
        Ok(Seq::empty())
    } else {
        match made_selections(groups, parent, schema, depth, (n - 1) as nat) {
            Err(error) => Err(error),
            Ok(before) => match made_selection(groups[n - 1], parent, schema, depth) {
                Err(error) => Err(error),
                Ok(new) => Ok(put_selection(before, new)),
            },
        }
    }
}

/// Whether all selections go no deeper than the given depth.
pub open spec fn list_within(selections: Seq<SelectionView>, depth: nat) -> bool {
    forall|i: int| 0 <= i < selections.len() ==> selection_depth(#[trigger] selections[i]) <= depth
}

/// Whether all groups go no deeper than the given depth.
pub open spec fn groups_within(groups: Seq<Seq<SelectionView>>, depth: nat) -> bool {
    forall|i: int| 0 <= i < groups.len() ==> list_within(#[trigger] groups[i], depth)
}

proof fn lemma_selections_within(set: SelectionSetView, n: nat)
    requires
        n <= set.selections.len(),
    ensures
        forall|i: int|
            0 <= i < n ==> selection_depth(#[trigger] set.selections[i]) <= selections_depth(set, n),
    decreases n,
{
    if n > 0 {
        lemma_selections_within(set, (n - 1) as nat);
    }
}

proof fn lemma_subs_within(group: Seq<SelectionView>, n: nat, depth: nat)
    requires
        n <= group.len(),
        list_within(group, depth),
    ensures
        depth > 0 ==> list_within(subs_of(group, n), (depth - 1) as nat),
        depth == 0 ==> subs_of(group, n).len() == 0,
    decreases n,
{
    if n > 0 {
        lemma_subs_within(group, (n - 1) as nat, depth);
        assert(selection_depth(group[n - 1]) <= depth);
        if let Some(set) = sub_of(group[n - 1]) {
            assert(set_depth(set) <= depth);
            lemma_selections_within(set, set.selections.len());
            let before = subs_of(group, (n - 1) as nat);
            let all = before + set.selections;
            assert forall|i: int| 0 <= i < all.len() implies selection_depth(#[trigger] all[i])
                <= depth - 1 by {
                if i >= before.len() {
                    assert(all[i] == set.selections[i - before.len()]);
                }
            }
        }
    }
}

proof fn lemma_grouped_within(selections: Seq<SelectionView>, n: nat, depth: nat)
    requires
        n <= selections.len(),
        list_within(selections, depth),
    ensures
        groups_within(grouped(selections, n), depth),
    decreases n,
{
    if n > 0 {
        lemma_grouped_within(selections, (n - 1) as nat, depth);
        let before = grouped(selections, (n - 1) as nat);
        let new = selections[n - 1];
        lemma_group_index(before, selection_key(new));
        let i = group_index(before, selection_key(new));
        let after = grouped(selections, n);
        assert forall|j: int| 0 <= j < after.len() implies list_within(#[trigger] after[j], depth) by {
            if i < before.len() {
                if j == i {
                    assert(list_within(before[i], depth));
                } else {
                    assert(after[j] == before[j]);
                }
            } else if j < before.len() {
                assert(after[j] == before[j]);
            }
        }
    }
}

proof fn lemma_group_index(groups: Seq<Seq<SelectionView>>, key: SelectionKeyView)
    ensures
        0 <= group_index(groups, key) <= groups.len(),
    decreases groups.len(),
{
    if groups.len() > 0 {
        lemma_group_index(groups.drop_first(), key);
    }
}

proof fn lemma_made_error(
    groups: Seq<Seq<SelectionView>>,
    parent: CompositeView,
    schema: SchemaView,
    depth: nat,
    n: nat,
    m: nat,
)
    requires
        n <= m,
        made_selections(groups, parent, schema, depth, n) is Err,
    ensures
        made_selections(groups, parent, schema, depth, m) == made_selections(
            groups,
            parent,
            schema,
            depth,
            n,
        ),
    decreases m,
{
    if n < m {
        lemma_made_error(groups, parent, schema, depth, n, (m - 1) as nat);
    }
}

fn gather_subs(group: &Vec<Selection>) -> (r: Vec<Selection>)
    ensures
        selections_view(r@) == subs_of(selections_view(group@), group@.len()),
{
    let ghost all = selections_view(group@);
    let mut r: Vec<Selection> = Vec::new();
    assert(selections_view(r@) =~= Seq::empty());
    let mut i: usize = 0;
    while i < group.len()
        invariant
            i <= group@.len(),
            all == selections_view(group@),
            selections_view(r@) == subs_of(all, i as nat),
        decreases group@.len() - i,
    {
        let ghost before = selections_view(r@);
        assert(all[i as int] == group@[i as int].deep_view());
        if let Some(set) = group[i].selection_set() {
            let copy = set.clone();
            proof {
                lemma_set_view(copy);
            }
            let mut more = copy.selections;
            let ghost added = selections_view(more@);
            r.append(&mut more);
            assert(selections_view(r@) =~= before + added);
        }
        i += 1;
    }
    r
}

impl SelectionSet {
    fn make_selection(
        schema: &Arc<Schema>,
        parent_type: &CompositeTypeDefinitionPosition,
        group: &Vec<Selection>,
        Ghost(depth): Ghost<nat>,
    ) -> (r: Result<Selection, FederationError>)
        requires
            list_within(selections_view(group@), depth),
        ensures
            result_view(r) == made_selection(
                selections_view(group@),
                parent_type.deep_view(),
                schema.deep_view(),
                depth,
            ),
        decreases depth, 1int,
    {
        let ghost all = selections_view(group@);
        if group.len() == 0 {
            return Err(FederationError::internal("Should not be called without any updates"));
        }
        assert(all[0] == group@[0].deep_view());
        if group.len() == 1 {
            return group[0].rebase_on(parent_type, schema);
        }
        let element = match group[0].element().rebase_on(parent_type, schema) {
            Ok(element) => element,
            Err(error) => {
                return Err(error);
            },
        };
        let ty = match element.sub_selection_type_position() {
            Err(error) => {
                return Err(error);
            },
            Ok(None) => {
                return Selection::from_element(element, None);
            },
            Ok(Some(ty)) => ty,
        };
        let subs = gather_subs(group);
        proof {
            lemma_subs_within(all, all.len(), depth);
        }
        if subs.len() == 0 {
            let ghost none = subs_of(all, all.len());
            assert(selections_view(subs@).len() == 0);
            assert(grouped(none, none.len()).len() == 0);
            return Selection::from_element(
                element,
                Some(SelectionSet::empty(schema.clone(), ty)),
            );
        }
        proof {
            lemma_grouped_within(
                selections_view(subs@),
                subs@.len(),
                (depth - 1) as nat,
            );
        }
        let groups = group_selections(&subs);
        match SelectionSet::make_selection_set(schema, &ty, &groups, Ghost((depth - 1) as nat)) {
            Ok(set) => Selection::from_element(element, Some(set)),
            Err(error) => Err(error),
        }
    }

    fn make_selection_set(
        schema: &Arc<Schema>,
        parent_type: &CompositeTypeDefinitionPosition,
        groups: &Vec<Vec<Selection>>,
        Ghost(depth): Ghost<nat>,
    ) -> (r: Result<SelectionSet, FederationError>)
        requires
            groups_within(groups_view(groups@), depth),
        ensures
            result_view(r) == (match made_selections(
                groups_view(groups@),
                parent_type.deep_view(),
                schema.deep_view(),
                depth,
                groups@.len(),
            ) {
                Ok(selections) => Ok(
                    SelectionSetView {
                        schema: schema.deep_view(),
                        type_position: parent_type.deep_view(),
                        selections,
                    },
                ),
                Err(error) => Err(error),
            }),
        decreases depth, 2int,
    {
        let ghost all = groups_view(groups@);
        let ghost p = parent_type.deep_view();
        let ghost s = schema.deep_view();
        let mut selections: Vec<Selection> = Vec::new();
        assert(selections_view(selections@) =~= Seq::empty());
        let mut i: usize = 0;
        while i < groups.len()
            invariant
                i <= groups@.len(),
                all == groups_view(groups@),
                groups_within(all, depth),
                p == parent_type.deep_view(),
                s == schema.deep_view(),
                made_selections(all, p, s, depth, i as nat) == Ok::<
                    Seq<SelectionView>,
                    ErrorView,
                >(selections_view(selections@)),
            decreases groups@.len() - i,
        {
            assert(all[i as int] == selections_view(groups@[i as int]@));
            assert(list_within(all[i as int], depth));
            match SelectionSet::make_selection(schema, parent_type, &groups[i], Ghost(depth)) {
                Ok(new) => {
                    insert_selection(&mut selections, new);
                },
                Err(error) => {
                    proof {
                        lemma_made_error(all, p, s, depth, i as nat + 1, all.len());
                    }
                    return Err(error);
                },
            }
            i += 1;
        }
        let r = SelectionSet {
            schema: schema.clone(),
            type_position: parent_type.clone(),
            selections,
        };
        proof {
            lemma_set_view(r);
        }
        Ok(r)
    }
}

// Changing the selections of a set.

/// What a selection is changed to.
pub enum SelectionMapperReturn {
    Removed,
    Selection(Selection),
    SelectionList(Vec<Selection>),
}

/// The mathematical content of a [`SelectionMapperReturn`].
#[verifier::ext_equal]
pub enum MapperView {
    Removed,
    Selection(SelectionView),
    SelectionList(Seq<SelectionView>),
}

impl DeepView for SelectionMapperReturn {
    type V = MapperView;

    open spec fn deep_view(&self) -> MapperView {
        match self {
            SelectionMapperReturn::Removed => MapperView::Removed,
            SelectionMapperReturn::Selection(selection) => MapperView::Selection(
                selection.deep_view(),
            ),
            SelectionMapperReturn::SelectionList(list) => MapperView::SelectionList(
                selections_view(list@),
            ),
        }
    }
}

/// The selections that one is changed to.
pub open spec fn mapped_list(mapped: MapperView) -> Seq<SelectionView> {
    match mapped {
        MapperView::Removed => Seq::empty(),
        MapperView::Selection(selection) => seq![selection],
        MapperView::SelectionList(list) => list,
    }
}

/// Whether a selection is left as it is.
pub open spec fn is_kept(selection: SelectionView, mapped: MapperView) -> bool {
    match mapped {
        MapperView::Selection(new) => selections_match(new, selection),
        _ => false,
    }
}

/// How many selections at the front are left as they are.
pub open spec fn kept_front(selections: Seq<SelectionView>, mapped: Seq<MapperView>, from: nat) -> nat
    decreases selections.len() - from,
{
    if from >= selections.len() || !is_kept(selections[from as int], mapped[from as int]) {
        from
    } else {
        kept_front(selections, mapped, from + 1)
    }
}

/// What the selections from `from` up to `n` are changed to, one after the other.
pub open spec fn mapped_from(mapped: Seq<MapperView>, from: nat, n: nat) -> Seq<SelectionView>
    decreases n,
{
    if n <= from {
        Seq::empty()
    } else {
        mapped_from(mapped, from, (n - 1) as nat) + mapped_list(mapped[n - 1])
    }
}

/// How deep the first `n` of some selections go.
pub open spec fn list_depth(selections: Seq<SelectionView>, n: nat) -> nat
    decreases n,
{
    if n == 0 {
        0
    } else {
        let before = list_depth(selections, (n - 1) as nat);
        let last = selection_depth(selections[n - 1]);
        if before < last {
            last
        } else {
            before
        }
    }
}

/// A set with its selections changed. Those at the front that are left as they are stay as they
/// were, and those of one key are put together.
pub open spec fn lazily_mapped(set: SelectionSetView, mapped: Seq<MapperView>) -> Result<
    SelectionSetView,
    ErrorView,
> {
    let k = kept_front(set.selections, mapped, 0);
    if k >= set.selections.len() {
        Ok(set)
    } else {
        let all = set.selections.take(k as int) + mapped_from(mapped, k, mapped.len());
        let groups = grouped(all, all.len());
        match made_selections(
            groups,
            set.type_position,
            set.schema,
            list_depth(all, all.len()),
            groups.len(),
        ) {
            Err(error) => Err(error),
            Ok(selections) => Ok(SelectionSetView { selections, ..set }),
        }
    }
}

pub(crate) proof fn lemma_kept_front(selections: Seq<SelectionView>, mapped: Seq<MapperView>, from: nat)
    requires
        from <= selections.len(),
    ensures
        from <= kept_front(selections, mapped, from) <= selections.len(),
    decreases selections.len() - from,
{
    if from < selections.len() && is_kept(selections[from as int], mapped[from as int]) {
        lemma_kept_front(selections, mapped, from + 1);
    }
}

proof fn lemma_list_depth(selections: Seq<SelectionView>, n: nat)
    requires
        n <= selections.len(),
    ensures
        forall|i: int|
            0 <= i < n ==> selection_depth(#[trigger] selections[i]) <= list_depth(selections, n),
    decreases n,
{
    if n > 0 {
        lemma_list_depth(selections, (n - 1) as nat);
    }
}

impl SelectionSet {
    /// The set with its selections changed, where `mapped` is what each of them is changed to.
    pub fn lazy_map(&self, mapped: &Vec<SelectionMapperReturn>) -> (r: Result<
        SelectionSet,
        FederationError,
    >)
        requires
            mapped@.len() == self.selections@.len(),
        ensures
            result_view(r) == lazily_mapped(self.deep_view(), mapped.deep_view()),
    {
        proof {
            lemma_set_view(*self);
        }
        let ghost start = self.deep_view().selections;
        let ghost new = mapped.deep_view();
        let mut k: usize = 0;
        loop
            invariant
                k <= self.selections@.len(),
                mapped@.len() == self.selections@.len(),
                start == selections_view(self.selections@),
                start == self.deep_view().selections,
                new == mapped.deep_view(),
                kept_front(start, new, 0) == kept_front(start, new, k as nat),
            ensures
                k < self.selections@.len(),
                kept_front(start, new, 0) == k,
            decreases self.selections@.len() - k,
        {
            if k >= self.selections.len() {
                return Ok(self.clone());
            }
            assert(start[k as int] == self.selections@[k as int].deep_view());
            assert(new[k as int] == mapped@[k as int].deep_view());
            let kept = match &mapped[k] {
                SelectionMapperReturn::Selection(updated) => updated.same_as(&self.selections[k]),
                _ => false,
            };
            if !kept {
                break;
            }
            k += 1;
        }
        let mut all: Vec<Selection> = Vec::new();
        let mut i: usize = 0;
        assert(selections_view(all@) =~= start.take(0));
        while i < k
            invariant
                i <= k <= self.selections@.len(),
                start == selections_view(self.selections@),
                selections_view(all@) == start.take(i as int),
            decreases k - i,
        {
            let ghost before = selections_view(all@);
            all.push(self.selections[i].clone());
            assert(selections_view(all@) =~= before.push(start[i as int]));
            assert(start.take(i + 1) =~= start.take(i as int).push(start[i as int]));
            i += 1;
        }
        let ghost front = start.take(k as int);
        let mut j: usize = k;
        assert(front + mapped_from(new, k as nat, k as nat) =~= front);
        while j < mapped.len()
            invariant
                k <= j <= mapped@.len(),
                new == mapped.deep_view(),
                selections_view(all@) == front + mapped_from(new, k as nat, j as nat),
            decreases mapped@.len() - j,
        {
            let ghost before = selections_view(all@);
            assert(new[j as int] == mapped@[j as int].deep_view());
            match &mapped[j] {
                SelectionMapperReturn::Removed => {},
                SelectionMapperReturn::Selection(updated) => {
                    all.push(updated.clone());
                },
                SelectionMapperReturn::SelectionList(list) => {
                    let mut more = list.clone();
                    assert(selections_view(more@) =~= selections_view(list@));
                    all.append(&mut more);
                },
            }
            assert(selections_view(all@) =~= before + mapped_list(new[j as int]));
            assert(selections_view(all@) =~= front + mapped_from(new, k as nat, j as nat + 1));
            j += 1;
        }
        let ghost everything = selections_view(all@);
        let ghost depth = list_depth(everything, everything.len());
        proof {
            lemma_list_depth(everything, everything.len());
            lemma_grouped_within(everything, everything.len(), depth);
        }
        let groups = group_selections(&all);
        SelectionSet::make_selection_set(&self.schema, &self.type_position, &groups, Ghost(depth))
    }
}

// Adding back what was taken out beside other fields.

/// The `__typename` that a selection remembers.
pub open spec fn sibling_of(selection: SelectionView) -> Option<SiblingView> {
    match selection {
        SelectionView::Field { field, sub } => field.sibling_typename,
        SelectionView::InlineFragment { fragment, set } => None,
    }
}

/// What a selection is changed to when the `__typename` that it remembers is added back.
pub open spec fn typename_added_back(
    selection: SelectionView,
    updated: SelectionView,
    schema: SchemaView,
) -> MapperView {
    match sibling_of(selection) {
        None => MapperView::Selection(updated),
        Some(sibling) => MapperView::SelectionList(
            seq![
                SelectionView::Field {
                    field: introspection_typename(
                        schema,
                        element_parent(element_of(selection)),
                        sibling_alias(sibling),
                    ),
                    sub: None,
                },
                updated,
            ],
        ),
    }
}

/// A set with every `__typename` that is remembered added back.
pub open spec fn typenames_added_back(set: SelectionSetView) -> Result<SelectionSetView, ErrorView>
    decreases set, 1nat, 0nat,
{
    match all_added_back(set, set.selections.len()) {
        Err(error) => Err(error),
        Ok(mapped) => lazily_mapped(set, mapped),
    }
}

/// What the first `n` selections of a set are changed to.
pub open spec fn all_added_back(set: SelectionSetView, n: nat) -> Result<Seq<MapperView>, ErrorView>
    decreases set, 0nat, n,
{
    if n == 0 || n > set.selections.len() {
        Ok(Seq::empty())
    } else {
        match all_added_back(set, (n - 1) as nat) {
            Err(error) => Err(error),
            Ok(before) => match below_added_back(set.selections[n - 1]) {
                Err(error) => Err(error),
                Ok(updated) => Ok(
                    before.push(typename_added_back(set.selections[n - 1], updated, set.schema)),
                ),
            },
        }
    }
}

/// A selection with every `__typename` that is remembered below it added back.
pub open spec fn below_added_back(selection: SelectionView) -> Result<SelectionView, ErrorView>
    decreases selection, 2nat, 0nat,
{
    match selection {
        SelectionView::Field { field, sub } => match sub {
            None => Ok(selection),
            Some(set) => match typenames_added_back(set) {
                Err(error) => Err(error),
                Ok(updated) => Ok(SelectionView::Field { field, sub: Some(updated) }),
            },
        },
        SelectionView::InlineFragment { fragment, set } => match typenames_added_back(set) {
            Err(error) => Err(error),
            Ok(updated) => Ok(SelectionView::InlineFragment { fragment, set: updated }),
        },
    }
}

proof fn lemma_added_back_error(set: SelectionSetView, n: nat, m: nat)
    requires
        n <= m <= set.selections.len(),
        all_added_back(set, n) is Err,
    ensures
        all_added_back(set, m) == all_added_back(set, n),
    decreases m,
{
    if n < m {
        lemma_added_back_error(set, n, (m - 1) as nat);
    }
}

impl SelectionSet {
    /// The set with every `__typename` that is remembered added back, before the selection that
    /// remembers it.
    pub fn add_back_typename_in_attachments(&self) -> (r: Result<SelectionSet, FederationError>)
        ensures
            result_view(r) == typenames_added_back(self.deep_view()),
        decreases self, 1int,
    {
        proof {
            lemma_set_view(*self);
        }
        let ghost all = self.deep_view();
        let mut mapped: Vec<SelectionMapperReturn> = Vec::new();
        assert(mapped.deep_view() =~= Seq::empty());
        let mut i: usize = 0;
        while i < self.selections.len()
            invariant
                i <= self.selections@.len(),
                all == self.deep_view(),
                all.schema == self.schema.deep_view(),
                all.selections == selections_view(self.selections@),
                mapped@.len() == i,
                all_added_back(all, i as nat) == Ok::<Seq<MapperView>, ErrorView>(
                    mapped.deep_view(),
                ),
            decreases self.selections@.len() - i,
        {
            assert(decreases_to!(*self => self.selections));
            assert(decreases_to!(self.selections@ => self.selections@[i as int]));
            let selection = &self.selections[i];
            assert(all.selections[i as int] == selection.deep_view());
            let ghost before = mapped.deep_view();
            let updated = match selection.typenames_below_added_back() {
                Ok(updated) => updated,
                Err(error) => {
                    proof {
                        lemma_added_back_error(all, i as nat + 1, all.selections.len());
                    }
                    return Err(error);
                },
            };
            let ghost view = updated.deep_view();
            let element = selection.element();
            let new = match element.sibling_typename() {
                None => SelectionMapperReturn::Selection(updated),
                Some(sibling) => {
                    let alias = match sibling.alias() {
                        Some(alias) => Some(alias.clone()),
                        None => None,
                    };
                    let field = Field::new_introspection_typename(
                        &self.schema,
                        element.parent_type_position(),
                        alias,
                    );
                    let typename = Selection::Field(FieldSelection { field, selection_set: None });
                    let ghost first = typename.deep_view();
                    let list: Vec<Selection> = vec![typename, updated];
                    assert(selections_view(list@) =~= seq![first, view]);
                    SelectionMapperReturn::SelectionList(list)
                },
            };
            assert(new.deep_view() == typename_added_back(
                all.selections[i as int],
                view,
                all.schema,
            ));
            let ghost added = new.deep_view();
            mapped.push(new);
            assert(mapped.deep_view() =~= before.push(added));
            i += 1;
        }
        self.lazy_map(&mapped)
    }
}

impl Selection {
    fn typenames_below_added_back(&self) -> (r: Result<Selection, FederationError>)
        ensures
            result_view(r) == below_added_back(self.deep_view()),
        decreases self, 2int,
    {
        match self.selection_set() {
            None => Ok(self.clone()),
            Some(set) => match set.add_back_typename_in_attachments() {
                Err(error) => Err(error),
                Ok(updated) => self.with_updated_selection_set(Some(updated)),
            },
        }
    }
}

} // verus!
