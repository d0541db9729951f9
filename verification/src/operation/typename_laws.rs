//! What holds of `__typename` in every operation.

use crate::operation::at_path::element_of;
use crate::operation::introspection_typename;
use crate::operation::laws::every_in_selection;
use crate::operation::laws::every_in_set;
use crate::operation::laws::every_key_is_distinct;
use crate::operation::laws::keys_are_distinct;
use crate::operation::laws::keys_below_are_distinct;
use crate::operation::laws::lemma_each;
use crate::operation::laws::lemma_every;
use crate::operation::mapping::all_added_back;
use crate::operation::mapping::below_added_back;
use crate::operation::mapping::group_index;
use crate::operation::mapping::grouped;
use crate::operation::mapping::is_kept;
use crate::operation::mapping::kept_front;
use crate::operation::mapping::lazily_mapped;
use crate::operation::mapping::lemma_kept_front;
use crate::operation::mapping::list_depth;
use crate::operation::mapping::made_selection;
use crate::operation::mapping::made_selections;
use crate::operation::mapping::mapped_from;
use crate::operation::mapping::mapped_list;
use crate::operation::mapping::sibling_of;
use crate::operation::mapping::typename_added_back;
use crate::operation::mapping::typenames_added_back;
use crate::operation::mapping::MapperView;
use crate::operation::selection::has_selection;
use crate::operation::selection::lemma_selection_index;
use crate::operation::selection::put_selection;
use crate::operation::selection::selection_index;
use crate::operation::selection::selection_key;
use crate::operation::selection::selections_match;
use crate::operation::selection::sets_match;
use crate::operation::selection::SelectionSetView;
use crate::operation::selection::SelectionView;
use crate::operation::sibling_alias;
use crate::operation::typename_field;
use crate::operation::typenames::first_index;
use crate::operation::typenames::if_abstract;
use crate::operation::typenames::is_field;
use crate::operation::typenames::is_typename;
use crate::operation::typenames::remembered_typename;
use crate::operation::typenames::remembering;
use crate::operation::typenames::selection_with_typenames;
use crate::operation::typenames::selection_without_siblings;
use crate::operation::typenames::selections_with_typenames;
use crate::operation::typenames::sibling_index;
use crate::operation::typenames::typename_index;
use crate::operation::typenames::typename_start;
use crate::operation::typenames::with_typenames;
use crate::operation::typenames::without_sibling_typenames;
use crate::operation::typenames::without_typenames;
use crate::operation::SelectionKeyView;
use crate::schema::position::CompositeView;
use crate::schema::SchemaView;
use crate::text::Text;
use vstd::multiset::Multiset;
use vstd::prelude::*;

verus! {

/// The key of `__typename` under a name.
pub open spec fn typename_key(alias: Option<Text>) -> SelectionKeyView {
    SelectionKeyView::Field {
        response_name: match alias {
            Some(name) => name,
            None => typename_field(),
        },
        directives: Multiset::empty(),
    }
}

// Taken out at the top.

/// Where `__typename` was taken out of the top, none is left there.
pub proof fn law_no_typename_is_left(selections: Seq<SelectionView>, n: nat, i: int)
    requires
        n <= selections.len(),
        0 <= i < without_typenames(selections, n).len(),
    ensures
        without_typenames(selections, n)[i] matches SelectionView::Field { field, sub } ==>
            field.field_position.field_name != typename_field(),
    decreases n,
{
    if n > 0 {
        let before = without_typenames(selections, (n - 1) as nat);
        if i < before.len() {
            law_no_typename_is_left(selections, (n - 1) as nat, i);
        }
    }
}

// Taken out and added back.

proof fn lemma_put_has(
    selections: Seq<SelectionView>,
    new: SelectionView,
    key: SelectionKeyView,
)
    requires
        has_selection(selections, key) || selection_key(new) == key,
    ensures
        has_selection(put_selection(selections, new), key),
{
    let i = selection_index(selections, selection_key(new));
    let after = put_selection(selections, new);
    lemma_selection_index(selections, selection_key(new));
    if selection_key(new) == key {
        assert(after[i] == new);
    } else {
        let j = choose|j: int|
            0 <= j < selections.len() && selection_key(#[trigger] selections[j]) == key;
        assert(after[j] == selections[j]);
    }
}

/// Whether one of the groups is of the key.
spec fn has_group(groups: Seq<Seq<SelectionView>>, key: SelectionKeyView, n: nat) -> bool {
    exists|g: int| 0 <= g < n && is_group_of(#[trigger] groups[g], key)
}

/// Whether a group begins with a field of the key.
spec fn is_group_of(group: Seq<SelectionView>, key: SelectionKeyView) -> bool {
    group.len() > 0 && group[0] is Field && selection_key(group[0]) == key
}

proof fn lemma_group_of(groups: Seq<Seq<SelectionView>>, key: SelectionKeyView)
    ensures
        0 <= group_index(groups, key) <= groups.len(),
        group_index(groups, key) < groups.len() ==> groups[group_index(groups, key)].len() > 0
            && selection_key(groups[group_index(groups, key)][0]) == key,
    decreases groups.len(),
{
    if groups.len() > 0 && !(groups[0].len() > 0 && selection_key(groups[0][0]) == key) {
        let rest = groups.drop_first();
        lemma_group_of(rest, key);
        let i = group_index(rest, key);
        if i < rest.len() {
            assert(rest[i] == groups[i + 1]);
        }
    }
}

proof fn lemma_grouped_has(selections: Seq<SelectionView>, n: nat, i: int)
    requires
        0 <= i < n <= selections.len(),
        selections[i] is Field,
    ensures
        has_group(
            grouped(selections, n),
            selection_key(selections[i]),
            grouped(selections, n).len(),
        ),
    decreases n,
{
    let key = selection_key(selections[i]);
    let before = grouped(selections, (n - 1) as nat);
    let after = grouped(selections, n);
    let new = selections[n - 1];
    let j = group_index(before, selection_key(new));
    lemma_group_of(before, selection_key(new));
    if i == n - 1 {
        if j < before.len() {
            assert(after[j] == before[j].push(new));
            assert(after[j][0] == before[j][0]);
            assert(after[j][0] is Field);
            assert(is_group_of(after[j], key));
        } else {
            assert(after[j] =~= seq![new]);
            assert(is_group_of(after[j], key));
        }
    } else {
        lemma_grouped_has(selections, (n - 1) as nat, i);
        let g = choose|g: int| 0 <= g < before.len() && is_group_of(#[trigger] before[g], key);
        if g == j {
            assert(after[g] == before[g].push(new));
            assert(after[g][0] == before[g][0]);
        } else {
            assert(after[g] == before[g]);
        }
        assert(is_group_of(after[g], key));
    }
}

proof fn lemma_made_key(
    group: Seq<SelectionView>,
    parent: CompositeView,
    schema: SchemaView,
    depth: nat,
)
    requires
        group.len() > 0,
        group[0] is Field,
    ensures
        made_selection(group, parent, schema, depth) matches Ok(new) ==> selection_key(new)
            == selection_key(group[0]),
{
    assert(element_of(group[0]) is Field);
}

proof fn lemma_made_has(
    groups: Seq<Seq<SelectionView>>,
    parent: CompositeView,
    schema: SchemaView,
    depth: nat,
    n: nat,
    key: SelectionKeyView,
)
    requires
        n <= groups.len(),
        has_group(groups, key, n),
    ensures
        made_selections(groups, parent, schema, depth, n) matches Ok(selections) ==> has_selection(
            selections,
            key,
        ),
    decreases n,
{
    let g = choose|g: int| 0 <= g < n && is_group_of(#[trigger] groups[g], key);
    if g < n - 1 {
        assert(has_group(groups, key, (n - 1) as nat));
        lemma_made_has(groups, parent, schema, depth, (n - 1) as nat, key);
    } else {
        lemma_made_key(groups[g], parent, schema, depth);
    }
    match (
        made_selections(groups, parent, schema, depth, (n - 1) as nat),
        made_selection(groups[n - 1], parent, schema, depth),
    ) {
        (Ok(before), Ok(new)) => lemma_put_has(before, new, key),
        _ => {},
    }
}

proof fn lemma_front_ends(
    selections: Seq<SelectionView>,
    mapped: Seq<MapperView>,
    from: nat,
    i: int,
)
    requires
        from <= i < selections.len(),
        !is_kept(selections[i], mapped[i]),
    ensures
        kept_front(selections, mapped, from) <= i,
    decreases selections.len() - from,
{
    if from < i && is_kept(selections[from as int], mapped[from as int]) {
        lemma_front_ends(selections, mapped, from + 1, i);
    }
}

proof fn lemma_mapped_holds(mapped: Seq<MapperView>, from: nat, n: nat, i: int, j: int)
    requires
        from <= i < n <= mapped.len(),
        0 <= j < mapped_list(mapped[i]).len(),
    ensures
        mapped_from(mapped, from, n).contains(mapped_list(mapped[i])[j]),
    decreases n,
{
    let wanted = mapped_list(mapped[i])[j];
    let before = mapped_from(mapped, from, (n - 1) as nat);
    let after = mapped_from(mapped, from, n);
    if i == n - 1 {
        assert(after[before.len() + j] == wanted);
    } else {
        lemma_mapped_holds(mapped, from, (n - 1) as nat, i, j);
        let k = choose|k: int| 0 <= k < before.len() && before[k] == wanted;
        assert(after[k] == wanted);
    }
}

/// A field in what the `i`-th selection is changed to is found in the changed set.
proof fn lemma_changed_has(set: SelectionSetView, mapped: Seq<MapperView>, i: int, j: int)
    requires
        mapped.len() == set.selections.len(),
        0 <= i < mapped.len(),
        0 <= j < mapped_list(mapped[i]).len(),
        mapped_list(mapped[i])[j] is Field,
        !is_kept(set.selections[i], mapped[i]) || selection_key(mapped_list(mapped[i])[j])
            == selection_key(set.selections[i]),
        set.selections[i] is Field,
    ensures
        lazily_mapped(set, mapped) matches Ok(new) ==> has_selection(
            new.selections,
            selection_key(mapped_list(mapped[i])[j]),
        ),
{
    let wanted = mapped_list(mapped[i])[j];
    let key = selection_key(wanted);
    let k = kept_front(set.selections, mapped, 0);
    lemma_kept_front(set.selections, mapped, 0);
    if !is_kept(set.selections[i], mapped[i]) {
        lemma_front_ends(set.selections, mapped, 0, i);
    }
    if k < set.selections.len() {
        let front = set.selections.take(k as int);
        let rest = mapped_from(mapped, k, mapped.len());
        let all = front + rest;
        let place = if i < k {
            i
        } else {
            lemma_mapped_holds(mapped, k, mapped.len(), i, j);
            let p = choose|p: int| 0 <= p < rest.len() && rest[p] == wanted;
            assert(all[k + p] == wanted);
            k + p
        };
        assert(selection_key(all[place]) == key);
        lemma_grouped_has(all, all.len(), place);
        let groups = grouped(all, all.len());
        lemma_made_has(
            groups,
            set.type_position,
            set.schema,
            list_depth(all, all.len()),
            groups.len(),
            key,
        );
    } else {
        assert(selection_key(set.selections[i]) == key);
    }
}

pub(crate) proof fn lemma_all_added_back(set: SelectionSetView, n: nat, i: int)
    requires
        0 <= i < n <= set.selections.len(),
    ensures
        all_added_back(set, n) matches Ok(mapped) ==> mapped.len() == n && below_added_back(
            set.selections[i],
        ) is Ok && mapped[i] == typename_added_back(
            set.selections[i],
            below_added_back(set.selections[i])->Ok_0,
            set.schema,
        ),
    decreases n,
{
    if i < n - 1 {
        lemma_all_added_back(set, (n - 1) as nat, i);
    } else if n > 1 {
        lemma_all_added_back(set, (n - 1) as nat, 0);
    }
}

pub(crate) proof fn lemma_key_of_typename(schema: SchemaView, parent: CompositeView, alias: Option<Text>)
    ensures
        selection_key(
            SelectionView::Field { field: introspection_typename(schema, parent, alias), sub: None },
        ) == typename_key(alias),
{
    let field = introspection_typename(schema, parent, alias);
    field.directives.to_multiset_ensures();
    assert(field.directives.to_multiset() =~= Multiset::empty());
}

/// The `__typename` that a field remembers is selected when it is added back.
pub proof fn law_remembered_typename_comes_back(set: SelectionSetView, i: int)
    requires
        0 <= i < set.selections.len(),
        sibling_of(set.selections[i]) is Some,
    ensures
        typenames_added_back(set) matches Ok(new) ==> has_selection(
            new.selections,
            typename_key(sibling_alias(sibling_of(set.selections[i])->0)),
        ),
{
    lemma_all_added_back(set, set.selections.len(), i);
    match all_added_back(set, set.selections.len()) {
        Err(_) => {},
        Ok(mapped) => {
            let list = mapped_list(mapped[i]);
            let sibling = sibling_of(set.selections[i])->0;
            let field = list[0]->Field_field;
            lemma_key_of_typename(
                set.schema,
                field.field_position.parent,
                sibling_alias(sibling),
            );
            lemma_changed_has(set, mapped, i, 0);
        },
    }
}

/// Adding back what is remembered loses no field.
pub proof fn law_fields_stay_when_typenames_come_back(set: SelectionSetView, i: int)
    requires
        0 <= i < set.selections.len(),
        set.selections[i] is Field,
    ensures
        typenames_added_back(set) matches Ok(new) ==> has_selection(
            new.selections,
            selection_key(set.selections[i]),
        ),
{
    lemma_all_added_back(set, set.selections.len(), i);
    match all_added_back(set, set.selections.len()) {
        Err(_) => {},
        Ok(mapped) => {
            let updated = below_added_back(set.selections[i])->Ok_0;
            assert(selection_key(updated) == selection_key(set.selections[i]));
            let list = mapped_list(mapped[i]);
            lemma_changed_has(set, mapped, i, list.len() - 1);
        },
    }
}

pub(crate) proof fn lemma_first_index(
    selections: Seq<SelectionView>,
    wanted: spec_fn(SelectionView) -> bool,
    except: Option<int>,
    from: nat,
)
    ensures
        first_index(selections, wanted, except, from) matches Some(i) ==> from <= i
            < selections.len() && wanted(selections[i]) && except != Some(i),
    decreases selections.len() - from,
{
    if from < selections.len() && !(wanted(selections[from as int]) && except != Some(from as int)) {
        lemma_first_index(selections, wanted, except, from + 1);
    }
}

/// A plain `__typename` that is taken out because other fields can remember it is selected again
/// once what is remembered is added back.
pub proof fn law_typename_is_still_selected(set: SelectionSetView, interfaces: Seq<Text>, i: int)
    requires
        0 <= i < set.selections.len(),
        is_typename(set.selections[i]),
    ensures
        typenames_added_back(without_sibling_typenames(set, interfaces)) matches Ok(new) ==>
            has_selection(new.selections, selection_key(set.selections[i])),
{
    let after = without_sibling_typenames(set, interfaces);
    let plain = set.selections[i]->Field_field;
    plain.directives.to_multiset_ensures();
    assert(plain.directives.to_multiset() =~= Multiset::empty());
    assert(selection_key(set.selections[i]) == typename_key(None));
    let no_name: Option<int> = None;
    lemma_first_index(set.selections, |s: SelectionView| is_typename(s), no_name, 0);
    lemma_first_index(
        set.selections,
        |s: SelectionView| is_field(s),
        typename_index(set, interfaces),
        0,
    );
    match (typename_index(set, interfaces), sibling_index(set, interfaces)) {
        (Some(t), Some(s)) => {
            let place = if s < t {
                s
            } else {
                s - 1
            };
            let found = set.selections[t];
            assert(remembered_typename(selection_without_siblings(found, interfaces))
                == remembered_typename(found));
            let own = selection_without_siblings(set.selections[s], interfaces);
            assert(after.selections[place] == remembering(own, remembered_typename(found)));
            law_remembered_typename_comes_back(after, place);
        },
        _ => {
            assert(after.selections[i] == selection_without_siblings(
                set.selections[i],
                interfaces,
            ));
            law_fields_stay_when_typenames_come_back(after, i);
        },
    }
}

/// Every field that was selected, plain `__typename` or not, is selected again once what was taken
/// out and remembered is added back.
pub proof fn law_fields_are_still_selected(set: SelectionSetView, interfaces: Seq<Text>, i: int)
    requires
        0 <= i < set.selections.len(),
        set.selections[i] is Field,
    ensures
        typenames_added_back(without_sibling_typenames(set, interfaces)) matches Ok(new) ==>
            has_selection(new.selections, selection_key(set.selections[i])),
{
    if is_typename(set.selections[i]) {
        law_typename_is_still_selected(set, interfaces, i);
    } else {
        let after = without_sibling_typenames(set, interfaces);
        let own = selection_without_siblings(set.selections[i], interfaces);
        let no_name: Option<int> = None;
        lemma_first_index(set.selections, |s: SelectionView| is_typename(s), no_name, 0);
        lemma_first_index(
            set.selections,
            |s: SelectionView| is_field(s),
            typename_index(set, interfaces),
            0,
        );
        let place = match (typename_index(set, interfaces), sibling_index(set, interfaces)) {
            (Some(t), Some(s)) => {
                let place = if i < t {
                    i
                } else {
                    i - 1
                };
                assert(after.selections[place] == own || i == s);
                assert(selection_key(after.selections[place]) == selection_key(own));
                place
            },
            _ => {
                assert(after.selections[i] == own);
                i
            },
        };
        law_fields_stay_when_typenames_come_back(after, place);
    }
}

// On abstract types.

/// Whether a set below a selection asks for `__typename` if it is on an abstract type.
pub open spec fn asks_for_typename(selection: SelectionView) -> bool {
    match selection {
        SelectionView::Field { field, sub } => match sub {
            Some(set) => if_abstract(Some(set.type_position)) is Some ==> has_selection(
                set.selections,
                typename_key(None),
            ),
            None => true,
        },
        SelectionView::InlineFragment { fragment, set } => if_abstract(
            fragment.type_condition_position,
        ) is Some ==> has_selection(set.selections, typename_key(None)),
    }
}

proof fn lemma_start(set: SelectionSetView, parent: Option<CompositeView>)
    ensures
        typename_start(set, parent).len() <= 1,
        forall|i: int|
            0 <= i < typename_start(set, parent).len() ==> {
                let own = #[trigger] typename_start(set, parent)[i];
                own is Field && own->Field_sub is None && selection_key(own) == typename_key(None)
            },
        typename_start(set, parent).len() > 0 ==> !has_selection(
            set.selections,
            typename_key(None),
        ),
        parent is Some && typename_start(set, parent).len() == 0 ==> has_selection(
            set.selections,
            typename_key(None),
        ),
{
    if let Some(position) = parent {
        lemma_key_of_typename(set.schema, position, None);
        lemma_selection_index(set.selections, typename_key(None));
    }
}

proof fn lemma_with_typenames(set: SelectionSetView, parent: Option<CompositeView>, n: nat)
    requires
        n <= set.selections.len(),
        keys_are_distinct(set.selections),
    ensures
        selections_with_typenames(set, parent, n) == typename_start(set, parent) + Seq::new(
            n,
            |i: int| selection_with_typenames(set.selections[i]),
        ),
    decreases n,
{
    let start = typename_start(set, parent);
    let all = start + Seq::new(n, |i: int| selection_with_typenames(set.selections[i]));
    lemma_start(set, parent);
    if n == 0 {
        assert(all =~= start);
    } else {
        lemma_with_typenames(set, parent, (n - 1) as nat);
        let before = selections_with_typenames(set, parent, (n - 1) as nat);
        let own = set.selections[n - 1];
        let new = selection_with_typenames(own);
        let key = selection_key(own);
        assert(selection_key(new) == key);
        lemma_selection_index(before, key);
        let j = selection_index(before, key);
        if j < before.len() {
            if j < start.len() {
                assert(selection_key(set.selections[n - 1]) == typename_key(None));
                assert(has_selection(set.selections, typename_key(None)));
            } else {
                let k = j - start.len();
                assert(before[j] == selection_with_typenames(set.selections[k]));
                assert(selection_key(before[j]) == selection_key(set.selections[k]));
            }
            assert(false);
        }
        assert(all =~= before.push(new));
    }
}

proof fn lemma_typename_at(set: SelectionSetView, parent: Option<CompositeView>)
    requires
        keys_are_distinct(set.selections),
        parent is Some,
    ensures
        has_selection(with_typenames(set, parent).selections, typename_key(None)),
{
    let after = with_typenames(set, parent).selections;
    let start = typename_start(set, parent);
    lemma_start(set, parent);
    lemma_with_typenames(set, parent, set.selections.len());
    if start.len() > 0 {
        assert(after[0] == start[0]);
    } else {
        let i = choose|i: int|
            0 <= i < set.selections.len() && selection_key(#[trigger] set.selections[i])
                == typename_key(None);
        assert(after[i] == selection_with_typenames(set.selections[i]));
    }
}

/// Where nothing changes in a set, it has had its `__typename` all along, and so has everything in
/// it.
proof fn lemma_unchanged(set: SelectionSetView, parent: Option<CompositeView>)
    requires
        keys_are_distinct(set.selections),
        sets_match(with_typenames(set, parent), set),
    ensures
        typename_start(set, parent).len() == 0,
        forall|i: int|
            0 <= i < set.selections.len() ==> selection_with_typenames(
                #[trigger] set.selections[i],
            ) == set.selections[i],
{
    let after = with_typenames(set, parent).selections;
    let start = typename_start(set, parent);
    lemma_start(set, parent);
    lemma_with_typenames(set, parent, set.selections.len());
    assert(start.len() == 0);
    assert forall|i: int| 0 <= i < set.selections.len() implies selection_with_typenames(
        #[trigger] set.selections[i],
    ) == set.selections[i] by {
        let own = set.selections[i];
        let new = selection_with_typenames(own);
        assert(after[i] == new);
        lemma_selection_index(set.selections, selection_key(new));
        let j = selection_index(set.selections, selection_key(new));
        assert(selection_key(new) == selection_key(own));
        assert(j == i);
        assert(selections_match(new, own));
    }
}

proof fn lemma_selection_asks(selection: SelectionView)
    requires
        every_in_selection(selection, |s: SelectionView| keys_below_are_distinct(s)),
    ensures
        every_in_selection(
            selection_with_typenames(selection),
            |s: SelectionView| asks_for_typename(s),
        ),
    decreases selection, 1nat,
{
    let distinct = |s: SelectionView| keys_below_are_distinct(s);
    let property = |s: SelectionView| asks_for_typename(s);
    assert(distinct(selection));
    match selection {
        SelectionView::Field { field, sub } => match sub {
            None => {
                assert(property(selection));
            },
            Some(set) => {
                let parent = if_abstract(Some(set.type_position));
                lemma_set_asks(set, parent);
                let updated = with_typenames(set, parent);
                assert(property(selection_with_typenames(selection)));
            },
        },
        SelectionView::InlineFragment { fragment, set } => {
            let parent = if_abstract(fragment.type_condition_position);
            lemma_set_asks(set, parent);
            assert(property(selection_with_typenames(selection)));
        },
    }
}

proof fn lemma_set_asks(set: SelectionSetView, parent: Option<CompositeView>)
    requires
        every_key_is_distinct(set),
    ensures
        every_in_set(
            with_typenames(set, parent),
            |s: SelectionView| asks_for_typename(s),
            with_typenames(set, parent).selections.len(),
        ),
        parent is Some ==> has_selection(
            with_typenames(set, parent).selections,
            typename_key(None),
        ),
        sets_match(with_typenames(set, parent), set) ==> every_in_set(
            set,
            |s: SelectionView| asks_for_typename(s),
            set.selections.len(),
        ) && (parent is Some ==> has_selection(set.selections, typename_key(None))),
    decreases set, 0nat,
{
    let distinct = |s: SelectionView| keys_below_are_distinct(s);
    let property = |s: SelectionView| asks_for_typename(s);
    let after = with_typenames(set, parent);
    let start = typename_start(set, parent);
    lemma_each(set, distinct, set.selections.len());
    assert forall|i: int| 0 <= i < set.selections.len() implies every_in_selection(
        selection_with_typenames(#[trigger] set.selections[i]),
        property,
    ) by {
        lemma_selection_asks(set.selections[i]);
    }
    lemma_start(set, parent);
    lemma_with_typenames(set, parent, set.selections.len());
    assert forall|i: int| 0 <= i < after.selections.len() implies every_in_selection(
        #[trigger] after.selections[i],
        property,
    ) by {
        if i < start.len() {
            assert(after.selections[i] == start[i]);
            assert(property(start[i]));
        } else {
            assert(after.selections[i] == selection_with_typenames(
                set.selections[i - start.len()],
            ));
        }
    }
    lemma_every(after, property, after.selections.len());
    if parent is Some {
        lemma_typename_at(set, parent);
    }
    if sets_match(after, set) {
        lemma_unchanged(set, parent);
        lemma_every(set, property, set.selections.len());
    }
}

/// Where `__typename` was added, every set on an abstract type asks for it, at any depth, and so
/// does the set itself if it is said to be on one.
pub proof fn law_abstract_types_are_asked_for(
    set: SelectionSetView,
    parent: Option<CompositeView>,
)
    requires
        every_key_is_distinct(set),
    ensures
        every_in_set(
            with_typenames(set, parent),
            |s: SelectionView| asks_for_typename(s),
            with_typenames(set, parent).selections.len(),
        ),
        parent is Some ==> has_selection(
            with_typenames(set, parent).selections,
            typename_key(None),
        ),
{
    lemma_set_asks(set, parent);
}

} // verus!
