//! What is selected after every `__typename` was taken out, remembered and added back.

use crate::error::ErrorView;
use crate::operation::introspection_typename;
use crate::operation::laws::keys_are_distinct;
use crate::operation::mapping::all_added_back;
use crate::operation::mapping::below_added_back;
use crate::operation::mapping::group_index;
use crate::operation::mapping::grouped;
use crate::operation::mapping::is_kept;
use crate::operation::mapping::kept_front;
use crate::operation::mapping::lazily_mapped;
use crate::operation::mapping::lemma_kept_front;
use crate::operation::mapping::list_depth;
use crate::operation::mapping::made_selection;
use crate::operation::mapping::made_selections;
use crate::operation::mapping::mapped_from;
use crate::operation::mapping::mapped_list;
use crate::operation::mapping::typenames_added_back;
use crate::operation::mapping::MapperView;
use crate::operation::rebase::rebased_selection;
use crate::operation::rebase::rebased_selections;
use crate::operation::rebase::rebased_set;
use crate::operation::selection::has_match;
use crate::operation::selection::lemma_selection_index;
use crate::operation::selection::put_selection;
use crate::operation::selection::selection_index;
use crate::operation::selection::selection_key;
use crate::operation::selection::selections_match;
use crate::operation::selection::sets_match;
use crate::operation::selection::SelectionSetView;
use crate::operation::selection::SelectionView;
use crate::operation::typename_field;
use crate::operation::typename_laws::lemma_all_added_back;
use crate::operation::typename_laws::lemma_first_index;
use crate::operation::typename_laws::lemma_key_of_typename;
use crate::operation::typename_laws::typename_key;
use crate::operation::typenames::is_field;
use crate::operation::typenames::is_typename;
use crate::operation::typenames::remembered_typename;
use crate::operation::typenames::remembering;
use crate::operation::typenames::selection_without_siblings;
use crate::operation::typenames::sibling_index;
use crate::operation::typenames::typename_index;
use crate::operation::typenames::without_sibling_typenames;
use crate::operation::SelectionKeyView;
use crate::operation::SiblingView;
use crate::schema::position::CompositeView;
use crate::schema::SchemaView;
use crate::text::Text;
use vstd::multiset::Multiset;
use vstd::prelude::*;

verus! {

/// Whether no two selections beside each other have one key, no field remembers a `__typename`, and
/// `__typename` has neither arguments nor selections, at any depth of a set.
pub open spec fn remembers_nothing(set: SelectionSetView) -> bool
    decreases set, 0nat,
{
    keys_are_distinct(set.selections) && forall|i: int|
        0 <= i < set.selections.len() ==> selection_remembers_nothing(#[trigger] set.selections[i])
}

/// Whether this is so for a selection and below it.
pub open spec fn selection_remembers_nothing(selection: SelectionView) -> bool
    decreases selection, 0nat,
{
    match selection {
        SelectionView::Field { field, sub } => {
            &&& field.sibling_typename is None
            &&& field.field_position.field_name == typename_field() ==> field.arguments.len() == 0
                && sub is None
            &&& match sub {
                Some(set) => remembers_nothing(set),
                None => true,
            }
        },
        SelectionView::InlineFragment { fragment, set } => remembers_nothing(set),
    }
}

/// Whether no two selections beside each other have one key, at any depth of a set.
spec fn tidy(set: SelectionSetView) -> bool
    decreases set, 0nat,
{
    keys_are_distinct(set.selections) && forall|i: int|
        0 <= i < set.selections.len() ==> tidy_selection(#[trigger] set.selections[i])
}

/// Whether this is so below a selection.
spec fn tidy_selection(selection: SelectionView) -> bool
    decreases selection, 0nat,
{
    match selection {
        SelectionView::Field { field, sub } => match sub {
            Some(set) => tidy(set),
            None => true,
        },
        SelectionView::InlineFragment { fragment, set } => tidy(set),
    }
}

// Matches.

proof fn lemma_match_has_key(a: SelectionView, b: SelectionView)
    requires
        selections_match(a, b),
    ensures
        selection_key(a) == selection_key(b),
{
}

proof fn lemma_sets_match_both(a: SelectionSetView, b: SelectionSetView, c: SelectionSetView)
    requires
        sets_match(a, b),
        sets_match(b, c),
    ensures
        sets_match(a, c),
    decreases a, 0nat,
{
    assert forall|i: int| 0 <= i < a.selections.len() implies has_match(
        #[trigger] a.selections[i],
        c.selections,
    ) by {
        let x = a.selections[i];
        assert(has_match(x, b.selections));
        let j = selection_index(b.selections, selection_key(x));
        lemma_selection_index(b.selections, selection_key(x));
        let y = b.selections[j];
        assert(has_match(y, c.selections));
        let k = selection_index(c.selections, selection_key(y));
        lemma_match_both(x, y, c.selections[k]);
    }
}

proof fn lemma_match_both(a: SelectionView, b: SelectionView, c: SelectionView)
    requires
        selections_match(a, b),
        selections_match(b, c),
    ensures
        selections_match(a, c),
    decreases a, 0nat,
{
    match (a, b, c) {
        (
            SelectionView::Field { field: f, sub: Some(x) },
            SelectionView::Field { field: g, sub: Some(y) },
            SelectionView::Field { field: h, sub: Some(z) },
        ) => {
            lemma_sets_match_both(x, y, z);
        },
        (
            SelectionView::InlineFragment { fragment: f, set: x },
            SelectionView::InlineFragment { fragment: g, set: y },
            SelectionView::InlineFragment { fragment: h, set: z },
        ) => {
            lemma_sets_match_both(x, y, z);
        },
        _ => {},
    }
}

/// Where each selection has one in the same place, the sets match.
proof fn lemma_pairs_match(a: SelectionSetView, b: SelectionSetView, places: spec_fn(int) -> int)
    requires
        a.selections.len() == b.selections.len(),
        keys_are_distinct(b.selections),
        forall|i: int|
            0 <= i < a.selections.len() ==> 0 <= #[trigger] places(i) < b.selections.len()
                && selections_match(a.selections[i], b.selections[places(i)]),
    ensures
        sets_match(a, b),
{
    assert forall|i: int| 0 <= i < a.selections.len() implies has_match(
        #[trigger] a.selections[i],
        b.selections,
    ) by {
        let p = places(i);
        let key = selection_key(a.selections[i]);
        lemma_match_has_key(a.selections[i], b.selections[p]);
        lemma_selection_index(b.selections, key);
        let j = selection_index(b.selections, key);
        if j < p {
            assert(selection_key(b.selections[j]) != selection_key(b.selections[p]));
        } else if p < j {
            assert(selection_key(b.selections[p]) != key);
        }
    }
}

// Rebasing.

proof fn lemma_rebased(x: SelectionView, parent: CompositeView, schema: SchemaView)
    requires
        tidy_selection(x),
    ensures
        rebased_selection(x, parent, schema) matches Ok(y) ==> selections_match(x, y)
            && tidy_selection(y),
    decreases x, 2nat, 0nat,
{
    match rebased_selection(x, parent, schema) {
        Err(_) => {},
        Ok(y) => match (x, y) {
            (
                SelectionView::Field { field: f, sub: Some(set) },
                SelectionView::Field { field: g, sub: Some(below) },
            ) => {
                lemma_rebased_set(set, below.type_position, schema);
            },
            (
                SelectionView::InlineFragment { fragment: f, set },
                SelectionView::InlineFragment { fragment: g, set: below },
            ) => {
                lemma_rebased_set(set, below.type_position, schema);
            },
            _ => {},
        },
    }
}

proof fn lemma_rebased_set(set: SelectionSetView, parent: CompositeView, schema: SchemaView)
    requires
        tidy(set),
    ensures
        rebased_set(set, parent, schema) matches Ok(new) ==> sets_match(set, new) && tidy(new),
    decreases set, 1nat, 0nat,
{
    lemma_rebased_list(set, parent, schema, set.selections.len());
    match rebased_set(set, parent, schema) {
        Err(_) => {},
        Ok(new) => {
            assert forall|i: int, j: int| 0 <= i < j < new.selections.len() implies selection_key(
                #[trigger] new.selections[i],
            ) != selection_key(#[trigger] new.selections[j]) by {
                lemma_match_has_key(set.selections[i], new.selections[i]);
                lemma_match_has_key(set.selections[j], new.selections[j]);
                assert(selection_key(set.selections[i]) != selection_key(set.selections[j]));
            }
            lemma_pairs_match(set, new, |i: int| i);
        },
    }
}

proof fn lemma_rebased_list(
    set: SelectionSetView,
    parent: CompositeView,
    schema: SchemaView,
    n: nat,
)
    requires
        tidy(set),
        n <= set.selections.len(),
    ensures
        rebased_selections(set, parent, schema, n) matches Ok(list) ==> list.len() == n && forall|
            i: int,
        |
            0 <= i < n ==> selections_match(set.selections[i], #[trigger] list[i])
                && tidy_selection(list[i]),
    decreases set, 0nat, n,
{
    if n > 0 {
        lemma_rebased_list(set, parent, schema, (n - 1) as nat);
        lemma_rebased(set.selections[n - 1], parent, schema);
        match (
            rebased_selections(set, parent, schema, (n - 1) as nat),
            rebased_selection(set.selections[n - 1], parent, schema),
        ) {
            (Ok(before), Ok(own)) => {
                lemma_match_has_key(set.selections[n - 1], own);
                lemma_put_is_push(set.selections, before, own, (n - 1) as nat);
            },
            _ => {},
        }
    }
}

/// A selection with a key of its own goes to the end.
proof fn lemma_put_is_push(
    keyed: Seq<SelectionView>,
    before: Seq<SelectionView>,
    new: SelectionView,
    n: nat,
)
    requires
        n < keyed.len(),
        before.len() == n,
        keys_are_distinct(keyed),
        selection_key(new) == selection_key(keyed[n as int]),
        forall|i: int| 0 <= i < n ==> selections_match(keyed[i], #[trigger] before[i]),
    ensures
        put_selection(before, new) == before.push(new),
{
    let j = selection_index(before, selection_key(new));
    lemma_selection_index(before, selection_key(new));
    if j < before.len() {
        lemma_match_has_key(keyed[j], before[j]);
        assert(selection_key(keyed[j]) != selection_key(keyed[n as int]));
    }
}

// Making selections of groups with one selection each.

spec fn singles(selections: Seq<SelectionView>, n: nat) -> Seq<Seq<SelectionView>> {
    Seq::new(n, |i: int| seq![selections[i]])
}

proof fn lemma_new_group(
    groups: Seq<Seq<SelectionView>>,
    key: SelectionKeyView,
)
    requires
        forall|i: int|
            0 <= i < groups.len() ==> (#[trigger] groups[i]).len() > 0 && selection_key(groups[i][0])
                != key,
    ensures
        group_index(groups, key) == groups.len(),
    decreases groups.len(),
{
    if groups.len() > 0 {
        let rest = groups.drop_first();
        assert forall|i: int| 0 <= i < rest.len() implies (#[trigger] rest[i]).len() > 0
            && selection_key(rest[i][0]) != key by {
            assert(rest[i] == groups[i + 1]);
        }
        assert(groups[0].len() > 0);
        lemma_new_group(rest, key);
    }
}

proof fn lemma_grouped_singles(all: Seq<SelectionView>, n: nat)
    requires
        keys_are_distinct(all),
        n <= all.len(),
    ensures
        grouped(all, n) == singles(all, n),
    decreases n,
{
    if n == 0 {
        assert(grouped(all, 0) =~= singles(all, 0));
    } else {
        lemma_grouped_singles(all, (n - 1) as nat);
        let before = grouped(all, (n - 1) as nat);
        assert forall|i: int| 0 <= i < before.len() implies (#[trigger] before[i]).len() > 0
            && selection_key(before[i][0]) != selection_key(all[n - 1]) by {
            assert(before[i] == seq![all[i]]);
            assert(selection_key(all[i]) != selection_key(all[n - 1]));
        }
        lemma_new_group(before, selection_key(all[n - 1]));
        assert(grouped(all, n) =~= singles(all, n));
    }
}

proof fn lemma_made_singles(
    all: Seq<SelectionView>,
    parent: CompositeView,
    schema: SchemaView,
    depth: nat,
    n: nat,
)
    requires
        keys_are_distinct(all),
        n <= all.len(),
        forall|i: int| 0 <= i < all.len() ==> tidy_selection(#[trigger] all[i]),
    ensures
        made_selections(singles(all, all.len()), parent, schema, depth, n) matches Ok(list) ==>
            list.len() == n && forall|i: int|
            0 <= i < n ==> selections_match(all[i], #[trigger] list[i]) && tidy_selection(list[i]),
    decreases n,
{
    if n > 0 {
        let groups = singles(all, all.len());
        lemma_made_singles(all, parent, schema, depth, (n - 1) as nat);
        assert(groups[n - 1] == seq![all[n - 1]]);
        lemma_rebased(all[n - 1], parent, schema);
        match (
            made_selections(groups, parent, schema, depth, (n - 1) as nat),
            made_selection(groups[n - 1], parent, schema, depth),
        ) {
            (Ok(before), Ok(new)) => {
                lemma_match_has_key(all[n - 1], new);
                lemma_put_is_push(all, before, new, (n - 1) as nat);
            },
            _ => {},
        }
    }
}

// The list that is made of what selections are changed to.

/// Where what the selection at a place is changed to stands, if the one at `added` brings one more
/// along.
spec fn shifted(i: int, added: int) -> int {
    if i < added {
        i
    } else {
        i + 1
    }
}

proof fn lemma_mapped_places(mapped: Seq<MapperView>, k: nat, added: int, n: nat)
    requires
        k <= added,
        k <= n <= mapped.len(),
        forall|i: int| 0 <= i < mapped.len() && i != added ==> #[trigger] mapped[i] is Selection,
        0 <= added < mapped.len() ==> (mapped[added] matches MapperView::SelectionList(list)
            && list.len() == 2),
    ensures
        mapped_from(mapped, k, n).len() == if n <= added {
            n - k
        } else {
            n - k + 1
        },
        forall|i: int|
            k <= i < n ==> #[trigger] mapped_list(mapped[i]).last() == mapped_from(mapped, k, n)[
                shifted(i, added) - k],
        added < n ==> mapped_from(mapped, k, n)[added - k] == mapped_list(mapped[added])[0],
    decreases n,
{
    if n > k {
        lemma_mapped_places(mapped, k, added, (n - 1) as nat);
        let before = mapped_from(mapped, k, (n - 1) as nat);
        let after = mapped_from(mapped, k, n);
        assert(after =~= before + mapped_list(mapped[n - 1]));
        if n - 1 != added {
            assert(mapped[n - 1] is Selection);
        }
        assert forall|i: int| k <= i < n implies #[trigger] mapped_list(mapped[i]).last() == after[
            shifted(i, added) - k] by {
            if i < n - 1 {
                assert(mapped_list(mapped[i]).last() == before[shifted(i, added) - k]);
            }
        }
    }
}

proof fn lemma_kept_are_kept(
    selections: Seq<SelectionView>,
    mapped: Seq<MapperView>,
    from: nat,
    i: int,
)
    requires
        from <= i < kept_front(selections, mapped, from),
        from <= selections.len(),
    ensures
        i < selections.len(),
        is_kept(selections[i], mapped[i]),
    decreases selections.len() - from,
{
    lemma_kept_front(selections, mapped, from);
    if from < selections.len() && is_kept(selections[from as int], mapped[from as int]) {
        if i > from {
            lemma_kept_are_kept(selections, mapped, from + 1, i);
        }
    }
}

// The round trip.

proof fn lemma_without_is_tidy(set: SelectionSetView, interfaces: Seq<Text>)
    requires
        remembers_nothing(set),
    ensures
        tidy(without_sibling_typenames(set, interfaces)),
    decreases set, 0nat,
{
    let after = without_sibling_typenames(set, interfaces);
    let no_name: Option<int> = None;
    lemma_first_index(set.selections, |s: SelectionView| is_typename(s), no_name, 0);
    lemma_first_index(
        set.selections,
        |s: SelectionView| is_field(s),
        typename_index(set, interfaces),
        0,
    );
    assert forall|i: int| 0 <= i < set.selections.len() implies tidy_selection(
        selection_without_siblings(#[trigger] set.selections[i], interfaces),
    ) by {
        lemma_selection_without_is_tidy(set.selections[i], interfaces);
    }
    let (removed, fields) = (typename_index(set, interfaces), sibling_index(set, interfaces));
    let gone = if removed is Some && fields is Some {
        removed->0
    } else {
        set.selections.len() as int
    };
    assert forall|p: int| 0 <= p < after.selections.len() implies selection_key(
        #[trigger] after.selections[p],
    ) == selection_key(set.selections[shifted(p, gone)]) && tidy_selection(
        after.selections[p],
    ) by {
        let i = shifted(p, gone);
        let own = selection_without_siblings(set.selections[i], interfaces);
        assert(tidy_selection(own));
        assert(selection_key(own) == selection_key(set.selections[i]));
        assert(after.selections[p] == own || after.selections[p] == remembering(
            own,
            remembered_typename(
                selection_without_siblings(set.selections[gone], interfaces),
            ),
        ));
    }
    assert forall|p: int, q: int| 0 <= p < q < after.selections.len() implies selection_key(
        #[trigger] after.selections[p],
    ) != selection_key(#[trigger] after.selections[q]) by {
        assert(selection_key(set.selections[shifted(p, gone)]) != selection_key(
            set.selections[shifted(q, gone)],
        ));
    }
}

proof fn lemma_selection_without_is_tidy(selection: SelectionView, interfaces: Seq<Text>)
    requires
        selection_remembers_nothing(selection),
    ensures
        tidy_selection(selection_without_siblings(selection, interfaces)),
    decreases selection, 0nat,
{
    match selection {
        SelectionView::Field { field, sub: Some(set) } => lemma_without_is_tidy(set, interfaces),
        SelectionView::InlineFragment { fragment, set } => lemma_without_is_tidy(set, interfaces),
        _ => {},
    }
}

/// What is below a selection comes back, whether the selection itself remembers something or not.
proof fn lemma_below_comes_back(
    selection: SelectionView,
    interfaces: Seq<Text>,
    after: SelectionView,
    sibling: SiblingView,
)
    requires
        selection_remembers_nothing(selection),
        after == selection_without_siblings(selection, interfaces) || after == remembering(
            selection_without_siblings(selection, interfaces),
            sibling,
        ),
    ensures
        below_added_back(after) matches Ok(updated) ==> selections_match(selection, updated)
            && tidy_selection(updated),
    decreases selection, 0nat,
{
    match selection {
        SelectionView::Field { field, sub: Some(set) } => lemma_set_comes_back(set, interfaces),
        SelectionView::InlineFragment { fragment, set } => lemma_set_comes_back(set, interfaces),
        _ => {},
    }
}

/// The place in a list with one more selection at `added` of what comes from a place in a list that
/// has one more at `gone`.
spec fn place_of(i: int, gone: int, added: int) -> int {
    if i == gone {
        added
    } else if i < gone {
        shifted(i, added)
    } else {
        shifted(i - 1, added)
    }
}

/// Where the `__typename` that is taken out of a set stands, and where the field that remembers it
/// stands without it; both behind the end where none is taken out.
spec fn gone_and_added(set: SelectionSetView, interfaces: Seq<Text>) -> (int, int) {
    match (typename_index(set, interfaces), sibling_index(set, interfaces)) {
        (Some(t), Some(s)) => (
            t,
            if s < t {
                s
            } else {
                s - 1
            },
        ),
        _ => (set.selections.len() as int, set.selections.len() as int),
    }
}

/// What a selection is changed to: itself with what came back below it, behind `__typename` where it
/// remembers that.
#[verifier::opaque]
spec fn is_changed_to(own: SelectionView, mapped: MapperView, remembers: bool) -> bool {
    if remembers {
        mapped matches MapperView::SelectionList(list) && list.len() == 2 && selections_match(
            own,
            list[1],
        ) && tidy_selection(list[1]) && is_added_typename(list[0])
    } else {
        mapped matches MapperView::Selection(updated) && selections_match(own, updated)
            && tidy_selection(updated)
    }
}

/// Whether a selection is `__typename` as it is added.
spec fn is_added_typename(selection: SelectionView) -> bool {
    exists|schema: SchemaView, parent: CompositeView|
        selection == (SelectionView::Field {
            field: #[trigger] introspection_typename(schema, parent, None),
            sub: None,
        })
}

proof fn lemma_change(
    set: SelectionSetView,
    interfaces: Seq<Text>,
    mapped: Seq<MapperView>,
    p: int,
)
    requires
        remembers_nothing(set),
        0 <= p < without_sibling_typenames(set, interfaces).selections.len(),
        all_added_back(
            without_sibling_typenames(set, interfaces),
            without_sibling_typenames(set, interfaces).selections.len(),
        ) == Ok::<Seq<MapperView>, ErrorView>(mapped),
    ensures
        ({
            let (gone, added) = gone_and_added(set, interfaces);
            0 <= shifted(p, gone) < set.selections.len() && is_changed_to(
                set.selections[shifted(p, gone)],
                mapped[p],
                p == added,
            )
        }),
    decreases set, 1nat,
{
    reveal(is_changed_to);
    let after = without_sibling_typenames(set, interfaces);
    let (gone, added) = gone_and_added(set, interfaces);
    let no_name: Option<int> = None;
    lemma_first_index(set.selections, |s: SelectionView| is_typename(s), no_name, 0);
    lemma_first_index(
        set.selections,
        |s: SelectionView| is_field(s),
        typename_index(set, interfaces),
        0,
    );
    let own = set.selections[shifted(p, gone)];
    assert(selection_remembers_nothing(own));
    let plain = selection_without_siblings(own, interfaces);
    lemma_all_added_back(after, after.selections.len(), p);
    let sibling = SiblingView::Unaliased;
    if p == added {
        assert(after.selections[p] == remembering(plain, sibling)) by {
            assert(remembered_typename(
                selection_without_siblings(set.selections[gone], interfaces),
            ) == sibling);
        }
        lemma_below_comes_back(own, interfaces, after.selections[p], sibling);
        let list = mapped[p]->SelectionList_0;
        assert(list[0] == (SelectionView::Field {
            field: introspection_typename(
                after.schema,
                after.selections[p]->Field_field.field_position.parent,
                None,
            ),
            sub: None,
        }));
    } else {
        assert(after.selections[p] == plain);
        lemma_below_comes_back(own, interfaces, after.selections[p], sibling);
    }
}

proof fn lemma_set_comes_back(set: SelectionSetView, interfaces: Seq<Text>)
    requires
        remembers_nothing(set),
    ensures
        typenames_added_back(without_sibling_typenames(set, interfaces)) matches Ok(new) ==>
            sets_match(set, new) && tidy(new),
    decreases set, 2nat,
{
    let after = without_sibling_typenames(set, interfaces);
    let len = after.selections.len();
    match all_added_back(after, len) {
        Err(_) => {},
        Ok(mapped) => {
            assert(mapped.len() == len) by {
                if len > 0 {
                    lemma_all_added_back(after, len, 0);
                }
            }
            let (gone, added) = gone_and_added(set, interfaces);
            lemma_without_is_tidy(set, interfaces);
            lemma_gone_and_added(set, interfaces);
            assert forall|p: int| 0 <= p < len implies is_changed_to(
                set.selections[shifted(p, gone)],
                #[trigger] mapped[p],
                p == added,
            ) by {
                lemma_change(set, interfaces, mapped, p);
            }
            lemma_changed_comes_back(set, after, mapped, gone, added);
        },
    }
}

proof fn lemma_gone_and_added(set: SelectionSetView, interfaces: Seq<Text>)
    ensures
        ({
            let (gone, added) = gone_and_added(set, interfaces);
            let len = without_sibling_typenames(set, interfaces).selections.len();
            are_places(set.selections, len, gone, added)
        }),
{
    let no_name: Option<int> = None;
    lemma_first_index(set.selections, |s: SelectionView| is_typename(s), no_name, 0);
    lemma_first_index(
        set.selections,
        |s: SelectionView| is_field(s),
        typename_index(set, interfaces),
        0,
    );
}

/// Whether `gone` is the place of a `__typename` among the selections and `added` one of `len`
/// places without it, or both are behind the end.
spec fn are_places(selections: Seq<SelectionView>, len: nat, gone: int, added: int) -> bool {
    if gone < selections.len() {
        0 <= gone && 0 <= added < len && selections.len() == len + 1 && is_typename(
            selections[gone],
        )
    } else {
        gone == len && added == len && selections.len() == len
    }
}

/// The list that the selections of a set are made of.
spec fn listed(after: SelectionSetView, mapped: Seq<MapperView>) -> Seq<SelectionView> {
    let k = kept_front(after.selections, mapped, 0);
    after.selections.take(k as int) + mapped_from(mapped, k, mapped.len())
}

/// Whether the selection at a place of a list is the one that came from another place of a set.
#[verifier::opaque]
spec fn comes_from(own: SelectionView, listed: SelectionView) -> bool {
    selections_match(own, listed) && tidy_selection(listed)
}

proof fn lemma_kept(
    set: SelectionSetView,
    after: SelectionSetView,
    mapped: Seq<MapperView>,
    gone: int,
    added: int,
    p: int,
)
    requires
        tidy(after),
        mapped.len() == after.selections.len(),
        0 <= p < kept_front(after.selections, mapped, 0),
        forall|p: int|
            0 <= p < mapped.len() ==> is_changed_to(
                set.selections[shifted(p, gone)],
                #[trigger] mapped[p],
                p == added,
            ),
    ensures
        p != added,
        p < after.selections.len(),
        comes_from(set.selections[shifted(p, gone)], after.selections[p]),
{
    reveal(is_changed_to);
    reveal(comes_from);
    lemma_kept_are_kept(after.selections, mapped, 0, p);
    assert(is_changed_to(set.selections[shifted(p, gone)], mapped[p], p == added));
    let updated = mapped[p]->Selection_0;
    lemma_match_both(set.selections[shifted(p, gone)], updated, after.selections[p]);
    assert(tidy_selection(after.selections[p]));
}

proof fn lemma_typename_comes_from(own: SelectionView, listed: SelectionView)
    requires
        is_typename(own),
        selection_remembers_nothing(own),
        is_added_typename(listed),
    ensures
        comes_from(own, listed),
{
    reveal(comes_from);
    let (schema, parent) = choose|schema: SchemaView, parent: CompositeView|
        listed == (SelectionView::Field {
            field: #[trigger] introspection_typename(schema, parent, None),
            sub: None,
        });
    let plain = own->Field_field;
    lemma_key_of_typename(schema, parent, None);
    plain.directives.to_multiset_ensures();
    assert(plain.directives.to_multiset() =~= Multiset::empty());
    assert(selection_key(own) == typename_key(None));
    assert(plain.arguments =~= Seq::empty());
}

proof fn lemma_listed(
    set: SelectionSetView,
    after: SelectionSetView,
    mapped: Seq<MapperView>,
    gone: int,
    added: int,
    i: int,
)
    requires
        remembers_nothing(set),
        tidy(after),
        mapped.len() == after.selections.len(),
        are_places(set.selections, mapped.len(), gone, added),
        forall|p: int|
            0 <= p < mapped.len() ==> is_changed_to(
                set.selections[shifted(p, gone)],
                #[trigger] mapped[p],
                p == added,
            ),
        0 <= i < set.selections.len(),
    ensures
        listed(after, mapped).len() == set.selections.len(),
        0 <= place_of(i, gone, added) < set.selections.len(),
        comes_from(set.selections[i], listed(after, mapped)[place_of(i, gone, added)]),
{
    let k = kept_front(after.selections, mapped, 0);
    let rest = mapped_from(mapped, k, mapped.len());
    let all = listed(after, mapped);
    lemma_kept_front(after.selections, mapped, 0);
    if added < k {
        lemma_kept(set, after, mapped, gone, added, added);
    }
    assert forall|p: int| 0 <= p < mapped.len() && p != added implies #[trigger] mapped[p] is Selection by {
        reveal(is_changed_to);
    }
    assert(0 <= added < mapped.len() ==> (mapped[added] matches MapperView::SelectionList(list)
        && list.len() == 2)) by {
        reveal(is_changed_to);
    }
    lemma_mapped_places(mapped, k, added, mapped.len());
    let q = place_of(i, gone, added);
    if i == gone {
        assert(is_changed_to(set.selections[shifted(added, gone)], mapped[added], true));
        assert(all[q] == rest[added - k]);
        assert(is_added_typename(all[q])) by {
            reveal(is_changed_to);
        }
        assert(selection_remembers_nothing(set.selections[gone]));
        lemma_typename_comes_from(set.selections[i], all[q]);
    } else {
        let p = if i < gone {
            i
        } else {
            i - 1
        };
        assert(i == shifted(p, gone));
        if p < k {
            lemma_kept(set, after, mapped, gone, added, p);
            assert(all[q] == after.selections[p]);
        } else {
            assert(mapped_list(mapped[p]).last() == rest[shifted(p, added) - k]);
            assert(all[q] == rest[q - k]);
            assert(is_changed_to(set.selections[shifted(p, gone)], mapped[p], p == added));
            assert(comes_from(set.selections[i], all[q])) by {
                reveal(is_changed_to);
                reveal(comes_from);
            }
        }
    }
}

proof fn lemma_changed_comes_back(
    set: SelectionSetView,
    after: SelectionSetView,
    mapped: Seq<MapperView>,
    gone: int,
    added: int,
)
    requires
        remembers_nothing(set),
        tidy(after),
        mapped.len() == after.selections.len(),
        are_places(set.selections, mapped.len(), gone, added),
        forall|p: int|
            0 <= p < mapped.len() ==> is_changed_to(
                set.selections[shifted(p, gone)],
                #[trigger] mapped[p],
                p == added,
            ),
    ensures
        lazily_mapped(after, mapped) matches Ok(new) ==> sets_match(set, new) && tidy(new),
{
    let k = kept_front(after.selections, mapped, 0);
    lemma_kept_front(after.selections, mapped, 0);
    if k >= after.selections.len() {
        if added < k {
            lemma_kept(set, after, mapped, gone, added, added);
        }
        assert forall|i: int| 0 <= i < set.selections.len() implies selections_match(
            #[trigger] set.selections[i],
            after.selections[i],
        ) by {
            lemma_kept(set, after, mapped, gone, added, i);
            reveal(comes_from);
        }
        lemma_pairs_match(set, after, |i: int| i);
    } else {
        let all = listed(after, mapped);
        assert forall|i: int| 0 <= i < set.selections.len() implies 0 <= place_of(i, gone, added)
            < set.selections.len() && comes_from(
            #[trigger] set.selections[i],
            all[place_of(i, gone, added)],
        ) by {
            lemma_listed(set, after, mapped, gone, added, i);
        }
        assert(all.len() == set.selections.len()) by {
            lemma_listed(set, after, mapped, gone, added, 0);
        }
        lemma_list_comes_back(set, after, all, gone, added);
    }
}

proof fn lemma_list_comes_back(
    set: SelectionSetView,
    after: SelectionSetView,
    all: Seq<SelectionView>,
    gone: int,
    added: int,
)
    requires
        keys_are_distinct(set.selections),
        are_places(set.selections, after.selections.len(), gone, added),
        all.len() == set.selections.len(),
        forall|i: int|
            0 <= i < set.selections.len() ==> 0 <= place_of(i, gone, added) < all.len()
                && comes_from(#[trigger] set.selections[i], all[place_of(i, gone, added)]),
    ensures
        made_selections(
            grouped(all, all.len()),
            after.type_position,
            after.schema,
            list_depth(all, all.len()),
            grouped(all, all.len()).len(),
        ) matches Ok(selections) ==> sets_match(set, SelectionSetView { selections, ..after })
            && tidy(SelectionSetView { selections, ..after }),
{
    assert forall|q: int| 0 <= q < all.len() implies 0 <= place_of(q, added, gone)
        < set.selections.len() && comes_from(
        set.selections[place_of(q, added, gone)],
        #[trigger] all[q],
    ) by {
        let i = place_of(q, added, gone);
        assert(place_of(i, gone, added) == q);
        assert(comes_from(set.selections[i], all[place_of(i, gone, added)]));
    }
    assert forall|p: int, q: int| 0 <= p < q < all.len() implies selection_key(#[trigger] all[p])
        != selection_key(#[trigger] all[q]) by {
        reveal(comes_from);
        let i = place_of(p, added, gone);
        let j = place_of(q, added, gone);
        lemma_match_has_key(set.selections[i], all[p]);
        lemma_match_has_key(set.selections[j], all[q]);
        if i < j {
            assert(selection_key(set.selections[i]) != selection_key(set.selections[j]));
        } else {
            assert(selection_key(set.selections[j]) != selection_key(set.selections[i]));
        }
    }
    assert forall|q: int| 0 <= q < all.len() implies tidy_selection(#[trigger] all[q]) by {
        assert(comes_from(set.selections[place_of(q, added, gone)], all[q]));
        reveal(comes_from);
    }
    lemma_grouped_singles(all, all.len());
    let depth = list_depth(all, all.len());
    lemma_made_singles(all, after.type_position, after.schema, depth, all.len());
    match made_selections(
        grouped(all, all.len()),
        after.type_position,
        after.schema,
        depth,
        grouped(all, all.len()).len(),
    ) {
        Err(_) => {},
        Ok(selections) => {
            let new = SelectionSetView { selections, ..after };
            assert forall|p: int, q: int| 0 <= p < q < selections.len() implies selection_key(
                #[trigger] selections[p],
            ) != selection_key(#[trigger] selections[q]) by {
                lemma_match_has_key(all[p], selections[p]);
                lemma_match_has_key(all[q], selections[q]);
                assert(selection_key(all[p]) != selection_key(all[q]));
            }
            let places = |i: int| place_of(i, gone, added);
            assert forall|i: int| 0 <= i < set.selections.len() implies 0 <= #[trigger] places(i)
                < new.selections.len() && selections_match(
                set.selections[i],
                new.selections[places(i)],
            ) by {
                let q = place_of(i, gone, added);
                assert(comes_from(set.selections[i], all[q]));
                reveal(comes_from);
                assert(selections_match(all[q], selections[q]));
                lemma_match_both(set.selections[i], all[q], selections[q]);
            }
            lemma_pairs_match(set, new, places);
        },
    }
}

/// Where every `__typename` beside other fields is taken out and remembered, and what is remembered
/// is added back, the same things are selected as before at every depth, whatever the order.
pub proof fn law_typenames_come_back(set: SelectionSetView, interfaces: Seq<Text>)
    requires
        remembers_nothing(set),
    ensures
        typenames_added_back(without_sibling_typenames(set, interfaces)) matches Ok(new) ==>
            sets_match(set, new),
{
    lemma_set_comes_back(set, interfaces);
}

} // verus!
