//! Arguments in a consistent order.

use crate::ast::value_view;
use crate::ast::Argument;
use crate::ast::ArgumentView;
use crate::ast::Name;
use crate::ast::Value;
use crate::ast::ValueView;
use crate::operation::equality::same_arguments;
use crate::text::str_lt;
use crate::text::text_le;
use crate::text::text_lt;
use crate::text::text_order_is_strict;
use crate::text::text_order_is_total;
use crate::text::text_order_is_transitive;
use crate::text::Text;
use std::sync::Arc;
use vstd::prelude::*;

verus! {

/// Where a name goes among the first `n` of some sorted names: behind all that are no larger.
pub open spec fn slot(names: spec_fn(int) -> Text, name: Text, n: nat) -> nat
    decreases n,
{
    if n == 0 {
        0
    } else if text_lt(name, names(n - 1)) {
        slot(names, name, (n - 1) as nat)
    } else {
        n
    }
}

/// The fields of an object with one more in its place.
pub open spec fn with_pair(pairs: Seq<(Text, ValueView)>, new: (Text, ValueView)) -> Seq<
    (Text, ValueView),
> {
    pairs.insert(slot(|i: int| pairs[i].0, new.0, pairs.len()) as int, new)
}

/// Arguments with one more in its place.
pub open spec fn with_argument(arguments: Seq<ArgumentView>, new: ArgumentView) -> Seq<
    ArgumentView,
> {
    arguments.insert(slot(|i: int| arguments[i].name, new.name, arguments.len()) as int, new)
}

/// A value with the fields of its objects sorted by name, at any depth.
pub open spec fn sorted_value(value: ValueView) -> ValueView
    decreases value, 1nat,
{
    match value {
        ValueView::List(items) => ValueView::List(
            Seq::new(
                items.len(),
                |i: int|
                    if 0 <= i < items.len() {
                        sorted_value(items[i])
                    } else {
                        ValueView::Null
                    },
            ),
        ),
        ValueView::Object(fields) => ValueView::Object(sorted_pairs(fields, fields.len())),
        _ => value,
    }
}

/// The first `n` fields of an object sorted by name.
pub open spec fn sorted_pairs(fields: Seq<(Text, ValueView)>, n: nat) -> Seq<(Text, ValueView)>
    decreases fields, n,
{
    if n == 0 || n > fields.len() {
        Seq::empty()
    } else {
        with_pair(
            sorted_pairs(fields, (n - 1) as nat),
            (fields[n - 1].0, sorted_value(fields[n - 1].1)),
        )
    }
}

/// The first `n` arguments sorted by name, with their values sorted too.
pub open spec fn sorted_arguments(arguments: Seq<ArgumentView>, n: nat) -> Seq<ArgumentView>
    decreases n,
{
    if n == 0 {
        Seq::empty()
    } else {
        with_argument(
            sorted_arguments(arguments, (n - 1) as nat),
            ArgumentView {
                name: arguments[n - 1].name,
                value: sorted_value(arguments[n - 1].value),
            },
        )
    }
}

/// The content of the fields of an object.
pub open spec fn pairs_view(pairs: Seq<(Name, Value)>) -> Seq<(Text, ValueView)> {
    Seq::new(pairs.len(), |i: int| (pairs[i].0@, value_view(pairs[i].1)))
}

fn insert_pair(pairs: &mut Vec<(Name, Value)>, new: (Name, Value))
    ensures
        pairs_view(final(pairs)@) == with_pair(
            pairs_view(old(pairs)@),
            (new.0@, value_view(new.1)),
        ),
{
    let ghost before = pairs_view(pairs@);
    let ghost names = |i: int| before[i].0;
    let mut n: usize = pairs.len();
    while n > 0 && str_lt(&new.0, &pairs[n - 1].0)
        invariant
            n <= pairs@.len(),
            before == pairs_view(pairs@),
            before.len() == pairs@.len(),
            names == (|i: int| before[i].0),
            slot(names, new.0@, before.len()) == slot(names, new.0@, n as nat),
        decreases n,
    {
        assert(names(n - 1) == pairs@[n - 1].0@);
        n = n - 1;
    }
    assert(n > 0 ==> names(n - 1) == pairs@[n - 1].0@);
    assert(slot(names, new.0@, before.len()) == n);
    let ghost view = (new.0@, value_view(new.1));
    pairs.insert(n, new);
    assert(pairs_view(pairs@) =~= before.insert(n as int, view));
}

/// The value with the fields of its objects sorted by name, at any depth.
pub fn sort_value(value: &Value) -> (r: Value)
    ensures
        r.deep_view() == sorted_value(value.deep_view()),
    decreases value,
{
    match value {
        Value::List(items) => {
            let mut sorted: Vec<Value> = Vec::new();
            let mut i: usize = 0;
            while i < items.len()
                invariant
                    *value == Value::List(*items),
                    i <= items.len(),
                    sorted@.len() == i,
                    forall|j: int|
                        0 <= j < i ==> value_view(#[trigger] sorted@[j]) == sorted_value(
                            value_view(items@[j]),
                        ),
                decreases items.len() - i,
            {
                assert(decreases_to!(*value => value->List_0));
                assert(decreases_to!(items@ => items@[i as int]));
                sorted.push(sort_value(&items[i]));
                i += 1;
            }
            let r = Value::List(sorted);
            assert(value_view(r)->List_0 =~= sorted_value(value_view(*value))->List_0);
            r
        },
        Value::Object(fields) => {
            let ghost all = pairs_view(fields@);
            let mut sorted: Vec<(Name, Value)> = Vec::new();
            assert(pairs_view(sorted@) =~= Seq::empty());
            let mut i: usize = 0;
            while i < fields.len()
                invariant
                    *value == Value::Object(*fields),
                    i <= fields.len(),
                    all == pairs_view(fields@),
                    pairs_view(sorted@) == sorted_pairs(all, i as nat),
                decreases fields.len() - i,
            {
                assert(decreases_to!(*value => value->Object_0));
                assert(decreases_to!(fields@ => fields@[i as int]));
                assert(decreases_to!(fields@[i as int] => fields@[i as int].1));
                assert(all[i as int] == (fields@[i as int].0@, value_view(fields@[i as int].1)));
                insert_pair(&mut sorted, (fields[i].0.clone(), sort_value(&fields[i].1)));
                i += 1;
            }
            assert(value_view(*value)->Object_0 =~= all);
            let r = Value::Object(sorted);
            assert(value_view(r)->Object_0 =~= pairs_view(sorted@));
            r
        },
        _ => value.clone(),
    }
}

fn insert_argument(arguments: &mut Vec<Argument>, new: Argument)
    ensures
        final(arguments).deep_view() == with_argument(old(arguments).deep_view(), new.deep_view()),
{
    let ghost before = arguments.deep_view();
    let ghost names = |i: int| before[i].name;
    let mut n: usize = arguments.len();
    while n > 0 && str_lt(&new.name, &arguments[n - 1].name)
        invariant
            n <= arguments@.len(),
            before == arguments.deep_view(),
            before.len() == arguments@.len(),
            names == (|i: int| before[i].name),
            slot(names, new.name@, before.len()) == slot(names, new.name@, n as nat),
        decreases n,
    {
        assert(names(n - 1) == arguments@[n - 1].name@);
        n = n - 1;
    }
    assert(n > 0 ==> names(n - 1) == arguments@[n - 1].name@);
    assert(slot(names, new.name@, before.len()) == n);
    let ghost view = new.deep_view();
    arguments.insert(n, new);
    assert(arguments.deep_view() =~= before.insert(n as int, view));
}

/// The arguments sorted by name, with their values sorted too.
pub fn sort_arguments(arguments: &Vec<Argument>) -> (r: Vec<Argument>)
    ensures
        r.deep_view() == sorted_arguments(
            arguments.deep_view(),
            arguments.deep_view().len(),
        ),
{
    let ghost all = arguments.deep_view();
    let mut sorted: Vec<Argument> = Vec::new();
    assert(sorted.deep_view() =~= Seq::empty());
    let mut i: usize = 0;
    while i < arguments.len()
        invariant
            i <= arguments@.len(),
            all == arguments.deep_view(),
            sorted.deep_view() == sorted_arguments(all, i as nat),
        decreases arguments@.len() - i,
    {
        assert(all[i as int] == arguments@[i as int].deep_view());
        insert_argument(
            &mut sorted,
            Argument {
                name: arguments[i].name.clone(),
                value: sort_value(&arguments[i].value),
            },
        );
        i += 1;
    }
    sorted
}

/// A list of arguments to a field or directive, sorted by name and with the fields of the objects in
/// their values sorted by name. It cannot be changed, and a copy of it is cheap.
pub struct ArgumentList {
    inner: Option<Arc<Vec<Argument>>>,
}

impl DeepView for ArgumentList {
    type V = Seq<ArgumentView>;

    closed spec fn deep_view(&self) -> Seq<ArgumentView> {
        match self.inner {
            Some(list) => list.deep_view(),
            None => Seq::empty(),
        }
    }
}

impl ArgumentList {
    /// The list is sorted, and an empty one holds nothing.
    #[verifier::type_invariant]
    spec fn well_formed(self) -> bool {
        self.inner matches Some(list) ==> list.deep_view().len() > 0 && in_order(list.deep_view())
    }

    /// A list without arguments.
    pub fn new() -> (r: Self)
        ensures
            r.deep_view() == Seq::<ArgumentView>::empty(),
    {
        ArgumentList { inner: None }
    }

    /// A list of one argument, whose value is sorted.
    pub fn one(argument: Argument) -> (r: Self)
        ensures
            r.deep_view() == seq![
                ArgumentView {
                    name: argument.deep_view().name,
                    value: sorted_value(argument.deep_view().value),
                },
            ],
    {
        let ghost view = argument.deep_view();
        let arguments: Vec<Argument> = vec![argument];
        assert(arguments.deep_view() =~= seq![view]);
        proof {
            reveal_with_fuel(sorted_arguments, 2);
            let new = ArgumentView { name: view.name, value: sorted_value(view.value) };
            let none = Seq::<ArgumentView>::empty();
            assert(with_argument(none, new) =~= seq![new]);
        }
        ArgumentList::from(arguments)
    }

    /// The list of some arguments.
    pub fn from(arguments: Vec<Argument>) -> (r: Self)
        ensures
            r.deep_view() == sorted_arguments(
                arguments.deep_view(),
                arguments.deep_view().len(),
            ),
            in_order(r.deep_view()),
            r.deep_view().len() == arguments.deep_view().len(),
    {
        let ghost all = arguments.deep_view();
        proof {
            law_arguments_are_sorted(all);
            values_sorted(all).to_multiset_ensures();
            sorted_arguments(all, all.len()).to_multiset_ensures();
        }
        if arguments.len() == 0 {
            return ArgumentList::new();
        }
        ArgumentList { inner: Some(Arc::new(sort_arguments(&arguments))) }
    }

    /// The arguments in their order.
    pub fn to_vec(&self) -> (r: Vec<Argument>)
        ensures
            r.deep_view() == self.deep_view(),
            in_order(r.deep_view()),
    {
        proof {
            use_type_invariant(self);
        }
        match &self.inner {
            Some(list) => {
                let r = (**list).clone();
                assert(r.deep_view() =~= list.deep_view());
                r
            },
            None => {
                let r: Vec<Argument> = Vec::new();
                assert(r.deep_view() =~= Seq::empty());
                r
            },
        }
    }

    /// Whether two lists hold the same.
    pub fn same_as(&self, other: &ArgumentList) -> (r: bool)
        ensures
            r == (self.deep_view() == other.deep_view()),
    {
        same_arguments(&self.to_vec(), &other.to_vec())
    }
}

/// Whether arguments are in the order of their names.
pub open spec fn in_order(arguments: Seq<ArgumentView>) -> bool {
    forall|i: int, j: int|
        0 <= i < j < arguments.len() ==> text_le(
            (#[trigger] arguments[i]).name,
            (#[trigger] arguments[j]).name,
        )
}

/// Whether no two arguments have one name.
pub open spec fn distinct_names(arguments: Seq<ArgumentView>) -> bool {
    forall|i: int, j: int|
        0 <= i < j < arguments.len() ==> (#[trigger] arguments[i]).name != (
        #[trigger] arguments[j]).name
}

proof fn lemma_slot(arguments: Seq<ArgumentView>, name: Text, n: nat)
    requires
        n <= arguments.len(),
    ensures
        slot(|i: int| arguments[i].name, name, n) <= n,
        forall|i: int|
            slot(|i: int| arguments[i].name, name, n) <= i < n ==> text_lt(
                name,
                (#[trigger] arguments[i]).name,
            ),
        slot(|i: int| arguments[i].name, name, n) > 0 ==> !text_lt(
            name,
            arguments[slot(|i: int| arguments[i].name, name, n) - 1].name,
        ),
    decreases n,
{
    if n > 0 {
        lemma_slot(arguments, name, (n - 1) as nat);
    }
}

proof fn lemma_with_argument(arguments: Seq<ArgumentView>, new: ArgumentView)
    requires
        in_order(arguments),
    ensures
        in_order(with_argument(arguments, new)),
        with_argument(arguments, new).to_multiset() == arguments.to_multiset().insert(new),
{
    let k = slot(|i: int| arguments[i].name, new.name, arguments.len()) as int;
    lemma_slot(arguments, new.name, arguments.len());
    let after = with_argument(arguments, new);
    assert forall|i: int, j: int| 0 <= i < j < after.len() implies text_le(
        (#[trigger] after[i]).name,
        (#[trigger] after[j]).name,
    ) by {
        if i < k {
            assert(after[i] == arguments[i]);
            if j == k {
                text_order_is_total(arguments[k - 1].name, new.name);
                if i < k - 1 {
                    assert(text_le(arguments[i].name, arguments[k - 1].name));
                    lemma_le_transitive(
                        arguments[i].name,
                        arguments[k - 1].name,
                        new.name,
                    );
                }
            } else if j < k {
                assert(after[j] == arguments[j]);
            } else {
                assert(after[j] == arguments[j - 1]);
            }
        } else if i == k {
            assert(after[j] == arguments[j - 1]);
        } else {
            assert(after[i] == arguments[i - 1]);
            assert(after[j] == arguments[j - 1]);
        }
    }
    arguments.to_multiset_ensures();
    after.to_multiset_ensures();
    assert(after.remove(k) =~= arguments);
    assert(after[k] == new);
    assert(after.to_multiset().remove(new) == arguments.to_multiset());
    assert(after.to_multiset() =~= arguments.to_multiset().insert(new));
}

proof fn lemma_le_transitive(a: Text, b: Text, c: Text)
    requires
        text_le(a, b),
        text_le(b, c),
    ensures
        text_le(a, c),
{
    if a != b && b != c {
        text_order_is_transitive(a, b, c);
    }
}

/// The arguments with their values sorted, as they come.
pub open spec fn values_sorted(arguments: Seq<ArgumentView>) -> Seq<ArgumentView> {
    arguments.map_values(
        |a: ArgumentView| ArgumentView { name: a.name, value: sorted_value(a.value) },
    )
}

/// Sorted arguments are in the order of their names, and they are the given arguments with their
/// values sorted.
pub proof fn law_arguments_are_sorted(arguments: Seq<ArgumentView>)
    ensures
        in_order(sorted_arguments(arguments, arguments.len())),
        sorted_arguments(arguments, arguments.len()).to_multiset() == values_sorted(
            arguments,
        ).to_multiset(),
{
    lemma_sorted_prefix(arguments, arguments.len());
    assert(values_sorted(arguments).take(arguments.len() as int) =~= values_sorted(arguments));
}

proof fn lemma_sorted_prefix(arguments: Seq<ArgumentView>, n: nat)
    requires
        n <= arguments.len(),
    ensures
        in_order(sorted_arguments(arguments, n)),
        sorted_arguments(arguments, n).to_multiset() == values_sorted(arguments).take(
            n as int,
        ).to_multiset(),
    decreases n,
{
    let all = values_sorted(arguments);
    if n == 0 {
        assert(all.take(0) =~= sorted_arguments(arguments, 0));
    } else {
        lemma_sorted_prefix(arguments, (n - 1) as nat);
        let before = sorted_arguments(arguments, (n - 1) as nat);
        lemma_with_argument(before, all[n - 1]);
        all.take(n - 1).to_multiset_ensures();
        assert(all.take(n as int) =~= all.take(n - 1).push(all[n - 1]));
    }
}

proof fn lemma_order_is_unique(a: Seq<ArgumentView>, b: Seq<ArgumentView>)
    requires
        in_order(a),
        in_order(b),
        distinct_names(a),
        distinct_names(b),
        a.to_multiset() == b.to_multiset(),
    ensures
        a == b,
    decreases a.len(),
{
    a.to_multiset_ensures();
    b.to_multiset_ensures();
    assert(a.len() == b.len());
    if a.len() > 0 {
        assert(a.contains(a[0]));
        assert(a.to_multiset().count(a[0]) > 0);
        assert(b.contains(a[0]));
        let j = b.index_of(a[0]);
        assert(b.contains(b[0]));
        assert(b.to_multiset().count(b[0]) > 0);
        assert(a.contains(b[0]));
        let i = a.index_of(b[0]);
        if j > 0 {
            assert(text_le(b[0].name, b[j].name));
            assert(b[0].name != b[j].name);
            if i > 0 {
                assert(text_le(a[0].name, a[i].name));
                assert(a[0].name != a[i].name);
                text_order_is_strict(a[0].name, b[0].name);
            }
        }
        assert(a[0] == b[0]);
        let x = a.drop_first();
        let y = b.drop_first();
        assert(a.remove(0) =~= x);
        assert(b.remove(0) =~= y);
        assert(x.to_multiset() == y.to_multiset());
        assert forall|i: int, j: int| 0 <= i < j < x.len() implies text_le(
            (#[trigger] x[i]).name,
            (#[trigger] x[j]).name,
        ) && x[i].name != x[j].name by {
            assert(x[i] == a[i + 1] && x[j] == a[j + 1]);
        }
        assert forall|i: int, j: int| 0 <= i < j < y.len() implies text_le(
            (#[trigger] y[i]).name,
            (#[trigger] y[j]).name,
        ) && y[i].name != y[j].name by {
            assert(y[i] == b[i + 1] && y[j] == b[j + 1]);
        }
        lemma_order_is_unique(x, y);
        assert(a =~= seq![a[0]] + x);
        assert(b =~= seq![b[0]] + y);
    } else {
        assert(a =~= b);
    }
}

proof fn lemma_distinct_after_sorting(a: Seq<ArgumentView>, b: Seq<ArgumentView>)
    requires
        a.to_multiset() == b.to_multiset(),
        distinct_names(a),
    ensures
        distinct_names(b),
{
    a.to_multiset_ensures();
    b.to_multiset_ensures();
    assert forall|i: int, j: int| 0 <= i < j < b.len() implies (#[trigger] b[i]).name != (
    #[trigger] b[j]).name by {
        if b[i].name == b[j].name {
            assert(b.contains(b[i]) && b.contains(b[j]));
            assert(b.to_multiset().count(b[i]) > 0 && b.to_multiset().count(b[j]) > 0);
            assert(a.contains(b[i]) && a.contains(b[j]));
            let k = a.index_of(b[i]);
            let l = a.index_of(b[j]);
            if k != l {
                if k < l {
                    assert(a[k].name != a[l].name);
                } else {
                    assert(a[l].name != a[k].name);
                }
            }
            assert(b[i] == b[j]);
            // The same argument twice in one list is there twice in the other.
            let rest = b.remove(j);
            rest.to_multiset_ensures();
            assert(rest[i] == b[i]);
            assert(rest.contains(b[i]));
            assert(rest.to_multiset().count(b[i]) > 0);
            assert(b.to_multiset().remove(b[j]) == rest.to_multiset());
            assert(b.to_multiset().remove(b[j]).count(b[j]) == b.to_multiset().count(b[j]) - 1);
            assert(a.to_multiset().count(b[i]) >= 2);
            let left = a.remove(k);
            left.to_multiset_ensures();
            assert(a.to_multiset().remove(a[k]) == left.to_multiset());
            assert(left.to_multiset().count(b[i]) > 0);
            assert(left.contains(b[i]));
            let m = left.index_of(b[i]);
            if m < k {
                assert(left[m] == a[m]);
                assert(a[m].name != a[k].name);
            } else {
                assert(left[m] == a[m + 1]);
                assert(a[k].name != a[m + 1].name);
            }
        }
    }
}

/// Arguments that differ in their order alone are the same after sorting.
pub proof fn law_order_of_arguments_does_not_matter(a: Seq<ArgumentView>, b: Seq<ArgumentView>)
    requires
        distinct_names(a),
        values_sorted(a).to_multiset() == values_sorted(b).to_multiset(),
    ensures
        sorted_arguments(a, a.len()) == sorted_arguments(b, b.len()),
{
    law_arguments_are_sorted(a);
    law_arguments_are_sorted(b);
    let x = values_sorted(a);
    assert(distinct_names(x)) by {
        assert forall|i: int, j: int| 0 <= i < j < x.len() implies (#[trigger] x[i]).name != (
        #[trigger] x[j]).name by {
            assert(a[i].name != a[j].name);
        }
    }
    lemma_distinct_after_sorting(x, sorted_arguments(a, a.len()));
    lemma_distinct_after_sorting(x, sorted_arguments(b, b.len()));
    lemma_order_is_unique(sorted_arguments(a, a.len()), sorted_arguments(b, b.len()));
}

/// The fields of an object as arguments.
spec fn as_arguments(fields: Seq<(Text, ValueView)>) -> Seq<ArgumentView> {
    fields.map_values(|f: (Text, ValueView)| ArgumentView { name: f.0, value: f.1 })
}

proof fn lemma_pairs_as_arguments(fields: Seq<(Text, ValueView)>, n: nat)
    requires
        n <= fields.len(),
    ensures
        as_arguments(sorted_pairs(fields, n)) == sorted_arguments(as_arguments(fields), n),
    decreases n,
{
    if n == 0 {
        assert(as_arguments(sorted_pairs(fields, 0)) =~= Seq::empty());
    } else {
        lemma_pairs_as_arguments(fields, (n - 1) as nat);
        let pairs = sorted_pairs(fields, (n - 1) as nat);
        let arguments = as_arguments(pairs);
        let new = (fields[n - 1].0, sorted_value(fields[n - 1].1));
        lemma_same_slot(pairs, new.0, pairs.len());
        let k = slot(|i: int| pairs[i].0, new.0, pairs.len());
        lemma_slot(arguments, new.0, arguments.len());
        assert(as_arguments(with_pair(pairs, new)) =~= arguments.insert(
            k as int,
            ArgumentView { name: new.0, value: new.1 },
        ));
    }
}

proof fn lemma_same_slot(pairs: Seq<(Text, ValueView)>, name: Text, n: nat)
    requires
        n <= pairs.len(),
    ensures
        slot(|i: int| pairs[i].0, name, n) == slot(|i: int| as_arguments(pairs)[i].name, name, n),
    decreases n,
{
    if n > 0 {
        lemma_same_slot(pairs, name, (n - 1) as nat);
    }
}

/// Whether two values differ at most in the order of the fields of their objects, at any depth. The
/// fields of an object have different names.
pub open spec fn reordered(a: ValueView, b: ValueView) -> bool
    decreases a,
{
    match (a, b) {
        (ValueView::List(x), ValueView::List(y)) => x.len() == y.len() && forall|i: int|
            0 <= i < x.len() ==> reordered(#[trigger] x[i], y[i]),
        (ValueView::Object(x), ValueView::Object(y)) => {
            &&& forall|i: int, j: int|
                0 <= i < j < x.len() ==> (#[trigger] x[i]).0 != (#[trigger] x[j]).0
            &&& forall|i: int, j: int|
                0 <= i < j < y.len() ==> (#[trigger] y[i]).0 != (#[trigger] y[j]).0
            &&& forall|j: int|
                0 <= j < y.len() ==> exists|i: int|
                    0 <= i < x.len() && (#[trigger] x[i]).0 == (#[trigger] y[j]).0
            &&& forall|i: int|
                0 <= i < x.len() ==> exists|j: int|
                    0 <= j < y.len() && (#[trigger] x[i]).0 == (#[trigger] y[j]).0 && reordered(
                        x[i].1,
                        y[j].1,
                    )
        },
        _ => a == b,
    }
}

/// Whether two lists of arguments differ at most in their order, and in that of the fields of the
/// objects in their values.
pub open spec fn reordered_arguments(a: Seq<ArgumentView>, b: Seq<ArgumentView>) -> bool {
    &&& distinct_names(a)
    &&& distinct_names(b)
    &&& forall|j: int|
        0 <= j < b.len() ==> exists|i: int|
            0 <= i < a.len() && (#[trigger] a[i]).name == (#[trigger] b[j]).name
    &&& forall|i: int|
        0 <= i < a.len() ==> exists|j: int|
            0 <= j < b.len() && (#[trigger] a[i]).name == (#[trigger] b[j]).name && reordered(
                a[i].value,
                b[j].value,
            )
}

/// Lists of arguments with different names and the same members are the same after sorting.
proof fn lemma_same_members(a: Seq<ArgumentView>, b: Seq<ArgumentView>)
    requires
        distinct_names(a),
        distinct_names(b),
        forall|j: int|
            0 <= j < b.len() ==> exists|i: int|
                0 <= i < a.len() && (#[trigger] a[i]).name == (#[trigger] b[j]).name,
        forall|i: int|
            0 <= i < a.len() ==> exists|j: int|
                0 <= j < b.len() && (#[trigger] a[i]).name == (#[trigger] b[j]).name
                    && sorted_value(a[i].value) == sorted_value(b[j].value),
    ensures
        sorted_arguments(a, a.len()) == sorted_arguments(b, b.len()),
{
    let x = values_sorted(a);
    let y = values_sorted(b);
    assert forall|i: int, j: int| 0 <= i < x.len() && 0 <= j < x.len() && i != j implies x[i]
        != x[j] by {
        if i < j {
            assert(a[i].name != a[j].name);
        } else {
            assert(a[j].name != a[i].name);
        }
    }
    assert forall|i: int, j: int| 0 <= i < y.len() && 0 <= j < y.len() && i != j implies y[i]
        != y[j] by {
        if i < j {
            assert(b[i].name != b[j].name);
        } else {
            assert(b[j].name != b[i].name);
        }
    }
    assert forall|v: ArgumentView| x.contains(v) implies y.contains(v) by {
        let i = x.index_of(v);
        assert(x[i].name == a[i].name);
        let j = choose|j: int|
            0 <= j < b.len() && (#[trigger] a[i]).name == (#[trigger] b[j]).name && sorted_value(
                a[i].value,
            ) == sorted_value(b[j].value);
        assert(y[j] == v);
    }
    assert forall|v: ArgumentView| y.contains(v) implies x.contains(v) by {
        let j = y.index_of(v);
        let i = choose|i: int|
            0 <= i < a.len() && (#[trigger] a[i]).name == (#[trigger] b[j]).name;
        let k = choose|k: int|
            0 <= k < b.len() && (#[trigger] a[i]).name == (#[trigger] b[k]).name && sorted_value(
                a[i].value,
            ) == sorted_value(b[k].value);
        if k < j {
            assert(b[k].name != b[j].name);
        } else if j < k {
            assert(b[j].name != b[k].name);
        }
        assert(x[i] == v);
    }
    x.to_multiset_ensures();
    y.to_multiset_ensures();
    x.lemma_multiset_has_no_duplicates();
    y.lemma_multiset_has_no_duplicates();
    assert forall|v: ArgumentView| x.to_multiset().count(v) == y.to_multiset().count(v) by {
        if x.contains(v) {
            assert(x.to_multiset().contains(v));
            assert(y.to_multiset().contains(v));
        } else {
            assert(!y.contains(v));
        }
    }
    assert(x.to_multiset() =~= y.to_multiset());
    law_order_of_arguments_does_not_matter(a, b);
}

/// Values that differ in the order of the fields of their objects alone, at any depth, are the same
/// after sorting.
pub proof fn law_order_of_fields_does_not_matter(a: ValueView, b: ValueView)
    requires
        reordered(a, b),
    ensures
        sorted_value(a) == sorted_value(b),
    decreases a,
{
    match (a, b) {
        (ValueView::List(x), ValueView::List(y)) => {
            assert forall|i: int| 0 <= i < x.len() implies sorted_value(x[i]) == sorted_value(
                y[i],
            ) by {
                law_order_of_fields_does_not_matter(x[i], y[i]);
            }
            assert(sorted_value(a)->List_0 =~= sorted_value(b)->List_0);
        },
        (ValueView::Object(x), ValueView::Object(y)) => {
            let p = as_arguments(x);
            let q = as_arguments(y);
            assert forall|i: int, j: int| 0 <= i < j < p.len() implies (#[trigger] p[i]).name != (
            #[trigger] p[j]).name by {
                assert(x[i].0 != x[j].0);
            }
            assert forall|i: int, j: int| 0 <= i < j < q.len() implies (#[trigger] q[i]).name != (
            #[trigger] q[j]).name by {
                assert(y[i].0 != y[j].0);
            }
            assert forall|j: int| 0 <= j < q.len() implies exists|i: int|
                0 <= i < p.len() && (#[trigger] p[i]).name == (#[trigger] q[j]).name by {
                let i = choose|i: int| 0 <= i < x.len() && (#[trigger] x[i]).0 == y[j].0;
                assert(p[i].name == q[j].name);
            }
            assert forall|i: int| 0 <= i < p.len() implies exists|j: int|
                0 <= j < q.len() && (#[trigger] p[i]).name == (#[trigger] q[j]).name
                    && sorted_value(p[i].value) == sorted_value(q[j].value) by {
                let j = choose|j: int|
                    0 <= j < y.len() && x[i].0 == (#[trigger] y[j]).0 && reordered(
                        x[i].1,
                        y[j].1,
                    );
                assert(decreases_to!(x => x[i]));
                assert(decreases_to!(x[i] => x[i].1));
                law_order_of_fields_does_not_matter(x[i].1, y[j].1);
                assert(p[i].name == q[j].name);
            }
            lemma_same_members(p, q);
            lemma_pairs_as_arguments(x, x.len());
            lemma_pairs_as_arguments(y, y.len());
            let u = sorted_pairs(x, x.len());
            let v = sorted_pairs(y, y.len());
            assert(u.len() == as_arguments(u).len());
            assert(v.len() == as_arguments(v).len());
            assert forall|i: int| 0 <= i < u.len() implies u[i] == v[i] by {
                assert(as_arguments(u)[i] == as_arguments(v)[i]);
            }
            assert(u =~= v);
        },
        _ => {},
    }
}

/// Arguments that differ in their order alone, and in that of the fields of the objects in their
/// values, are the same after sorting.
pub proof fn law_order_in_arguments_does_not_matter(a: Seq<ArgumentView>, b: Seq<ArgumentView>)
    requires
        reordered_arguments(a, b),
    ensures
        sorted_arguments(a, a.len()) == sorted_arguments(b, b.len()),
{
    assert forall|i: int| 0 <= i < a.len() implies exists|j: int|
        0 <= j < b.len() && (#[trigger] a[i]).name == (#[trigger] b[j]).name && sorted_value(
            a[i].value,
        ) == sorted_value(b[j].value) by {
        let j = choose|j: int|
            0 <= j < b.len() && a[i].name == (#[trigger] b[j]).name && reordered(
                a[i].value,
                b[j].value,
            );
        law_order_of_fields_does_not_matter(a[i].value, b[j].value);
    }
    lemma_same_members(a, b);
}

/// Whether the fields of the objects in a value are in the order of their names, at any depth.
pub open spec fn objects_in_order(value: ValueView) -> bool
    decreases value,
{
    match value {
        ValueView::List(items) => forall|i: int|
            0 <= i < items.len() ==> objects_in_order(#[trigger] items[i]),
        ValueView::Object(fields) => {
            &&& forall|i: int, j: int|
                0 <= i < j < fields.len() ==> text_le(
                    (#[trigger] fields[i]).0,
                    (#[trigger] fields[j]).0,
                )
            &&& forall|i: int| 0 <= i < fields.len() ==> objects_in_order((#[trigger] fields[i]).1)
        },
        _ => true,
    }
}

/// In a sorted value the fields of every object are in the order of their names.
pub proof fn law_objects_are_sorted(value: ValueView)
    ensures
        objects_in_order(sorted_value(value)),
    decreases value,
{
    match value {
        ValueView::List(items) => {
            let sorted = sorted_value(value)->List_0;
            assert forall|i: int| 0 <= i < sorted.len() implies objects_in_order(
                #[trigger] sorted[i],
            ) by {
                law_objects_are_sorted(items[i]);
            }
        },
        ValueView::Object(fields) => {
            let sorted = sorted_pairs(fields, fields.len());
            let given = as_arguments(fields);
            let found = as_arguments(sorted);
            lemma_pairs_as_arguments(fields, fields.len());
            law_arguments_are_sorted(given);
            let values = values_sorted(given);
            values.to_multiset_ensures();
            found.to_multiset_ensures();
            assert forall|i: int, j: int| 0 <= i < j < sorted.len() implies text_le(
                (#[trigger] sorted[i]).0,
                (#[trigger] sorted[j]).0,
            ) by {
                assert(text_le(found[i].name, found[j].name));
            }
            assert forall|i: int| 0 <= i < sorted.len() implies objects_in_order(
                (#[trigger] sorted[i]).1,
            ) by {
                assert(found.contains(found[i]));
                assert(found.to_multiset().count(found[i]) > 0);
                assert(values.contains(found[i]));
                let k = values.index_of(found[i]);
                law_objects_are_sorted(fields[k].1);
            }
        },
        _ => {},
    }
}

} // verus!
