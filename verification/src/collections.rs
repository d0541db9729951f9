//! Ordered collections of names.
//!
//! A [`NameSet`] holds distinct names in the order of their insertion. A [`NameMap`] gives each of
//! its names a value. Both keep their names in an [`IndexSet`].

use crate::text::Text;
use indexmap::IndexSet;
use vstd::prelude::*;

verus! {

/// A map as a sequence of entries, in the order of the map.
pub type Entries<T> = Seq<(Text, T)>;

/// Whether `m` has an entry for `k`.
pub open spec fn has_key<T>(m: Entries<T>, k: Text) -> bool {
    exists|i: int| 0 <= i < m.len() && (#[trigger] m[i]).0 == k
}

/// Whether the first entry for `k` in `m` is at `i`.
pub open spec fn is_key_index<T>(m: Entries<T>, k: Text, i: int) -> bool {
    &&& 0 <= i < m.len()
    &&& m[i].0 == k
    &&& forall|j: int| 0 <= j < i ==> (#[trigger] m[j]).0 != k
}

/// The position of the first entry for `k`.
pub open spec fn key_index<T>(m: Entries<T>, k: Text) -> int {
    choose|i: int| is_key_index(m, k, i)
}

/// The value for `k`.
pub open spec fn value_of<T>(m: Entries<T>, k: Text) -> Option<T> {
    if has_key(m, k) {
        Some(m[key_index(m, k)].1)
    } else {
        None
    }
}

/// The value for `k`, or `d` where there is none.
pub open spec fn value_or<T>(m: Entries<T>, k: Text, d: T) -> T {
    if has_key(m, k) {
        m[key_index(m, k)].1
    } else {
        d
    }
}

/// The map in which `k` has the value `v`: in its place where it had one, at the end otherwise.
pub open spec fn put<T>(m: Entries<T>, k: Text, v: T) -> Entries<T> {
    if has_key(m, k) {
        m.update(key_index(m, k), (k, v))
    } else {
        m.push((k, v))
    }
}

/// The map in which `k` has its value, or `v` at the end where it had none.
pub open spec fn put_if_absent<T>(m: Entries<T>, k: Text, v: T) -> Entries<T> {
    if has_key(m, k) {
        m
    } else {
        m.push((k, v))
    }
}

/// No two entries have the same key.
pub open spec fn keys_distinct<T>(m: Entries<T>) -> bool {
    forall|i: int, j: int|
        0 <= i < j < m.len() ==> (#[trigger] m[i]).0 != (#[trigger] m[j]).0
}

/// The set with `k`: unchanged where it was there, with `k` at the end otherwise.
pub open spec fn set_with(s: Seq<Text>, k: Text) -> Seq<Text> {
    if s.contains(k) {
        s
    } else {
        s.push(k)
    }
}

/// Where there is an entry for `k`, there is a first one.
pub proof fn lemma_key_index<T>(m: Entries<T>, k: Text)
    requires
        has_key(m, k),
    ensures
        is_key_index(m, k, key_index(m, k)),
        forall|i: int| is_key_index(m, k, i) ==> i == key_index(m, k),
{
    let w = choose|i: int| 0 <= i < m.len() && (#[trigger] m[i]).0 == k;
    lemma_first(m, k, w);
}

proof fn lemma_first<T>(m: Entries<T>, k: Text, w: int)
    requires
        0 <= w < m.len(),
        m[w].0 == k,
    ensures
        exists|i: int| is_key_index(m, k, i),
    decreases w,
{
    if forall|j: int| 0 <= j < w ==> (#[trigger] m[j]).0 != k {
        assert(is_key_index(m, k, w));
    } else {
        let j = choose|j: int| 0 <= j < w && (#[trigger] m[j]).0 == k;
        lemma_first(m, k, j);
    }
}

/// A read after a write gives what was written, and every other name keeps its value.
pub proof fn lemma_value_of_put<T>(m: Entries<T>, k: Text, v: T, q: Text)
    ensures
        value_of(put(m, k, v), q) == (if q == k { Some(v) } else { value_of(m, q) }),
        has_key(put(m, k, v), q) == (q == k || has_key(m, q)),
{
    let n = put(m, k, v);
    if has_key(m, k) {
        lemma_key_index(m, k);
        assert(n[key_index(m, k)].0 == k);
        assert forall|i: int| 0 <= i < m.len() implies (#[trigger] n[i]).0 == m[i].0 by {}
    } else {
        assert(n[m.len() as int].0 == k);
        assert forall|i: int| 0 <= i < m.len() implies (#[trigger] n[i]) == m[i] by {}
    }
    if has_key(m, q) {
        lemma_key_index(m, q);
        let i = key_index(m, q);
        assert(n[i].0 == q);
        assert(has_key(n, q));
        lemma_key_index(n, q);
        assert(is_key_index(n, q, i));
        assert(key_index(n, q) == i);
    } else if q == k {
        assert(has_key(n, q));
        lemma_key_index(n, q);
        assert(is_key_index(n, q, m.len() as int));
    } else if has_key(n, q) {
        lemma_key_index(n, q);
        let i = key_index(n, q);
        assert(m[i].0 == q);
    }
}

/// Writing the value that a name has changes nothing.
pub proof fn lemma_put_same<T>(m: Entries<T>, k: Text)
    ensures
        has_key(m, k) ==> put(m, k, value_of(m, k)->0) == m,
{
    if has_key(m, k) {
        lemma_key_index(m, k);
        assert(put(m, k, value_of(m, k)->0) =~= m);
    }
}

/// With distinct keys, the first entry for a key is the only one.
pub proof fn lemma_distinct_index<T>(m: Entries<T>, i: int)
    requires
        keys_distinct(m),
        0 <= i < m.len(),
    ensures
        has_key(m, m[i].0),
        key_index(m, m[i].0) == i,
{
    lemma_key_index(m, m[i].0);
    assert(is_key_index(m, m[i].0, i));
}

/// `indexmap::IndexSet`: a set that keeps its items in the order of their insertion. Nothing is
/// known of a value but what the functions below say.
#[verifier::external_type_specification]
#[verifier::external_body]
#[verifier::reject_recursive_types(T)]
#[verifier::reject_recursive_types(S)]
pub struct ExIndexSet<T, S>(indexmap::IndexSet<T, S>);

/// The items that an [`IndexSet`] holds, in its order.
pub uninterp spec fn index_set_items(set: IndexSet<String>) -> Seq<Text>;

/// `IndexSet::new`: a set without items.
#[verifier::external_body]
fn index_set_new() -> (set: IndexSet<String>)
    ensures
        index_set_items(set) == Seq::<Text>::empty(),
{
    IndexSet::new()
}

/// `IndexSet::clone`: a set with the same items in the same order.
#[verifier::external_body]
fn index_set_clone(set: &IndexSet<String>) -> (r: IndexSet<String>)
    ensures
        index_set_items(r) == index_set_items(*set),
{
    set.clone()
}

/// `IndexSet::insert_full`: an item that is not there goes to the end, one that is there stays
/// where it is. The result is the item's position and whether it is new.
#[verifier::external_body]
fn index_set_insert_full(set: &mut IndexSet<String>, value: String) -> (r: (usize, bool))
    ensures
        r.1 == !index_set_items(*old(set)).contains(value@),
        index_set_items(*final(set)) == set_with(index_set_items(*old(set)), value@),
        r.0 < index_set_items(*final(set)).len(),
        index_set_items(*final(set))[r.0 as int] == value@,
        r.1 ==> r.0 == index_set_items(*old(set)).len(),
{
    set.insert_full(value)
}

/// `IndexSet::get_index_of`: the position of an item.
#[verifier::external_body]
fn index_set_get_index_of(set: &IndexSet<String>, value: &str) -> (r: Option<usize>)
    ensures
        match r {
            Some(i) => i < index_set_items(*set).len() && index_set_items(*set)[i as int]
                == value@,
            None => !index_set_items(*set).contains(value@),
        },
{
    set.get_index_of(value)
}

/// `IndexSet::get_index`: the item at a position.
#[verifier::external_body]
fn index_set_get_index(set: &IndexSet<String>, index: usize) -> (r: Option<&String>)
    ensures
        match r {
            Some(item) => index < index_set_items(*set).len() && item@ == index_set_items(
                *set,
            )[index as int],
            None => index >= index_set_items(*set).len(),
        },
{
    set.get_index(index)
}

/// `IndexSet::len`: the number of items.
#[verifier::external_body]
fn index_set_len(set: &IndexSet<String>) -> (r: usize)
    ensures
        r == index_set_items(*set).len(),
{
    set.len()
}

/// Distinct names in the order of their insertion.
pub struct NameSet {
    items: IndexSet<String>,
}

impl DeepView for NameSet {
    type V = Seq<Text>;

    closed spec fn deep_view(&self) -> Seq<Text> {
        index_set_items(self.items)
    }
}

impl NameSet {
    #[verifier::type_invariant]
    spec fn inv(self) -> bool {
        index_set_items(self.items).no_duplicates()
    }

    /// A set without names.
    pub fn new() -> (r: Self)
        ensures
            r.deep_view() == Seq::<Text>::empty(),
    {
        NameSet { items: index_set_new() }
    }

    /// The number of names, which are distinct.
    pub fn len(&self) -> (r: usize)
        ensures
            r == self.deep_view().len(),
            self.deep_view().no_duplicates(),
    {
        proof {
            use_type_invariant(self);
        }
        index_set_len(&self.items)
    }

    /// Whether there is no name.
    pub fn is_empty(&self) -> (r: bool)
        ensures
            r == (self.deep_view().len() == 0),
    {
        index_set_len(&self.items) == 0
    }

    /// Whether the name is in the set.
    pub fn contains(&self, name: &str) -> (r: bool)
        ensures
            r == self.deep_view().contains(name@),
    {
        match index_set_get_index_of(&self.items, name) {
            Some(i) => {
                assert(index_set_items(self.items)[i as int] == name@);
                true
            },
            None => false,
        }
    }

    /// Adds the name at the end, unless it is there already. Says whether it is new.
    pub fn insert(&mut self, name: String) -> (r: bool)
        ensures
            r == !old(self).deep_view().contains(name@),
            final(self).deep_view() == set_with(old(self).deep_view(), name@),
    {
        proof {
            use_type_invariant(&*self);
        }
        let mut items = index_set_new();
        std::mem::swap(&mut items, &mut self.items);
        let (_, fresh) = index_set_insert_full(&mut items, name);
        std::mem::swap(&mut items, &mut self.items);
        fresh
    }

    /// The name at a position.
    pub fn at(&self, index: usize) -> (r: &String)
        requires
            index < self.deep_view().len(),
        ensures
            r@ == self.deep_view()[index as int],
    {
        index_set_get_index(&self.items, index).unwrap()
    }
}

impl Clone for NameSet {
    fn clone(&self) -> (r: Self)
        ensures
            r.deep_view() == self.deep_view(),
    {
        proof {
            use_type_invariant(self);
        }
        NameSet { items: index_set_clone(&self.items) }
    }
}

struct Repr<V> {
    keys: IndexSet<String>,
    values: Vec<V>,
}

impl<V> Repr<V> {
    spec fn wf(self) -> bool {
        &&& index_set_items(self.keys).len() == self.values@.len()
        &&& index_set_items(self.keys).no_duplicates()
    }

    fn empty() -> (r: Self)
        ensures
            r.wf(),
            r.values@ == Seq::<V>::empty(),
    {
        Repr { keys: index_set_new(), values: Vec::new() }
    }
}

/// A map from names to values, in the order in which the names were first inserted.
pub struct NameMap<V> {
    repr: Repr<V>,
}

/// Cloning a value keeps its view.
pub open spec fn clone_keeps_view<V: Clone + DeepView>() -> bool {
    forall|a: V, b: V| #[trigger] cloned(a, b) ==> a.deep_view() == b.deep_view()
}

impl<V: DeepView> DeepView for NameMap<V> {
    type V = Entries<V::V>;

    closed spec fn deep_view(&self) -> Entries<V::V> {
        Seq::new(
            self.repr.values@.len(),
            |i: int| (index_set_items(self.repr.keys)[i], self.repr.values@[i].deep_view()),
        )
    }
}

impl<V> NameMap<V> {
    #[verifier::type_invariant]
    spec fn inv(self) -> bool {
        self.repr.wf()
    }
}

impl<V: DeepView> NameMap<V> {
    proof fn lemma_index(&self, name: Text)
        requires
            self.repr.wf(),
        ensures
            keys_distinct(self.deep_view()),
            has_key(self.deep_view(), name) == index_set_items(self.repr.keys).contains(name),
            forall|i: int|
                0 <= i < self.deep_view().len() && index_set_items(self.repr.keys)[i] == name
                    ==> i == key_index(self.deep_view(), name),
    {
        let m = self.deep_view();
        let keys = index_set_items(self.repr.keys);
        assert forall|i: int, j: int| 0 <= i < j < m.len() implies (#[trigger] m[i]).0 != (
        #[trigger] m[j]).0 by {
            assert(keys[i] != keys[j]);
        }
        if has_key(m, name) {
            let i = choose|i: int| 0 <= i < m.len() && (#[trigger] m[i]).0 == name;
            assert(keys[i] == name);
        }
        if keys.contains(name) {
            let i = choose|i: int| 0 <= i < keys.len() && keys[i] == name;
            assert(m[i].0 == name);
        }
        assert forall|i: int| 0 <= i < m.len() && keys[i] == name implies i == key_index(
            m,
            name,
        ) by {
            assert(m[i].0 == name);
            lemma_distinct_index(m, i);
        }
    }

    /// A map without entries.
    pub fn new() -> (r: Self)
        ensures
            r.deep_view() == Seq::<(Text, V::V)>::empty(),
    {
        let r = NameMap { repr: Repr::empty() };
        assert(r.deep_view() =~= Seq::<(Text, V::V)>::empty());
        r
    }

    /// The number of entries, whose names are distinct.
    pub fn len(&self) -> (r: usize)
        ensures
            r == self.deep_view().len(),
            keys_distinct(self.deep_view()),
    {
        proof {
            use_type_invariant(self);
            self.lemma_index(Seq::empty());
        }
        self.repr.values.len()
    }

    /// Whether there is no entry.
    pub fn is_empty(&self) -> (r: bool)
        ensures
            r == (self.deep_view().len() == 0),
    {
        self.repr.values.len() == 0
    }

    /// The name of an entry.
    pub fn key_at(&self, index: usize) -> (r: &String)
        requires
            index < self.deep_view().len(),
        ensures
            r@ == self.deep_view()[index as int].0,
    {
        proof {
            use_type_invariant(self);
        }
        index_set_get_index(&self.repr.keys, index).unwrap()
    }

    /// The value of an entry.
    pub fn value_at(&self, index: usize) -> (r: &V)
        requires
            index < self.deep_view().len(),
        ensures
            r.deep_view() == self.deep_view()[index as int].1,
    {
        &self.repr.values[index]
    }

    /// Whether the name has a value.
    pub fn contains_key(&self, name: &str) -> (r: bool)
        ensures
            r == has_key(self.deep_view(), name@),
    {
        proof {
            use_type_invariant(self);
            self.lemma_index(name@);
        }
        match index_set_get_index_of(&self.repr.keys, name) {
            Some(i) => {
                assert(index_set_items(self.repr.keys)[i as int] == name@);
                true
            },
            None => false,
        }
    }

    /// The value of a name.
    pub fn get(&self, name: &str) -> (r: Option<&V>)
        ensures
            r.deep_view() == value_of(self.deep_view(), name@),
    {
        proof {
            use_type_invariant(self);
            self.lemma_index(name@);
        }
        match index_set_get_index_of(&self.repr.keys, name) {
            Some(i) => {
                assert(index_set_items(self.repr.keys)[i as int] == name@);
                Some(&self.repr.values[i])
            },
            None => None,
        }
    }

    /// Access to the value of a name.
    pub fn get_mut(&mut self, name: &str) -> (r: Option<&mut V>)
        ensures
            match r {
                Some(v) => {
                    &&& has_key(old(self).deep_view(), name@)
                    &&& (*v).deep_view() == value_of(old(self).deep_view(), name@)->0
                    &&& final(self).deep_view() == put(
                        old(self).deep_view(),
                        name@,
                        (*final(v)).deep_view(),
                    )
                },
                None => {
                    &&& !has_key(old(self).deep_view(), name@)
                    &&& final(self).deep_view() == old(self).deep_view()
                },
            },
    {
        proof {
            use_type_invariant(&*self);
            self.lemma_index(name@);
        }
        match index_set_get_index_of(&self.repr.keys, name) {
            Some(i) => {
                assert(index_set_items(self.repr.keys)[i as int] == name@);
                assert(i == key_index(self.deep_view(), name@));
                Some(&mut self.repr.values[i])
            },
            None => None,
        }
    }

    /// Gives the name a value: in its place where it had one, at the end otherwise.
    pub fn insert(&mut self, name: String, value: V)
        ensures
            final(self).deep_view() == put(old(self).deep_view(), name@, value.deep_view()),
    {
        proof {
            use_type_invariant(&*self);
            self.lemma_index(name@);
        }
        let mut repr = Repr::empty();
        std::mem::swap(&mut repr, &mut self.repr);
        let (i, fresh) = index_set_insert_full(&mut repr.keys, name);
        if fresh {
            repr.values.push(value);
        } else {
            repr.values.set(i, value);
        }
        std::mem::swap(&mut repr, &mut self.repr);
        assert(self.deep_view() =~= put(old(self).deep_view(), name@, value.deep_view()));
    }

    /// Access to the value of a name, which is `default` at the end where it had none.
    pub fn get_or_insert(&mut self, name: String, default: V) -> (r: &mut V)
        ensures
            (*r).deep_view() == value_or(old(self).deep_view(), name@, default.deep_view()),
            final(self).deep_view() == put(
                old(self).deep_view(),
                name@,
                (*final(r)).deep_view(),
            ),
    {
        proof {
            use_type_invariant(&*self);
            self.lemma_index(name@);
        }
        let mut repr = Repr::empty();
        std::mem::swap(&mut repr, &mut self.repr);
        let (i, fresh) = index_set_insert_full(&mut repr.keys, name);
        if fresh {
            repr.values.push(default);
        }
        std::mem::swap(&mut repr, &mut self.repr);
        &mut self.repr.values[i]
    }

    /// Gives the name a value, unless it has one.
    pub fn insert_if_absent(&mut self, name: String, value: V)
        ensures
            final(self).deep_view() == put_if_absent(
                old(self).deep_view(),
                name@,
                value.deep_view(),
            ),
    {
        if !self.contains_key(&name) {
            self.insert(name, value);
        }
    }
}

impl<V: Clone + DeepView> Clone for NameMap<V> {
    fn clone(&self) -> (r: Self)
        ensures
            clone_keeps_view::<V>() ==> r.deep_view() == self.deep_view(),
    {
        proof {
            use_type_invariant(self);
        }
        let r = NameMap {
            repr: Repr { keys: index_set_clone(&self.repr.keys), values: self.repr.values.clone() },
        };
        assert(clone_keeps_view::<V>() ==> r.deep_view() =~= self.deep_view());
        r
    }
}

} // verus!
