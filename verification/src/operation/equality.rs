//! Comparison of values, arguments and directives.

use crate::ast::value_view;
use crate::ast::Argument;
use crate::ast::Directive;
use crate::ast::DirectiveView;
use crate::ast::Value;
use crate::text::same;
use vstd::prelude::*;

verus! {

/// Whether two values are the same.
pub fn same_value(a: &Value, b: &Value) -> (r: bool)
    ensures
        r == (a.deep_view() == b.deep_view()),
    decreases a,
{
    match (a, b) {
        (Value::Null, Value::Null) => true,
        (Value::Enum(x), Value::Enum(y)) => same(x, y),
        (Value::Variable(x), Value::Variable(y)) => same(x, y),
        (Value::String(x), Value::String(y)) => same(x, y),
        (Value::Float(x), Value::Float(y)) => same(x, y),
        (Value::Int(x), Value::Int(y)) => same(x, y),
        (Value::Boolean(x), Value::Boolean(y)) => *x == *y,
        (Value::List(x), Value::List(y)) => {
            let ghost va = value_view(*a)->List_0;
            let ghost vb = value_view(*b)->List_0;
            if x.len() != y.len() {
                assert(va.len() != vb.len());
                return false;
            }
            let mut i: usize = 0;
            while i < x.len()
                invariant
                    *a == Value::List(*x),
                    *b == Value::List(*y),
                    x.len() == y.len(),
                    i <= x.len(),
                    va == value_view(*a)->List_0,
                    vb == value_view(*b)->List_0,
                    forall|j: int| 0 <= j < i ==> va[j] == vb[j],
                decreases x.len() - i,
            {
                assert(decreases_to!(*a => a->List_0));
                assert(decreases_to!(x@ => x@[i as int]));
                assert(va[i as int] == value_view(x@[i as int]));
                assert(vb[i as int] == value_view(y@[i as int]));
                if !same_value(&x[i], &y[i]) {
                    return false;
                }
                i += 1;
            }
            assert(va =~= vb);
            true
        },
        (Value::Object(x), Value::Object(y)) => {
            let ghost va = value_view(*a)->Object_0;
            let ghost vb = value_view(*b)->Object_0;
            if x.len() != y.len() {
                assert(va.len() != vb.len());
                return false;
            }
            let mut i: usize = 0;
            while i < x.len()
                invariant
                    *a == Value::Object(*x),
                    *b == Value::Object(*y),
                    x.len() == y.len(),
                    i <= x.len(),
                    va == value_view(*a)->Object_0,
                    vb == value_view(*b)->Object_0,
                    forall|j: int| 0 <= j < i ==> va[j] == vb[j],
                decreases x.len() - i,
            {
                assert(decreases_to!(*a => a->Object_0));
                assert(decreases_to!(x@ => x@[i as int]));
                assert(decreases_to!(x@[i as int] => x@[i as int].1));
                assert(va[i as int] == (x@[i as int].0@, value_view(x@[i as int].1)));
                assert(vb[i as int] == (y@[i as int].0@, value_view(y@[i as int].1)));
                if !same(&x[i].0, &y[i].0) || !same_value(&x[i].1, &y[i].1) {
                    return false;
                }
                i += 1;
            }
            assert(va =~= vb);
            true
        },
        _ => false,
    }
}

/// Whether two lists of arguments are the same.
pub fn same_arguments(a: &Vec<Argument>, b: &Vec<Argument>) -> (r: bool)
    ensures
        r == (a.deep_view() == b.deep_view()),
{
    let ghost va = a.deep_view();
    let ghost vb = b.deep_view();
    if a.len() != b.len() {
        assert(va.len() != vb.len());
        return false;
    }
    let mut i: usize = 0;
    while i < a.len()
        invariant
            a.len() == b.len(),
            i <= a.len(),
            va == a.deep_view(),
            vb == b.deep_view(),
            forall|j: int| 0 <= j < i ==> va[j] == vb[j],
        decreases a.len() - i,
    {
        assert(va[i as int] == a@[i as int].deep_view());
        assert(vb[i as int] == b@[i as int].deep_view());
        if !same(&a[i].name, &b[i].name) || !same_value(&a[i].value, &b[i].value) {
            return false;
        }
        i += 1;
    }
    assert(va =~= vb);
    true
}

/// Whether two directives are the same.
pub fn same_directive(a: &Directive, b: &Directive) -> (r: bool)
    ensures
        r == (a.deep_view() == b.deep_view()),
{
    same(&a.name, &b.name) && same_arguments(&a.arguments, &b.arguments)
}

/// Whether two lists hold the same directives, whatever their order.
pub open spec fn directives_match(a: Seq<DirectiveView>, b: Seq<DirectiveView>) -> bool {
    a.to_multiset() == b.to_multiset()
}

/// Whether two lists hold the same directives, whatever their order.
pub fn same_directives(a: &Vec<Directive>, b: &Vec<Directive>) -> (r: bool)
    ensures
        r == directives_match(a.deep_view(), b.deep_view()),
{
    broadcast use vstd::seq_lib::group_to_multiset_ensures;

    let ghost va = a.deep_view();
    let ghost vb = b.deep_view();
    let mut rest: Vec<&Directive> = Vec::new();
    let mut k: usize = 0;
    while k < b.len()
        invariant
            k <= b.len(),
            rest@.len() == k,
            forall|j: int| 0 <= j < k ==> (#[trigger] rest@[j]).deep_view() == b@[j].deep_view(),
        decreases b.len() - k,
    {
        rest.push(&b[k]);
        k += 1;
    }
    assert(rest.deep_view() =~= vb);
    let mut i: usize = 0;
    assert(va.take(0) =~= Seq::empty());
    assert(va.take(0).to_multiset().add(rest.deep_view().to_multiset()) =~= vb.to_multiset());
    while i < a.len()
        invariant
            i <= a.len(),
            va == a.deep_view(),
            vb == b.deep_view(),
            va.take(i as int).to_multiset().add(rest.deep_view().to_multiset())
                == vb.to_multiset(),
        decreases a.len() - i,
    {
        let ghost before = rest.deep_view();
        let mut found: usize = rest.len();
        let mut j: usize = 0;
        while j < rest.len() && found == rest.len()
            invariant
                j <= rest.len(),
                found <= rest.len(),
                i < a.len(),
                before == rest.deep_view(),
                found < rest.len() ==> before[found as int] == a@[i as int].deep_view(),
                found == rest.len() ==> forall|l: int|
                    0 <= l < j ==> before[l] != a@[i as int].deep_view(),
            decreases rest.len() - j, rest.len() - found,
        {
            assert(before[j as int] == rest@[j as int].deep_view());
            if same_directive(&a[i], rest[j]) {
                found = j;
            }
            j += 1;
        }
        let ghost item = a@[i as int].deep_view();
        assert(va[i as int] == item);
        proof {
            assert(va.take(i + 1) =~= va.take(i as int).push(item));
            before.to_multiset_ensures();
            va.take(i as int).to_multiset_ensures();
        }
        if found == rest.len() {
            proof {
                assert(!before.contains(item));
                assert(before.to_multiset().count(item) == 0);
                assert(va.take(i + 1).to_multiset().count(item) == vb.to_multiset().count(item)
                    + 1);
                assert(va =~= va.take(i + 1) + va.skip(i + 1));
                vstd::seq_lib::lemma_multiset_commutative(va.take(i + 1), va.skip(i + 1));
            }
            return false;
        }
        let _ = rest.remove(found);
        proof {
            assert(rest.deep_view() =~= before.remove(found as int));
            assert(before.to_multiset().count(item) > 0) by {
                assert(before.contains(item));
            }
            assert(va.take(i + 1).to_multiset().add(rest.deep_view().to_multiset())
                =~= vb.to_multiset());
        }
        i += 1;
    }
    proof {
        assert(va.take(i as int) =~= va);
        let left = rest.deep_view();
        left.to_multiset_ensures();
        va.to_multiset_ensures();
        vb.to_multiset_ensures();
        if left.len() == 0 {
            assert(left =~= Seq::empty());
            assert(va.to_multiset().add(left.to_multiset()) =~= va.to_multiset());
        } else {
            assert(left.to_multiset().count(left[0]) > 0) by {
                assert(left.contains(left[0]));
            }
            assert(va.to_multiset().count(left[0]) < vb.to_multiset().count(left[0]));
        }
    }
    rest.len() == 0
}

} // verus!
