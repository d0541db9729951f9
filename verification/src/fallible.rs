//! Going through items where a step may fail.
//!
//! Where the items are plain and the step may fail, the functions are named `fallible_*`. Where the
//! items are results, they are named `*_ok`, or `ok_and_*`; where both are, `and_then_*`.
//!
//! Items are taken from the front of a queue. Where one of them decides, those behind it stay there.

use std::collections::VecDeque;
use vstd::prelude::*;

verus! {

/// Whether a check can give the value for the first `n` items.
pub open spec fn gives<T, E, F: Fn(T) -> Result<bool, E>>(
    items: Seq<T>,
    check: F,
    value: bool,
    n: int,
) -> bool {
    forall|i: int|
        0 <= i < n ==> check.ensures((#[trigger] items[i],), Ok::<bool, E>(value))
}

/// Whether the item at a place can be the first one for which a check does not give `keep`, and the
/// check can give the result there.
pub open spec fn decides<T, E, F: Fn(T) -> Result<bool, E>>(
    items: Seq<T>,
    check: F,
    keep: bool,
    r: Result<bool, E>,
    n: int,
) -> bool {
    0 <= n < items.len() && gives(items, check, keep, n) && check.ensures((items[n],), r)
}

/// Whether going through items as long as a check gives `keep` can end with the result and the rest:
/// with `keep` and no rest if it gives that for all items, else with what it gives for the first
/// item where it does not, and the items behind that one.
pub open spec fn ends_with<T, E, F: Fn(T) -> Result<bool, E>>(
    items: Seq<T>,
    check: F,
    keep: bool,
    r: Result<bool, E>,
    rest: Seq<T>,
) -> bool {
    if r == Ok::<bool, E>(keep) {
        gives(items, check, keep, items.len() as int) && rest.len() == 0
    } else {
        exists|n: int| #[trigger] decides(items, check, keep, r, n) && rest == items.skip(n + 1)
    }
}

/// Whether the check gives true for all items. The first item where it gives false or fails ends
/// the search, and those behind it are left.
pub fn fallible_all<T, E, F: Fn(T) -> Result<bool, E>>(items: &mut VecDeque<T>, predicate: F) -> (r: Result<
    bool,
    E,
>)
    requires
        forall|n: int|
            0 <= n < old(items)@.len() && gives(old(items)@, predicate, true, n)
                ==> predicate.requires((#[trigger] old(items)@[n],)),
    ensures
        ends_with(old(items)@, predicate, true, r, final(items)@),
{
    let ghost all = items@;
    let ghost mut n: int = 0;
    assert(all.skip(0) =~= all);
    loop
        invariant
            all == old(items)@,
            0 <= n <= all.len(),
            items@ == all.skip(n),
            forall|k: int|
                0 <= k < all.len() && gives(all, predicate, true, k) ==> predicate.requires(
                    (#[trigger] all[k],),
                ),
            gives(all, predicate, true, n),
        decreases all.len() - n,
    {
        match items.pop_front() {
            None => {
                return Ok(true);
            },
            Some(item) => {
                assert(item == all[n]);
                assert(items@ =~= all.skip(n + 1));
                match predicate(item) {
                    Ok(true) => {},
                    Ok(false) => {
                        assert(decides(all, predicate, true, Ok::<bool, E>(false), n));
                        return Ok(false);
                    },
                    Err(error) => {
                        assert(decides(all, predicate, true, Err::<bool, E>(error), n));
                        return Err(error);
                    },
                }
                proof {
                    n = n + 1;
                }
            },
        }
    }
}

/// Whether the check gives true for some item. The first item where it gives true or fails ends the
/// search, and those behind it are left.
pub fn fallible_any<T, E, F: Fn(T) -> Result<bool, E>>(items: &mut VecDeque<T>, predicate: F) -> (r: Result<
    bool,
    E,
>)
    requires
        forall|n: int|
            0 <= n < old(items)@.len() && gives(old(items)@, predicate, false, n)
                ==> predicate.requires((#[trigger] old(items)@[n],)),
    ensures
        ends_with(old(items)@, predicate, false, r, final(items)@),
{
    let ghost all = items@;
    let ghost mut n: int = 0;
    assert(all.skip(0) =~= all);
    loop
        invariant
            all == old(items)@,
            0 <= n <= all.len(),
            items@ == all.skip(n),
            forall|k: int|
                0 <= k < all.len() && gives(all, predicate, false, k) ==> predicate.requires(
                    (#[trigger] all[k],),
                ),
            gives(all, predicate, false, n),
        decreases all.len() - n,
    {
        match items.pop_front() {
            None => {
                return Ok(false);
            },
            Some(item) => {
                assert(item == all[n]);
                assert(items@ =~= all.skip(n + 1));
                match predicate(item) {
                    Ok(false) => {},
                    Ok(true) => {
                        assert(decides(all, predicate, false, Ok::<bool, E>(true), n));
                        return Ok(true);
                    },
                    Err(error) => {
                        assert(decides(all, predicate, false, Err::<bool, E>(error), n));
                        return Err(error);
                    },
                }
                proof {
                    n = n + 1;
                }
            },
        }
    }
}

/// Looking for an item where a check does not hold takes as many items as looking for one where the
/// opposite of it does.
pub proof fn law_all_and_any_leave_the_same<
    T,
    E,
    F: Fn(T) -> Result<bool, E>,
    G: Fn(T) -> Result<bool, E>,
>(items: Seq<T>, check: F, opposite: G, r: Result<bool, E>, rest: Seq<T>)
    requires
        ends_with(items, check, true, r, rest),
        forall|item: T, b: bool|
            #[trigger] check.ensures((item,), Ok::<bool, E>(b)) ==> opposite.ensures(
                (item,),
                Ok::<bool, E>(!b),
            ),
        forall|item: T, error: E|
            #[trigger] check.ensures((item,), Err::<bool, E>(error)) ==> opposite.ensures(
                (item,),
                Err::<bool, E>(error),
            ),
    ensures
        ends_with(
            items,
            opposite,
            false,
            match r {
                Ok(b) => Ok::<bool, E>(!b),
                Err(error) => Err(error),
            },
            rest,
        ),
{
    let turned = match r {
        Ok(b) => Ok::<bool, E>(!b),
        Err(error) => Err(error),
    };
    if r == Ok::<bool, E>(true) {
        assert forall|i: int| 0 <= i < items.len() implies opposite.ensures(
            (#[trigger] items[i],),
            Ok::<bool, E>(!true),
        ) by {
            assert(check.ensures((items[i],), Ok::<bool, E>(true)));
        }
    } else {
        let n = choose|n: int| #[trigger] decides(items, check, true, r, n) && rest == items.skip(
            n + 1,
        );
        assert forall|i: int| 0 <= i < n implies opposite.ensures(
            (#[trigger] items[i],),
            Ok::<bool, E>(!true),
        ) by {
            assert(check.ensures((items[i],), Ok::<bool, E>(true)));
        }
        assert(decides(items, opposite, false, turned, n));
    }
}

/// What is left of the first `n` items, given what a check gave for each: an item where it gave
/// true, and an error where it failed.
pub open spec fn filtered<T, E>(items: Seq<T>, outcomes: Seq<Result<bool, E>>, n: nat) -> Seq<
    Result<T, E>,
>
    decreases n,
{
    if n == 0 {
        Seq::empty()
    } else {
        let before = filtered(items, outcomes, (n - 1) as nat);
        match outcomes[n - 1] {
            Ok(true) => before.push(Ok(items[n - 1])),
            Ok(false) => before,
            Err(error) => before.push(Err(error)),
        }
    }
}

/// Whether a check can give the outcomes for the items.
pub open spec fn can_give<T, E, F: Fn(&T) -> Result<bool, E>>(
    items: Seq<T>,
    check: F,
    outcomes: Seq<Result<bool, E>>,
) -> bool {
    outcomes.len() <= items.len() && forall|i: int|
        0 <= i < outcomes.len() ==> check.ensures((&items[i],), #[trigger] outcomes[i])
}

/// Whether a check can leave out the first `n` items.
pub open spec fn leaves_out<T, E, F: Fn(&T) -> Result<bool, E>>(
    items: Seq<T>,
    check: F,
    n: int,
) -> bool {
    forall|i: int| 0 <= i < n ==> check.ensures((&#[trigger] items[i],), Ok::<bool, E>(false))
}

/// Whether a check can give the result in the place of an item: the item itself where it gives true,
/// or the error with which it fails.
pub open spec fn gives_for<T, E, F: Fn(&T) -> Result<bool, E>>(
    item: T,
    check: F,
    found: Result<T, E>,
) -> bool {
    match found {
        Ok(kept) => kept == item && check.ensures((&item,), Ok::<bool, E>(true)),
        Err(error) => check.ensures((&item,), Err::<bool, E>(error)),
    }
}

/// What a check gave where the result is in the place of an item.
pub open spec fn outcome_for<T, E>(found: Result<T, E>) -> Result<bool, E> {
    match found {
        Ok(_) => Ok(true),
        Err(error) => Err(error),
    }
}

/// The items for which a check gives true, one after the other. Where it fails, the error takes the
/// place of the item.
pub struct FallibleFilter<T, F> {
    pub items: VecDeque<T>,
    pub predicate: F,
}

/// The items for which the check gives true. Nothing is checked before it is asked for.
pub fn fallible_filter<T, E, F: Fn(&T) -> Result<bool, E>>(items: VecDeque<T>, predicate: F) -> (r:
    FallibleFilter<T, F>)
    ensures
        r.items == items,
        r.predicate == predicate,
{
    FallibleFilter { items, predicate }
}

impl<T, F> FallibleFilter<T, F> {
    /// The next item, or the next error. Only the items up to that one are taken and checked.
    pub fn next<E>(&mut self) -> (r: Option<Result<T, E>>) where F: Fn(&T) -> Result<bool, E>
        requires
            forall|n: int|
                0 <= n < old(self).items@.len() && leaves_out(
                    old(self).items@,
                    old(self).predicate,
                    n,
                ) ==> old(self).predicate.requires((&#[trigger] old(self).items@[n],)),
        ensures
            final(self).predicate == old(self).predicate,
            match r {
                None => final(self).items@.len() == 0 && leaves_out(
                    old(self).items@,
                    old(self).predicate,
                    old(self).items@.len() as int,
                ),
                Some(found) => exists|n: int|
                    0 <= n < old(self).items@.len() && leaves_out(
                        old(self).items@,
                        old(self).predicate,
                        n,
                    ) && gives_for(#[trigger] old(self).items@[n], old(self).predicate, found)
                        && final(self).items@ == old(self).items@.skip(n + 1),
            },
    {
        let ghost all = self.items@;
        let ghost mut n: int = 0;
        assert(all.skip(0) =~= all);
        loop
            invariant
                all == old(self).items@,
                self.predicate == old(self).predicate,
                0 <= n <= all.len(),
                self.items@ == all.skip(n),
                forall|k: int|
                    0 <= k < all.len() && leaves_out(all, self.predicate, k)
                        ==> self.predicate.requires((&#[trigger] all[k],)),
                leaves_out(all, self.predicate, n),
            decreases all.len() - n,
        {
            match self.items.pop_front() {
                None => {
                    return None;
                },
                Some(item) => {
                    assert(item == all[n]);
                    assert(self.items@ =~= all.skip(n + 1));
                    match (self.predicate)(&item) {
                        Ok(true) => {
                            assert(gives_for(all[n], self.predicate, Ok::<T, E>(item)));
                            return Some(Ok(item));
                        },
                        Ok(false) => {},
                        Err(error) => {
                            assert(gives_for(all[n], self.predicate, Err::<T, E>(error)));
                            return Some(Err(error));
                        },
                    }
                    proof {
                        n = n + 1;
                    }
                },
            }
        }
    }

    /// All that is still to come.
    pub fn collect<E>(self) -> (r: Vec<Result<T, E>>) where F: Fn(&T) -> Result<bool, E>
        requires
            forall|i: int|
                0 <= i < self.items@.len() ==> self.predicate.requires((&#[trigger] self.items@[i],)),
        ensures
            exists|outcomes: Seq<Result<bool, E>>|
                outcomes.len() == self.items@.len() && #[trigger] can_give(
                    self.items@,
                    self.predicate,
                    outcomes,
                ) && r@ == filtered(self.items@, outcomes, self.items@.len()),
    {
        let mut left = self;
        let ghost all = self.items@;
        let ghost check = self.predicate;
        let ghost mut outcomes: Seq<Result<bool, E>> = Seq::empty();
        let mut r: Vec<Result<T, E>> = Vec::new();
        assert(all.skip(0) =~= all);
        loop
            invariant
                all == self.items@,
                check == self.predicate,
                left.predicate == check,
                outcomes.len() <= all.len(),
                left.items@ == all.skip(outcomes.len() as int),
                forall|i: int| 0 <= i < all.len() ==> check.requires((&#[trigger] all[i],)),
                can_give(all, check, outcomes),
                r@ == filtered(all, outcomes, outcomes.len()),
            decreases left.items@.len(),
        {
            let ghost before = left.items@;
            let ghost taken = outcomes.len();
            assert forall|k: int| 0 <= k < before.len() implies #[trigger] before[k] == all[taken
                + k] by {}
            match left.next() {
                None => {
                    proof {
                        let more = outcomes + Seq::new(
                            before.len(),
                            |i: int| Ok::<bool, E>(false),
                        );
                        assert forall|i: int| 0 <= i < more.len() implies check.ensures(
                            (&all[i],),
                            #[trigger] more[i],
                        ) by {
                            if i < taken {
                                assert(more[i] == outcomes[i]);
                            } else {
                                assert(before[i - taken] == all[i]);
                            }
                        }
                        lemma_filtered_leaves_out(all, outcomes, more, more.len());
                        assert(can_give(all, check, more));
                    }
                    return r;
                },
                Some(found) => {
                    proof {
                        let n = choose|n: int|
                            0 <= n < before.len() && leaves_out(before, check, n) && gives_for(
                                #[trigger] before[n],
                                check,
                                found,
                            ) && left.items@ == before.skip(n + 1);
                        let outcome = outcome_for(found);
                        let some = outcomes + Seq::new(n as nat, |i: int| Ok::<bool, E>(false));
                        let more = some.push(outcome);
                        assert forall|i: int| 0 <= i < more.len() implies check.ensures(
                            (&all[i],),
                            #[trigger] more[i],
                        ) by {
                            if i < taken {
                                assert(more[i] == outcomes[i]);
                            } else {
                                assert(before[i - taken] == all[i]);
                            }
                        }
                        lemma_filtered_leaves_out(all, outcomes, more, some.len());
                        assert(left.items@ =~= all.skip(more.len() as int));
                        assert(all[some.len() as int] == before[n]);
                        outcomes = more;
                    }
                    r.push(found);
                },
            }
        }
    }
}

/// Outcomes that leave out what follows add nothing to what is left.
proof fn lemma_filtered_leaves_out<T, E>(
    items: Seq<T>,
    a: Seq<Result<bool, E>>,
    b: Seq<Result<bool, E>>,
    n: nat,
)
    requires
        n <= b.len(),
        a.len() <= b.len(),
        forall|i: int| 0 <= i < a.len() ==> a[i] == b[i],
        forall|i: int| a.len() <= i < n ==> b[i] == Ok::<bool, E>(false),
    ensures
        n <= a.len() ==> filtered(items, b, n) == filtered(items, a, n),
        a.len() <= n ==> filtered(items, b, n) == filtered(items, a, a.len()),
    decreases n,
{
    if n > 0 {
        lemma_filtered_leaves_out(items, a, b, (n - 1) as nat);
    }
}

/// What is left of the first `n` results, given what a check gave for each that is no error.
pub open spec fn filtered_ok<T, E>(
    items: Seq<Result<T, E>>,
    outcomes: Seq<Result<bool, E>>,
    n: nat,
) -> Seq<Result<T, E>>
    decreases n,
{
    if n == 0 {
        Seq::empty()
    } else {
        let before = filtered_ok(items, outcomes, (n - 1) as nat);
        match items[n - 1] {
            Err(error) => before.push(Err(error)),
            Ok(item) => match outcomes[n - 1] {
                Ok(true) => before.push(Ok(item)),
                Ok(false) => before,
                Err(error) => before.push(Err(error)),
            },
        }
    }
}

/// Whether a check can give the outcomes for the results that are no errors.
pub open spec fn can_give_ok<T, E, F: Fn(&T) -> Result<bool, E>>(
    items: Seq<Result<T, E>>,
    check: F,
    outcomes: Seq<Result<bool, E>>,
) -> bool {
    outcomes.len() <= items.len() && forall|i: int|
        0 <= i < outcomes.len() ==> match items[i] {
            Ok(item) => check.ensures((&item,), #[trigger] outcomes[i]),
            Err(_) => true,
        }
}

/// Whether the first `n` results are no errors, and a check can leave out their items.
pub open spec fn leaves_out_ok<T, E, F: Fn(&T) -> Result<bool, E>>(
    items: Seq<Result<T, E>>,
    check: F,
    n: int,
) -> bool {
    forall|i: int|
        0 <= i < n ==> match #[trigger] items[i] {
            Ok(item) => check.ensures((&item,), Ok::<bool, E>(false)),
            Err(_) => false,
        }
}

/// Whether a check can give a result in the place of another: an error in its own place.
pub open spec fn gives_for_ok<T, E, F: Fn(&T) -> Result<bool, E>>(
    item: Result<T, E>,
    check: F,
    found: Result<T, E>,
) -> bool {
    match item {
        Ok(value) => gives_for(value, check, found),
        Err(error) => found == Err::<T, E>(error),
    }
}

/// The results for whose items a check gives true, and all errors, one after the other. Where it
/// fails, the error takes the place of the item.
pub struct AndThenFilter<T, E, F> {
    pub items: VecDeque<Result<T, E>>,
    pub predicate: F,
}

/// The results for whose items the check gives true, and all errors. Nothing is checked before it is
/// asked for.
pub fn and_then_filter<T, E, F: Fn(&T) -> Result<bool, E>>(
    items: VecDeque<Result<T, E>>,
    predicate: F,
) -> (r: AndThenFilter<T, E, F>)
    ensures
        r.items == items,
        r.predicate == predicate,
{
    AndThenFilter { items, predicate }
}

impl<T, E, F: Fn(&T) -> Result<bool, E>> AndThenFilter<T, E, F> {
    /// The next result. Only those up to that one are taken and checked.
    pub fn next(&mut self) -> (r: Option<Result<T, E>>)
        requires
            forall|n: int|
                0 <= n < old(self).items@.len() && leaves_out_ok(
                    old(self).items@,
                    old(self).predicate,
                    n,
                ) ==> (#[trigger] old(self).items@[n] matches Ok(item)
                    ==> old(self).predicate.requires((&item,))),
        ensures
            final(self).predicate == old(self).predicate,
            match r {
                None => final(self).items@.len() == 0 && leaves_out_ok(
                    old(self).items@,
                    old(self).predicate,
                    old(self).items@.len() as int,
                ),
                Some(found) => exists|n: int|
                    0 <= n < old(self).items@.len() && leaves_out_ok(
                        old(self).items@,
                        old(self).predicate,
                        n,
                    ) && gives_for_ok(#[trigger] old(self).items@[n], old(self).predicate, found)
                        && final(self).items@ == old(self).items@.skip(n + 1),
            },
    {
        let ghost all = self.items@;
        let ghost mut n: int = 0;
        assert(all.skip(0) =~= all);
        loop
            invariant
                all == old(self).items@,
                self.predicate == old(self).predicate,
                0 <= n <= all.len(),
                self.items@ == all.skip(n),
                forall|k: int|
                    0 <= k < all.len() && leaves_out_ok(all, self.predicate, k) ==> (
                    #[trigger] all[k] matches Ok(item) ==> self.predicate.requires((&item,))),
                leaves_out_ok(all, self.predicate, n),
            decreases all.len() - n,
        {
            match self.items.pop_front() {
                None => {
                    return None;
                },
                Some(item) => {
                    assert(item == all[n]);
                    assert(self.items@ =~= all.skip(n + 1));
                    match item {
                        Err(error) => {
                            assert(gives_for_ok(all[n], self.predicate, Err::<T, E>(error)));
                            return Some(Err(error));
                        },
                        Ok(value) => match (self.predicate)(&value) {
                            Ok(true) => {
                                assert(gives_for_ok(all[n], self.predicate, Ok::<T, E>(value)));
                                return Some(Ok(value));
                            },
                            Ok(false) => {},
                            Err(error) => {
                                assert(gives_for_ok(all[n], self.predicate, Err::<T, E>(error)));
                                return Some(Err(error));
                            },
                        },
                    }
                    proof {
                        n = n + 1;
                    }
                },
            }
        }
    }

    /// All that is still to come.
    pub fn collect(self) -> (r: Vec<Result<T, E>>)
        requires
            forall|i: int|
                0 <= i < self.items@.len() ==> (#[trigger] self.items@[i] matches Ok(item)
                    ==> self.predicate.requires((&item,))),
        ensures
            exists|outcomes: Seq<Result<bool, E>>|
                outcomes.len() == self.items@.len() && #[trigger] can_give_ok(
                    self.items@,
                    self.predicate,
                    outcomes,
                ) && r@ == filtered_ok(self.items@, outcomes, self.items@.len()),
    {
        let mut left = self;
        let ghost all = self.items@;
        let ghost check = self.predicate;
        let ghost mut outcomes: Seq<Result<bool, E>> = Seq::empty();
        let mut r: Vec<Result<T, E>> = Vec::new();
        assert(all.skip(0) =~= all);
        loop
            invariant
                all == self.items@,
                check == self.predicate,
                left.predicate == check,
                outcomes.len() <= all.len(),
                left.items@ == all.skip(outcomes.len() as int),
                forall|i: int|
                    0 <= i < all.len() ==> (#[trigger] all[i] matches Ok(item) ==> check.requires(
                        (&item,),
                    )),
                can_give_ok(all, check, outcomes),
                r@ == filtered_ok(all, outcomes, outcomes.len()),
            decreases left.items@.len(),
        {
            let ghost before = left.items@;
            let ghost taken = outcomes.len();
            assert forall|k: int| 0 <= k < before.len() implies #[trigger] before[k] == all[taken
                + k] by {}
            match left.next() {
                None => {
                    proof {
                        let more = outcomes + Seq::new(
                            before.len(),
                            |i: int| Ok::<bool, E>(false),
                        );
                        assert forall|i: int| 0 <= i < more.len() implies match all[i] {
                            Ok(item) => check.ensures((&item,), #[trigger] more[i]),
                            Err(_) => true,
                        } by {
                            if i < taken {
                                assert(more[i] == outcomes[i]);
                            } else {
                                assert(before[i - taken] == all[i]);
                            }
                        }
                        assert forall|i: int| taken <= i < more.len() implies all[i] is Ok by {
                            assert(before[i - taken] == all[i]);
                        }
                        lemma_filtered_ok_leaves_out(all, outcomes, more, more.len());
                        assert(can_give_ok(all, check, more));
                    }
                    return r;
                },
                Some(found) => {
                    proof {
                        let n = choose|n: int|
                            0 <= n < before.len() && leaves_out_ok(before, check, n)
                                && gives_for_ok(#[trigger] before[n], check, found) && left.items@
                                == before.skip(n + 1);
                        let outcome = outcome_for(found);
                        let some = outcomes + Seq::new(n as nat, |i: int| Ok::<bool, E>(false));
                        let more = some.push(outcome);
                        assert forall|i: int| 0 <= i < more.len() implies match all[i] {
                            Ok(item) => check.ensures((&item,), #[trigger] more[i]),
                            Err(_) => true,
                        } by {
                            if i < taken {
                                assert(more[i] == outcomes[i]);
                            } else {
                                assert(before[i - taken] == all[i]);
                            }
                        }
                        assert forall|i: int| taken <= i < some.len() implies all[i] is Ok by {
                            assert(before[i - taken] == all[i]);
                        }
                        lemma_filtered_ok_leaves_out(all, outcomes, more, some.len());
                        assert(left.items@ =~= all.skip(more.len() as int));
                        assert(all[some.len() as int] == before[n]);
                        outcomes = more;
                    }
                    r.push(found);
                },
            }
        }
    }
}

/// Outcomes that leave out what follows, where there are no errors, add nothing to what is left.
proof fn lemma_filtered_ok_leaves_out<T, E>(
    items: Seq<Result<T, E>>,
    a: Seq<Result<bool, E>>,
    b: Seq<Result<bool, E>>,
    n: nat,
)
    requires
        n <= b.len(),
        a.len() <= b.len(),
        forall|i: int| 0 <= i < a.len() ==> a[i] == b[i],
        forall|i: int| a.len() <= i < n ==> b[i] == Ok::<bool, E>(false),
        forall|i: int| a.len() <= i < n ==> items[i] is Ok,
    ensures
        n <= a.len() ==> filtered_ok(items, b, n) == filtered_ok(items, a, n),
        a.len() <= n ==> filtered_ok(items, b, n) == filtered_ok(items, a, a.len()),
    decreases n,
{
    if n > 0 {
        lemma_filtered_ok_leaves_out(items, a, b, (n - 1) as nat);
    }
}

/// Whether the first `n` results are no errors, and a check can give false for their items.
pub open spec fn none_of<T, E, F: Fn(T) -> bool>(
    items: Seq<Result<T, E>>,
    check: F,
    n: int,
) -> bool {
    forall|i: int|
        0 <= i < n ==> match #[trigger] items[i] {
            Ok(item) => check.ensures((item,), false),
            Err(_) => false,
        }
}

/// Whether the check gives true for some item. The first error, or item where the check gives true,
/// ends the search, and what is behind it is left.
pub fn ok_and_any<T, E, F: Fn(T) -> bool>(
    items: &mut VecDeque<Result<T, E>>,
    predicate: F,
) -> (r: Result<bool, E>)
    requires
        forall|n: int|
            0 <= n < old(items)@.len() && none_of(old(items)@, predicate, n) ==> (
            #[trigger] old(items)@[n] matches Ok(item) ==> predicate.requires((item,))),
    ensures
        match r {
            Ok(false) => none_of(old(items)@, predicate, old(items)@.len() as int)
                && final(items)@.len() == 0,
            Ok(true) => exists|n: int|
                0 <= n < old(items)@.len() && none_of(old(items)@, predicate, n) && (
                #[trigger] old(items)@[n] matches Ok(item) && predicate.ensures((item,), true))
                    && final(items)@ == old(items)@.skip(n + 1),
            Err(error) => exists|n: int|
                0 <= n < old(items)@.len() && none_of(old(items)@, predicate, n)
                    && #[trigger] old(items)@[n] == Err::<T, E>(error) && final(items)@ == old(
                    items,
                )@.skip(n + 1),
        },
{
    let ghost all = items@;
    let ghost mut n: int = 0;
    assert(all.skip(0) =~= all);
    loop
        invariant
            all == old(items)@,
            0 <= n <= all.len(),
            items@ == all.skip(n),
            forall|k: int|
                0 <= k < all.len() && none_of(all, predicate, k) ==> (#[trigger] all[k] matches Ok(
                    item,
                ) ==> predicate.requires((item,))),
            none_of(all, predicate, n),
        decreases all.len() - n,
    {
        match items.pop_front() {
            None => {
                return Ok(false);
            },
            Some(item) => {
                assert(item == all[n]);
                assert(items@ =~= all.skip(n + 1));
                match item {
                    Err(error) => {
                        return Err(error);
                    },
                    Ok(value) => {
                        if predicate(value) {
                            return Ok(true);
                        }
                    },
                }
                proof {
                    n = n + 1;
                }
            },
        }
    }
}

/// The results of another step for the items, and all errors, one after the other.
pub struct AndThen<T, E, F> {
    pub items: VecDeque<Result<T, E>>,
    pub map: F,
}

/// The results of another step for the items, and all errors. No step is taken before its result is
/// asked for.
pub fn and_then<T, E, U, F: Fn(T) -> Result<U, E>>(items: VecDeque<Result<T, E>>, map: F) -> (r:
    AndThen<T, E, F>)
    ensures
        r.items == items,
        r.map == map,
{
    AndThen { items, map }
}

/// Whether a step can give a result for another: an error for itself.
pub open spec fn steps<T, E, U, F: Fn(T) -> Result<U, E>>(
    item: Result<T, E>,
    map: F,
    r: Result<U, E>,
) -> bool {
    match item {
        Ok(value) => map.ensures((value,), r),
        Err(error) => r == Err::<U, E>(error),
    }
}

impl<T, E, F> AndThen<T, E, F> {
    /// The next result. Only one item is taken.
    pub fn next<U>(&mut self) -> (r: Option<Result<U, E>>) where F: Fn(T) -> Result<U, E>
        requires
            old(self).items@.len() > 0 ==> (old(self).items@[0] matches Ok(item) ==> old(
                self,
            ).map.requires((item,))),
        ensures
            final(self).map == old(self).map,
            match r {
                None => old(self).items@.len() == 0 && final(self).items@.len() == 0,
                Some(found) => old(self).items@.len() > 0 && steps(
                    old(self).items@[0],
                    old(self).map,
                    found,
                ) && final(self).items@ == old(self).items@.skip(1),
            },
    {
        let ghost all = self.items@;
        match self.items.pop_front() {
            None => None,
            Some(item) => {
                assert(self.items@ =~= all.skip(1));
                match item {
                    Ok(value) => Some((self.map)(value)),
                    Err(error) => Some(Err(error)),
                }
            },
        }
    }

    /// All that is still to come.
    pub fn collect<U>(self) -> (r: Vec<Result<U, E>>) where F: Fn(T) -> Result<U, E>
        requires
            forall|i: int|
                0 <= i < self.items@.len() ==> (#[trigger] self.items@[i] matches Ok(item)
                    ==> self.map.requires((item,))),
        ensures
            r@.len() == self.items@.len(),
            forall|i: int|
                0 <= i < r@.len() ==> steps(self.items@[i], self.map, #[trigger] r@[i]),
    {
        let mut left = self;
        let ghost all = self.items@;
        let mut r: Vec<Result<U, E>> = Vec::new();
        assert(all.skip(0) =~= all);
        loop
            invariant
                all == self.items@,
                left.map == self.map,
                r@.len() <= all.len(),
                left.items@ == all.skip(r@.len() as int),
                forall|i: int|
                    0 <= i < all.len() ==> (#[trigger] all[i] matches Ok(item) ==> self.map.requires(
                        (item,),
                    )),
                forall|i: int| 0 <= i < r@.len() ==> steps(all[i], self.map, #[trigger] r@[i]),
            decreases left.items@.len(),
        {
            assert(left.items@.len() > 0 ==> left.items@[0] == all[r@.len() as int]);
            match left.next() {
                None => {
                    return r;
                },
                Some(found) => {
                    r.push(found);
                    assert(left.items@ =~= all.skip(r@.len() as int));
                },
            }
        }
    }
}

/// Whether the first `n` results are no errors, and a check can give false for their items.
pub open spec fn none_found<T, E, F: Fn(&T) -> bool>(
    items: Seq<Result<T, E>>,
    check: F,
    n: int,
) -> bool {
    forall|i: int|
        0 <= i < n ==> match #[trigger] items[i] {
            Ok(item) => check.ensures((&item,), false),
            Err(_) => false,
        }
}

/// The first item for which the check gives true, unless there is an error before it. What is behind
/// the item or the error is left.
pub fn find_ok<T, E, F: Fn(&T) -> bool>(items: &mut VecDeque<Result<T, E>>, predicate: F) -> (r:
    Result<Option<T>, E>)
    requires
        forall|n: int|
            0 <= n < old(items)@.len() && none_found(old(items)@, predicate, n) ==> (
            #[trigger] old(items)@[n] matches Ok(item) ==> predicate.requires((&item,))),
    ensures
        match r {
            Ok(None) => none_found(old(items)@, predicate, old(items)@.len() as int)
                && final(items)@.len() == 0,
            Ok(Some(item)) => exists|n: int|
                0 <= n < old(items)@.len() && none_found(old(items)@, predicate, n)
                    && #[trigger] old(items)@[n] == Ok::<T, E>(item) && predicate.ensures(
                    (&item,),
                    true,
                ) && final(items)@ == old(items)@.skip(n + 1),
            Err(error) => exists|n: int|
                0 <= n < old(items)@.len() && none_found(old(items)@, predicate, n)
                    && #[trigger] old(items)@[n] == Err::<T, E>(error) && final(items)@ == old(
                    items,
                )@.skip(n + 1),
        },
{
    let ghost all = items@;
    let ghost mut n: int = 0;
    assert(all.skip(0) =~= all);
    loop
        invariant
            all == old(items)@,
            0 <= n <= all.len(),
            items@ == all.skip(n),
            forall|k: int|
                0 <= k < all.len() && none_found(all, predicate, k) ==> (
                #[trigger] all[k] matches Ok(item) ==> predicate.requires((&item,))),
            none_found(all, predicate, n),
        decreases all.len() - n,
    {
        match items.pop_front() {
            None => {
                return Ok(None);
            },
            Some(item) => {
                assert(item == all[n]);
                assert(items@ =~= all.skip(n + 1));
                match item {
                    Err(error) => {
                        return Err(error);
                    },
                    Ok(value) => {
                        if predicate(&value) {
                            return Ok(Some(value));
                        }
                    },
                }
                proof {
                    n = n + 1;
                }
            },
        }
    }
}

/// Whether folding can go through the states: the first is the given one, and each step gives the
/// next.
pub open spec fn folds<T, O, E, F: Fn(O, T) -> Result<O, E>>(
    items: Seq<T>,
    init: O,
    mapper: F,
    states: Seq<O>,
) -> bool {
    &&& 1 <= states.len() <= items.len() + 1
    &&& states[0] == init
    &&& forall|i: int|
        0 <= i < states.len() - 1 ==> mapper.ensures(
            (#[trigger] states[i], items[i]),
            Ok::<O, E>(states[i + 1]),
        )
}

/// Folds the items into one value. The first step that fails ends that, and the items behind it are
/// left.
pub fn fallible_fold<T, O, E, F: Fn(O, T) -> Result<O, E>>(
    items: &mut VecDeque<T>,
    init: O,
    mapper: F,
) -> (r: Result<O, E>)
    requires
        forall|states: Seq<O>|
            states.len() <= old(items)@.len() && #[trigger] folds(
                old(items)@,
                init,
                mapper,
                states,
            ) ==> mapper.requires((states.last(), old(items)@[states.len() - 1])),
    ensures
        match r {
            Ok(value) => final(items)@.len() == 0 && exists|states: Seq<O>|
                states.len() == old(items)@.len() + 1 && #[trigger] folds(
                    old(items)@,
                    init,
                    mapper,
                    states,
                ) && states.last() == value,
            Err(error) => exists|states: Seq<O>|
                states.len() <= old(items)@.len() && #[trigger] folds(
                    old(items)@,
                    init,
                    mapper,
                    states,
                ) && mapper.ensures(
                    (states.last(), old(items)@[states.len() - 1]),
                    Err::<O, E>(error),
                ) && final(items)@ == old(items)@.skip(states.len() as int),
        },
{
    let ghost all = items@;
    let ghost mut states: Seq<O> = seq![init];
    let mut state = init;
    assert(all.skip(0) =~= all);
    loop
        invariant
            all == old(items)@,
            1 <= states.len() <= all.len() + 1,
            items@ == all.skip(states.len() - 1),
            forall|states: Seq<O>|
                states.len() <= all.len() && #[trigger] folds(all, init, mapper, states)
                    ==> mapper.requires((states.last(), all[states.len() - 1])),
            folds(all, init, mapper, states),
            states.last() == state,
        decreases items@.len(),
    {
        match items.pop_front() {
            None => {
                return Ok(state);
            },
            Some(item) => {
                assert(item == all[states.len() - 1]);
                assert(items@ =~= all.skip(states.len() as int));
                let ghost before = state;
                match mapper(state, item) {
                    Ok(next) => {
                        proof {
                            let more = states.push(next);
                            assert(folds(all, init, mapper, more)) by {
                                assert forall|i: int|
                                    0 <= i < more.len() - 1 implies mapper.ensures(
                                    (#[trigger] more[i], all[i]),
                                    Ok::<O, E>(more[i + 1]),
                                ) by {
                                    if i < states.len() - 1 {
                                        assert(more[i] == states[i]);
                                        assert(more[i + 1] == states[i + 1]);
                                    } else {
                                        assert(more[i] == before);
                                    }
                                }
                            }
                            states = more;
                        }
                        state = next;
                    },
                    Err(error) => {
                        return Err(error);
                    },
                }
            },
        }
    }
}

} // verus!
