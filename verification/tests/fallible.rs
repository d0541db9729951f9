use apollo_federation::fallible::and_then;
use apollo_federation::fallible::and_then_filter;
use apollo_federation::fallible::fallible_all;
use apollo_federation::fallible::fallible_any;
use apollo_federation::fallible::fallible_filter;
use apollo_federation::fallible::fallible_fold;
use apollo_federation::fallible::find_ok;
use apollo_federation::fallible::ok_and_any;
use std::collections::VecDeque;

type Item = Result<usize, ()>;

fn is_prime(i: usize) -> Result<bool, ()> {
    match i {
        0 | 1 => Err(()),
        2 | 3 => Ok(true),
        _ => Ok(false),
    }
}

fn is_even(i: usize) -> bool {
    i % 2 == 0
}

fn range(from: usize, to: usize) -> VecDeque<usize> {
    (from..to).collect()
}

fn results(items: Vec<Item>) -> VecDeque<Item> {
    VecDeque::from(items)
}

#[test]
fn test_fallible_filter() {
    let vals = fallible_filter(range(1, 6), |i: &usize| is_prime(*i)).collect();
    assert_eq!(vals, vec![Err(()), Ok(2), Ok(3)]);
}

#[test]
fn test_and_then_filter() {
    let vals = and_then_filter(
        results(vec![Ok(0), Err(()), Err(()), Ok(3), Ok(4)]),
        |i: &usize| is_prime(*i),
    )
    .collect();
    assert_eq!(vals, vec![Err(()), Err(()), Err(()), Ok(3)]);
}

#[test]
fn test_fallible_all() {
    assert_eq!(Ok(true), fallible_all(&mut VecDeque::new(), is_prime));
    assert_eq!(Ok(true), fallible_all(&mut range(2, 4), is_prime));
    assert_eq!(Err(()), fallible_all(&mut range(1, 4), is_prime));
    assert_eq!(Ok(false), fallible_all(&mut range(2, 5), is_prime));
    assert_eq!(Err(()), fallible_all(&mut range(1, 5), is_prime));
}

#[test]
fn test_fallible_any() {
    assert_eq!(Ok(false), fallible_any(&mut VecDeque::new(), is_prime));
    assert_eq!(Ok(true), fallible_any(&mut range(2, 5), is_prime));
    assert_eq!(Ok(false), fallible_any(&mut range(4, 5), is_prime));
    assert_eq!(Err(()), fallible_any(&mut range(1, 4), is_prime));
    assert_eq!(Err(()), fallible_any(&mut range(1, 5), is_prime));
}

#[test]
fn test_ok_and_any() {
    let first_values: Vec<Item> = vec![];
    let second_values: Vec<Item> = vec![Ok(0), Err(())];
    let third_values: Vec<Item> = vec![Ok(1), Ok(3)];
    let fourth_values: Vec<Item> = vec![Err(()), Ok(0)];

    assert_eq!(Ok(false), ok_and_any(&mut results(first_values), is_even));
    assert_eq!(Ok(true), ok_and_any(&mut results(second_values), is_even));
    assert_eq!(Ok(false), ok_and_any(&mut results(third_values), is_even));
    assert_eq!(Err(()), ok_and_any(&mut results(fourth_values), is_even));
}

#[test]
fn what_is_behind_the_item_that_decides_is_left() {
    let mut items = range(2, 8);
    assert_eq!(Ok(false), fallible_all(&mut items, is_prime));
    assert_eq!(items, range(5, 8));

    let mut items = range(2, 8);
    let opposite = |i: usize| is_prime(i).map(|prime| !prime);
    assert_eq!(Ok(true), fallible_any(&mut items, opposite));
    assert_eq!(items, range(5, 8));

    let mut items = range(1, 4);
    assert_eq!(Err(()), fallible_any(&mut items, is_prime));
    assert_eq!(items, range(2, 4));

    let mut items = results(vec![Ok(1), Ok(2), Err(()), Ok(4)]);
    assert_eq!(Ok(true), ok_and_any(&mut items, is_even));
    assert_eq!(items, results(vec![Err(()), Ok(4)]));
    assert_eq!(Err(()), find_ok(&mut items, |i: &usize| is_even(*i)));
    assert_eq!(items, results(vec![Ok(4)]));
}

#[test]
fn a_filter_checks_no_more_than_it_is_asked_for() {
    let mut vals = fallible_filter(VecDeque::from(vec![4, 3, 0, 5, 2]), |i: &usize| is_prime(*i));
    assert_eq!(Some(Ok(3)), vals.next());
    assert_eq!(vals.items, VecDeque::from(vec![0, 5, 2]));
    assert_eq!(Some(Err(())), vals.next());
    assert_eq!(Some(Ok(2)), vals.next());
    assert_eq!(None, vals.next());

    let mut vals =
        and_then_filter(results(vec![Ok(4), Err(()), Ok(5), Ok(0), Ok(2)]), |i: &usize| is_prime(*i));
    assert_eq!(Some(Err(())), vals.next());
    assert_eq!(vals.items, results(vec![Ok(5), Ok(0), Ok(2)]));
    assert_eq!(Some(Err(())), vals.next());
    assert_eq!(Some(Ok(2)), vals.next());
    assert_eq!(None, vals.next());
}

#[test]
fn errors_stay_where_they_are() {
    let double = |i: usize| if i > 2 { Ok(i * 2) } else { Err(()) };
    let mut mapped = and_then(results(vec![Ok(4), Err(()), Ok(1)]), double);
    assert_eq!(Some(Ok(8)), mapped.next());
    assert_eq!(mapped.items, results(vec![Err(()), Ok(1)]));
    assert_eq!(mapped.collect(), vec![Err(()), Err(())]);
}

#[test]
fn the_first_match_is_found_before_an_error() {
    let even = |i: &usize| is_even(*i);
    assert_eq!(Ok(Some(2)), find_ok(&mut results(vec![Ok(1), Ok(2), Err(())]), even));
    assert_eq!(Err(()), find_ok(&mut results(vec![Ok(1), Err(()), Ok(2)]), even));
    assert_eq!(Ok(None), find_ok(&mut results(vec![Ok(1)]), even));
}

#[test]
fn a_fold_ends_with_the_first_error() {
    let sum = |total: usize, i: usize| if i == 9 { Err(total) } else { Ok(total + i) };
    assert_eq!(Ok(6), fallible_fold(&mut VecDeque::from(vec![1, 2, 3]), 0, sum));
    let mut items = VecDeque::from(vec![1, 2, 9, 4]);
    assert_eq!(Err(3), fallible_fold(&mut items, 0, sum));
    assert_eq!(items, VecDeque::from(vec![4]));
}
