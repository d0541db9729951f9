use apollo_federation::query_graph::condition_resolver::ConditionResolution;
use apollo_federation::query_graph::condition_resolver::ConditionResolutionCacheResult;
use apollo_federation::query_graph::condition_resolver::ConditionResolverCache;
use apollo_federation::query_graph::condition_resolver::ExcludedConditions;
use apollo_federation::query_graph::condition_resolver::ExcludedDestinations;
use apollo_federation::query_graph::elements::OpGraphPathContext;

#[test]
fn test_condition_resolver_cache() {
    let mut cache = ConditionResolverCache::new();

    let edge1: usize = 1;
    let empty_context = OpGraphPathContext::new();
    let empty_destinations = ExcludedDestinations::new();
    let empty_conditions = ExcludedConditions::new();

    assert!(cache
        .contains(edge1, &empty_context, &empty_destinations, &empty_conditions, None)
        .is_miss());

    cache.insert(
        edge1,
        ConditionResolution::unsatisfied_conditions(),
        empty_destinations.clone(),
    );

    assert!(cache
        .contains(edge1, &empty_context, &empty_destinations, &empty_conditions, None)
        .is_hit());

    let edge2: usize = 2;

    assert!(cache
        .contains(edge2, &empty_context, &empty_destinations, &empty_conditions, None)
        .is_miss());
}

#[test]
fn other_exclusions_are_neither_hit_nor_miss() {
    let mut cache = ConditionResolverCache::new();
    cache.insert(
        7,
        ConditionResolution::no_conditions(),
        ExcludedDestinations { names: vec!["A".to_owned(), "B".to_owned()] },
    );
    let context = OpGraphPathContext::new();
    let conditions = ExcludedConditions::new();
    let reordered = ExcludedDestinations { names: vec!["B".to_owned(), "A".to_owned()] };
    let found = cache.contains(7, &context, &reordered, &conditions, None);
    assert!(matches!(
        found,
        ConditionResolutionCacheResult::Hit(ConditionResolution::Satisfied { .. })
    ));
    let fewer = ExcludedDestinations { names: vec!["A".to_owned()] };
    let found = cache.contains(7, &context, &fewer, &conditions, None);
    assert!(!found.is_hit() && !found.is_miss());
}
