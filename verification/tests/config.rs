use apollo_federation::query_graph::condition_resolver::QueryPlanCost;
use apollo_federation::query_plan::args::QueryPlannerArgs;
use apollo_federation::query_plan::NonZeroU32;
use apollo_federation::query_plan::QueryPlan;
use apollo_federation::query_plan::QueryPlanOptions;
use apollo_federation::query_plan::QueryPlannerConfig;
use apollo_federation::query_plan::QueryPlannerDebugConfig;
use apollo_federation::query_plan::QueryPlanningStatistics;
use std::ops::ControlFlow;

fn cost(value: f64) -> QueryPlanCost {
    QueryPlanCost { bits: value.to_bits() }
}

#[test]
fn defaults_are_as_documented() {
    let config = QueryPlannerConfig::default();
    assert!(!config.generate_query_fragments);
    assert!(!config.subgraph_graphql_validation);
    assert!(!config.incremental_delivery.enable_defer);
    assert!(!config.type_conditioned_fetching);
    assert_eq!(config.debug.max_evaluated_plans.get(), 10_000);
    assert_eq!(QueryPlannerDebugConfig::default().paths_limit, None);
    let options: QueryPlanOptions<fn() -> ControlFlow<()>> = QueryPlanOptions::default();
    assert!(options.non_local_selections_limit_enabled);
    assert!(options.override_conditions.is_empty());
    assert!(options.disabled_subgraph_names.is_empty());
    assert!(options.check_for_cooperative_cancellation.is_none());
    let plan = QueryPlan::default();
    assert!(plan.node.is_none());
    assert_eq!(plan.statistics, QueryPlanningStatistics::default());
    assert_eq!(plan.statistics.best_plan_cost, cost(0.0));
}

#[test]
fn a_limit_is_not_zero() {
    assert!(NonZeroU32::new(0).is_none());
    assert_eq!(NonZeroU32::new(7).map(NonZeroU32::get), Some(7));
}

#[test]
fn options_of_the_command_line_are_applied() {
    let args = QueryPlannerArgs {
        enable_defer: true,
        generate_fragments: true,
        type_conditioned_fetching: false,
        subgraph_validation: None,
        max_evaluated_plans: NonZeroU32::new(3),
        paths_limit: Some(5),
    };
    let config = QueryPlannerConfig::from(args);
    assert!(config.incremental_delivery.enable_defer);
    assert!(config.generate_query_fragments);
    assert!(!config.type_conditioned_fetching);
    assert!(config.subgraph_graphql_validation);
    assert_eq!(config.debug.max_evaluated_plans.get(), 3);
    assert_eq!(config.debug.paths_limit, Some(5));
    let mut again = config;
    let silent = QueryPlannerArgs {
        subgraph_validation: Some(false),
        max_evaluated_plans: None,
        paths_limit: None,
        ..args
    };
    silent.apply(&mut again);
    assert!(!again.subgraph_graphql_validation);
    assert_eq!(again.debug.max_evaluated_plans.get(), 3);
    assert_eq!(again.debug.paths_limit, None);
}

#[test]
fn the_larger_cost_is_that_of_floating_point_numbers() {
    let numbers = [0.0, -0.0, 1.5, -1.5, 1e300, -1e300, 3.0, f64::INFINITY, f64::NEG_INFINITY];
    for a in numbers {
        for b in numbers {
            let larger = f64::from_bits(cost(a).max(cost(b)).bits);
            assert_eq!(larger, a.max(b));
        }
        assert_eq!(cost(a).max(cost(f64::NAN)), cost(a));
        assert_eq!(cost(f64::NAN).max(cost(a)), cost(a));
    }
    assert!(f64::from_bits(cost(f64::NAN).max(cost(f64::NAN)).bits).is_nan());
}
