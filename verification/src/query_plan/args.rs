//! The options of the command line that configure the planner.

use crate::query_plan::NonZeroU32;
use crate::query_plan::QueryPlannerConfig;
use crate::query_plan::QueryPlannerDebugConfig;
use crate::query_plan::QueryPlanIncrementalDeliveryConfig;
use vstd::prelude::*;

verus! {

/// The options of the command line that configure the planner.
#[derive(Clone, Copy, Debug)]
pub struct QueryPlannerArgs {
    /// Whether `@defer` splits a plan.
    pub enable_defer: bool,
    /// Whether what is sent to subgraphs is put into fragments.
    pub generate_fragments: bool,
    /// Whether what is fetched depends on the types of what was fetched before.
    pub type_conditioned_fetching: bool,
    /// Whether what is sent to subgraphs is validated; it is if nothing is said.
    pub subgraph_validation: Option<bool>,
    /// The largest number of plans that are compared.
    pub max_evaluated_plans: Option<NonZeroU32>,
    /// The largest number of ways to take for one path of the query.
    pub paths_limit: Option<u32>,
}

/// A configuration with the options of the command line.
pub open spec fn configured(args: QueryPlannerArgs, config: QueryPlannerConfig) -> QueryPlannerConfig {
    QueryPlannerConfig {
        generate_query_fragments: args.generate_fragments,
        subgraph_graphql_validation: match args.subgraph_validation {
            Some(validation) => validation,
            None => true,
        },
        incremental_delivery: QueryPlanIncrementalDeliveryConfig { enable_defer: args.enable_defer },
        debug: QueryPlannerDebugConfig {
            max_evaluated_plans: match args.max_evaluated_plans {
                Some(max) => max,
                None => config.debug.max_evaluated_plans,
            },
            paths_limit: args.paths_limit,
        },
        type_conditioned_fetching: args.type_conditioned_fetching,
    }
}

/// The configuration where nothing is said.
pub open spec fn default_config() -> QueryPlannerConfig {
    QueryPlannerConfig {
        generate_query_fragments: false,
        subgraph_graphql_validation: false,
        incremental_delivery: QueryPlanIncrementalDeliveryConfig { enable_defer: false },
        debug: QueryPlannerDebugConfig {
            max_evaluated_plans: NonZeroU32::default_limit(),
            paths_limit: None,
        },
        type_conditioned_fetching: false,
    }
}

impl QueryPlannerArgs {
    /// Puts the options into a configuration.
    pub fn apply(&self, config: &mut QueryPlannerConfig)
        ensures
            *final(config) == configured(*self, *old(config)),
    {
        config.incremental_delivery.enable_defer = self.enable_defer;
        config.generate_query_fragments = self.generate_fragments;
        config.type_conditioned_fetching = self.type_conditioned_fetching;
        config.subgraph_graphql_validation =
        match self.subgraph_validation {
            Some(validation) => validation,
            None => true,
        };
        if let Some(max_evaluated_plans) = self.max_evaluated_plans {
            config.debug.max_evaluated_plans = max_evaluated_plans;
        }
        config.debug.paths_limit = self.paths_limit;
    }
}

impl From<QueryPlannerArgs> for QueryPlannerConfig {
    fn from(value: QueryPlannerArgs) -> (r: Self) {
        let mut config = QueryPlannerConfig::default();
        value.apply(&mut config);
        config
    }
}

impl vstd::std_specs::convert::FromSpecImpl<QueryPlannerArgs> for QueryPlannerConfig {
    open spec fn obeys_from_spec() -> bool {
        true
    }

    open spec fn from_spec(value: QueryPlannerArgs) -> QueryPlannerConfig {
        configured(value, default_config())
    }
}

/// Putting options into a configuration twice is putting them in once.
pub proof fn law_options_apply_once(args: QueryPlannerArgs, config: QueryPlannerConfig)
    ensures
        configured(args, configured(args, config)) == configured(args, config),
{
}

/// Every option of the command line is in the configuration; where one is not given, what is sent to
/// subgraphs is validated, no limit is set on paths, and that on plans stays.
pub proof fn law_options_are_in_force(args: QueryPlannerArgs, config: QueryPlannerConfig)
    ensures
        ({
            let after = configured(args, config);
            &&& after.incremental_delivery.enable_defer == args.enable_defer
            &&& after.generate_query_fragments == args.generate_fragments
            &&& after.type_conditioned_fetching == args.type_conditioned_fetching
            &&& after.debug.paths_limit == args.paths_limit
            &&& args.subgraph_validation is None ==> after.subgraph_graphql_validation
            &&& args.subgraph_validation is Some ==> args.subgraph_validation == Some(
                after.subgraph_graphql_validation,
            )
            &&& args.max_evaluated_plans is None ==> after.debug.max_evaluated_plans
                == config.debug.max_evaluated_plans
            &&& args.max_evaluated_plans is Some ==> args.max_evaluated_plans == Some(
                after.debug.max_evaluated_plans,
            )
        }),
{
}

} // verus!
