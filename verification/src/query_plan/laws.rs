//! What holds of every plan.

use crate::collections::Entries;
use crate::error::ErrorView;
use crate::operation::operations::reduced_operation;
use crate::operation::operations::OperationView;
use crate::operation::selection::SelectionSetView;
use crate::operation::trees::split_fields;
use crate::query_plan::compute::boxed;
use crate::query_plan::compute::plan_of_conditions;
use crate::query_plan::compute::plan_of_operation;
use crate::query_plan::compute::serial;
use crate::query_plan::compute::serial_graphs;
use crate::query_plan::dependency_graph::ParametersView;
use crate::query_plan::dependency_graph::PlanningProgress;
use crate::query_plan::dependency_graph::ProcessorView;
use crate::query_plan::planner::top_level;
use crate::query_plan::planning::PlanningModel;
use crate::query_plan::PlanView;
use crate::text::Text;
use vstd::prelude::*;

verus! {

proof fn lemma_serial_count(
    m: PlanningModel,
    p: ParametersView,
    has_defers: bool,
    sets: Seq<SelectionSetView>,
    progress: PlanningProgress,
    n: nat,
)
    requires
        n >= 1,
    ensures
        serial(m, p, has_defers, sets, progress, n) matches Ok(all) ==> all.done.len() < n,
    decreases n,
{
    if n > 1 {
        lemma_serial_count(m, p, has_defers, sets, progress, (n - 1) as nat);
    }
}

/// An operation whose fields are done one after the other fetches at least once, and at most once
/// for each field at the top.
pub proof fn law_serial_fetches_are_few(
    m: PlanningModel,
    p: ParametersView,
    has_defers: bool,
    progress: PlanningProgress,
)
    ensures
        serial_graphs(m, p, has_defers, progress) matches Ok((graphs, after)) ==> 1 <= graphs.len()
            <= split_fields(
            p.operation.selection_set,
            p.operation.selection_set.selections.len(),
        ).len(),
{
    let set = p.operation.selection_set;
    let sets = split_fields(set, set.selections.len());
    if sets.len() >= 1 {
        lemma_serial_count(m, p, has_defers, sets, progress, sets.len());
    }
}

/// A part of a plan out of its box.
pub open spec fn unboxed(node: Option<Box<PlanView>>) -> Option<PlanView> {
    match node {
        Some(inner) => Some(*inner),
        None => None,
    }
}

/// Whether every way through a plan asks for each variable once, from the condition `k` on, in
/// order.
pub open spec fn asks_for_all(node: Option<PlanView>, conditions: Entries<Seq<Text>>, k: nat) -> bool
    decreases conditions.len() - k,
{
    k >= conditions.len() || match node {
        Some(PlanView::Condition { condition_variable, if_clause, else_clause }) => {
            &&& condition_variable == conditions[k as int].0
            &&& asks_for_all(unboxed(if_clause), conditions, k + 1)
            &&& asks_for_all(unboxed(else_clause), conditions, k + 1)
        },
        _ => false,
    }
}

/// The plan of an operation some of whose `@defer` depend on variables asks for each of them once,
/// on every way and in their order.
pub proof fn law_every_condition_is_asked_for(
    m: PlanningModel,
    p: ParametersView,
    processor: ProcessorView,
    conditions: Entries<Seq<Text>>,
    progress: PlanningProgress,
    k: nat,
)
    ensures
        plan_of_conditions(m, p, processor, conditions, progress, k) matches Ok(planned)
            ==> asks_for_all(planned.node, conditions, k),
    decreases conditions.len() - k,
{
    if k < conditions.len() {
        match reduced_operation(
            p.operation,
            conditions[k as int].1,
        ) {
            Err(_) => {},
            Ok(operation) => {
                law_every_condition_is_asked_for(m, p, processor, conditions, progress, k + 1);
                match plan_of_conditions(m, p, processor, conditions, progress, k + 1) {
                    Err(_) => {},
                    Ok(yes) => {
                        let q = ParametersView { operation, ..p };
                        law_every_condition_is_asked_for(
                            m,
                            q,
                            yes.processor,
                            conditions,
                            yes.progress,
                            k + 1,
                        );
                        match plan_of_conditions(
                            m,
                            q,
                            yes.processor,
                            conditions,
                            yes.progress,
                            k + 1,
                        ) {
                            Err(_) => {},
                            Ok(no) => {
                                assert(unboxed(boxed(yes.node)) == yes.node);
                                assert(unboxed(boxed(no.node)) == no.node);
                            },
                        }
                    },
                }
            },
        }
    }
}

/// The plan that is left once the values of the variables are known, which the first `n` conditions
/// ask for.
pub open spec fn decided(node: Option<PlanView>, holds: spec_fn(Text) -> bool, n: nat) -> Option<
    PlanView,
>
    decreases n,
{
    if n == 0 {
        node
    } else {
        match node {
            Some(PlanView::Condition { condition_variable, if_clause, else_clause }) => decided(
                if holds(condition_variable) {
                    unboxed(if_clause)
                } else {
                    unboxed(else_clause)
                },
                holds,
                (n - 1) as nat,
            ),
            _ => node,
        }
    }
}

/// An operation without the `@defer` that do not hold, from the condition `k` on.
pub open spec fn without_those_that_fail(
    operation: OperationView,
    conditions: Entries<Seq<Text>>,
    holds: spec_fn(Text) -> bool,
    k: nat,
) -> Result<OperationView, ErrorView>
    decreases conditions.len() - k,
{
    if k >= conditions.len() {
        Ok(operation)
    } else if holds(conditions[k as int].0) {
        without_those_that_fail(operation, conditions, holds, k + 1)
    } else {
        match reduced_operation(operation, conditions[k as int].1) {
            Err(error) => Err(error),
            Ok(reduced) => without_those_that_fail(reduced, conditions, holds, k + 1),
        }
    }
}

/// Whether a plan is one of an operation.
pub open spec fn is_plan_of(
    m: PlanningModel,
    p: ParametersView,
    operation: OperationView,
    node: Option<PlanView>,
) -> bool {
    exists|processor: ProcessorView, progress: PlanningProgress|
        #[trigger] plan_of_operation(
            m,
            ParametersView { operation, ..p },
            processor,
            true,
            progress,
        ) matches Ok(planned) && planned.node == node
}

/// Whatever the values of the variables, what is left of a plan with conditions is the plan of the
/// operation without the `@defer` whose conditions do not hold, and with all the others.
pub proof fn law_conditions_decide_what_is_deferred(
    m: PlanningModel,
    p: ParametersView,
    processor: ProcessorView,
    conditions: Entries<Seq<Text>>,
    progress: PlanningProgress,
    k: nat,
    holds: spec_fn(Text) -> bool,
)
    requires
        k <= conditions.len(),
    ensures
        plan_of_conditions(m, p, processor, conditions, progress, k) matches Ok(planned) ==> (
        without_those_that_fail(p.operation, conditions, holds, k) matches Ok(operation)
            && is_plan_of(
            m,
            p,
            operation,
            decided(planned.node, holds, (conditions.len() - k) as nat),
        )),
    decreases conditions.len() - k,
{
    match plan_of_conditions(m, p, processor, conditions, progress, k) {
        Err(_) => {},
        Ok(planned) => {
            if k >= conditions.len() {
                assert(ParametersView { operation: p.operation, ..p } == p);
                assert(is_plan_of(m, p, p.operation, planned.node));
            } else {
                let operation = reduced_operation(p.operation, conditions[k as int].1)->Ok_0;
                let yes = plan_of_conditions(m, p, processor, conditions, progress, k + 1)->Ok_0;
                let q = ParametersView { operation, ..p };
                let no = plan_of_conditions(
                    m,
                    q,
                    yes.processor,
                    conditions,
                    yes.progress,
                    k + 1,
                )->Ok_0;
                assert(unboxed(boxed(yes.node)) == yes.node);
                assert(unboxed(boxed(no.node)) == no.node);
                if holds(conditions[k as int].0) {
                    law_conditions_decide_what_is_deferred(
                        m,
                        p,
                        processor,
                        conditions,
                        progress,
                        k + 1,
                        holds,
                    );
                } else {
                    law_conditions_decide_what_is_deferred(
                        m,
                        q,
                        yes.processor,
                        conditions,
                        yes.progress,
                        k + 1,
                        holds,
                    );
                    let rest = without_those_that_fail(operation, conditions, holds, k + 1)->Ok_0;
                    assert(ParametersView { operation: rest, ..q } == ParametersView {
                        operation: rest,
                        ..p
                    });
                    let left = decided(no.node, holds, (conditions.len() - k - 1) as nat);
                    assert(is_plan_of(m, q, rest, left));
                    let (other, count) = choose|other: ProcessorView, count: PlanningProgress|
                        #[trigger] plan_of_operation(
                            m,
                            ParametersView { operation: rest, ..q },
                            other,
                            true,
                            count,
                        ) matches Ok(found) && found.node == left;
                    assert(plan_of_operation(
                        m,
                        ParametersView { operation: rest, ..p },
                        other,
                        true,
                        count,
                    ) matches Ok(found) && found.node == left);
                    assert(is_plan_of(m, p, rest, left));
                }
            }
        },
    }
}

/// The plan of a subscription, if it has one, subscribes; no other plan does.
pub proof fn law_subscriptions_subscribe(node: Option<PlanView>, is_subscription: bool)
    ensures
        top_level(node, is_subscription) matches Ok(Some(top)) ==> (top is Subscription)
            == is_subscription,
        top_level(node, is_subscription) matches Ok(None) ==> node is None,
{
}

} // verus!
