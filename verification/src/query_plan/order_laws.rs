//! In which order a plan does its parts.

use crate::collections::lemma_value_of_put;
use crate::collections::value_of;
use crate::error::ErrorView;
use crate::operation::selection::SelectionSetView;
use crate::operation::selection::SelectionView;
use crate::operation::trees::in_fragment;
use crate::operation::trees::split_fields;
use crate::operation::trees::split_selection;
use crate::query_graph::SchemaRootDefinitionKind;
use crate::query_plan::compute::best_plan;
use crate::query_plan::compute::plan_of_operation;
use crate::query_plan::compute::processed;
use crate::query_plan::compute::root_subgraph;
use crate::query_plan::compute::root_type_for_defer;
use crate::query_plan::compute::serial;
use crate::query_plan::compute::serial_graphs;
use crate::query_plan::compute::with_childs;
use crate::query_plan::compute::Serial;
use crate::query_plan::dependency_graph::new_graph;
use crate::query_plan::dependency_graph::with_root_node;
use crate::query_plan::dependency_graph::BestPlanView;
use crate::query_plan::dependency_graph::DependencyGraphView;
use crate::query_plan::dependency_graph::ParametersView;
use crate::query_plan::dependency_graph::PlanningProgress;
use crate::query_plan::dependency_graph::ProcessorView;
use crate::query_plan::dependency_graph::TreeChildView;
use crate::query_plan::planning::PlanningModel;
use crate::query_plan::single_subgraph::single_subgraph_planning;
use crate::query_plan::DeferredView;
use crate::query_plan::PlanView;
use crate::schema::position::CompositeView;
use crate::text::Text;
use vstd::prelude::*;

verus! {

// Steps.

/// What a plan does one after the other: the parts of a sequence, and of the sequences in it.
pub open spec fn steps_of_node(node: PlanView) -> Seq<PlanView>
    decreases node, 0nat,
{
    match node {
        PlanView::Sequence(nodes) => steps_of_nodes(nodes, nodes.len()),
        _ => seq![node],
    }
}

/// What the first `n` of some plans do one after the other.
pub open spec fn steps_of_nodes(nodes: Seq<PlanView>, n: nat) -> Seq<PlanView>
    decreases nodes, n,
{
    if n == 0 || n > nodes.len() {
        Seq::empty()
    } else {
        steps_of_nodes(nodes, (n - 1) as nat) + steps_of_node(nodes[n - 1])
    }
}

/// What a plan does one after the other. No plan does nothing.
pub open spec fn steps_of(node: Option<PlanView>) -> Seq<PlanView> {
    match node {
        Some(node) => steps_of_node(node),
        None => Seq::empty(),
    }
}

/// Whether to sequence two plans is to do the first one and then the second one.
pub open spec fn sequences_in_order(m: PlanningModel) -> bool {
    forall|processor: ProcessorView, first: Option<PlanView>, second: Option<PlanView>|
        steps_of(#[trigger] (m.reduce_sequence)(processor, first, second)) == steps_of(first)
            + steps_of(second)
}

/// Planning with one subgraph sequences two plans in their order.
pub proof fn law_one_subgraph_sequences_in_order()
    ensures
        sequences_in_order(single_subgraph_planning()),
{
    let m = single_subgraph_planning();
    assert forall|processor: ProcessorView, first: Option<PlanView>, second: Option<PlanView>|
        steps_of(#[trigger] (m.reduce_sequence)(processor, first, second)) == steps_of(first)
            + steps_of(second) by {
        match (first, second) {
            (Some(a), Some(b)) => {
                let both = seq![a, b];
                assert(steps_of_nodes(both, 0) =~= Seq::empty());
                assert(steps_of_nodes(both, 1) =~= steps_of_node(a));
                assert(steps_of_nodes(both, 2) =~= steps_of_node(a) + steps_of_node(b));
            },
            (Some(a), None) => {
                assert(steps_of(first) + steps_of(second) =~= steps_of(first));
            },
            (None, _) => {
                assert(steps_of(first) + steps_of(second) =~= steps_of(second));
            },
        }
    }
}

// Graphs.

/// Whether some graphs are processed one after the other: each to a plan and to what it defers,
/// by the processor that the one before it left.
pub open spec fn are_processed(
    m: PlanningModel,
    graphs: Seq<DependencyGraphView>,
    kind: SchemaRootDefinitionKind,
    processors: Seq<ProcessorView>,
    nodes: Seq<Option<PlanView>>,
    deferred: Seq<Seq<DeferredView>>,
) -> bool {
    &&& processors.len() == graphs.len() + 1
    &&& nodes.len() == graphs.len()
    &&& deferred.len() == graphs.len()
    &&& forall|i: int|
        0 <= i < graphs.len() ==> ((m.process)(#[trigger] graphs[i], processors[i], kind) matches Ok(
            (node, late, _, after),
        ) && node == nodes[i] && late == deferred[i] && after == processors[i + 1])
}

/// The steps of some plans, one plan after the other.
pub open spec fn steps_in_order(nodes: Seq<Option<PlanView>>) -> Seq<PlanView> {
    nodes.map_values(|node: Option<PlanView>| steps_of(node)).flatten_alt()
}

/// Whether a plan does what some graphs are processed to in the order of the graphs, and defers
/// what they defer in that order.
pub open spec fn is_done_in_order(
    m: PlanningModel,
    graphs: Seq<DependencyGraphView>,
    kind: SchemaRootDefinitionKind,
    processor: ProcessorView,
    main: Option<PlanView>,
    late: Seq<DeferredView>,
    last: ProcessorView,
) -> bool {
    exists|
        processors: Seq<ProcessorView>,
        nodes: Seq<Option<PlanView>>,
        deferred: Seq<Seq<DeferredView>>,
    |
        {
            &&& #[trigger] are_processed(m, graphs, kind, processors, nodes, deferred)
            &&& processors.first() == processor
            &&& processors.last() == last
            &&& steps_of(main) == steps_in_order(nodes)
            &&& late == deferred.flatten_alt()
        }
}

proof fn lemma_done_in_order(
    m: PlanningModel,
    graphs: Seq<DependencyGraphView>,
    kind: SchemaRootDefinitionKind,
    processor: ProcessorView,
    n: nat,
)
    requires
        sequences_in_order(m),
        n <= graphs.len(),
    ensures
        processed(m, graphs, kind, processor, n) matches Ok(made) ==> is_done_in_order(
            m,
            graphs.take(n as int),
            kind,
            processor,
            made.main,
            made.deferred,
            made.processor,
        ),
    decreases n,
{
    match processed(m, graphs, kind, processor, n) {
        Err(_) => {},
        Ok(made) => {
            if n == 0 {
                let none = Seq::<Option<PlanView>>::empty();
                assert(none.map_values(|node: Option<PlanView>| steps_of(node)) =~= Seq::empty());
                assert(are_processed(
                    m,
                    graphs.take(0),
                    kind,
                    seq![processor],
                    none,
                    Seq::empty(),
                ));
                assert(seq![processor].first() == processor && seq![processor].last() == processor);
            } else {
                lemma_done_in_order(m, graphs, kind, processor, (n - 1) as nat);
                let before = processed(m, graphs, kind, processor, (n - 1) as nat)->Ok_0;
                let some = graphs.take(n - 1);
                let (processors, nodes, deferred) = choose|
                    processors: Seq<ProcessorView>,
                    nodes: Seq<Option<PlanView>>,
                    deferred: Seq<Seq<DeferredView>>,
                |
                    {
                        &&& #[trigger] are_processed(m, some, kind, processors, nodes, deferred)
                        &&& processors.first() == processor
                        &&& processors.last() == before.processor
                        &&& steps_of(before.main) == steps_in_order(nodes)
                        &&& before.deferred == deferred.flatten_alt()
                    };
                let (node, late, _, after) = (m.process)(graphs[n - 1], before.processor, kind)->Ok_0;
                let all = graphs.take(n as int);
                let nodes1 = nodes.push(node);
                let deferred1 = deferred.push(late);
                let processors1 = processors.push(after);
                assert forall|i: int| 0 <= i < all.len() implies ((m.process)(
                    #[trigger] all[i],
                    processors1[i],
                    kind,
                ) matches Ok((node, late, _, after)) && node == nodes1[i] && late == deferred1[i]
                    && after == processors1[i + 1]) by {
                    if i < n - 1 {
                        assert(all[i] == some[i]);
                    }
                }
                assert(are_processed(m, all, kind, processors1, nodes1, deferred1));
                let steps = |node: Option<PlanView>| steps_of(node);
                assert(nodes1.map_values(steps).drop_last() =~= nodes.map_values(steps));
                assert(deferred1.drop_last() =~= deferred);
                assert(steps_in_order(nodes1) == steps_in_order(nodes) + steps_of(node));
                if before.main is None {
                    assert(steps_of(made.main) =~= steps_of(before.main) + steps_of(node));
                }
                assert(processors1.first() == processor);
            }
        },
    }
}

/// If some graphs are processed to plans, and sequencing two plans puts the first before the
/// second, the plan of the graphs does these plans in the order of the graphs, and nothing else;
/// what is deferred stands in that order as well.
pub proof fn law_graphs_are_done_in_order(
    m: PlanningModel,
    graphs: Seq<DependencyGraphView>,
    kind: SchemaRootDefinitionKind,
    processor: ProcessorView,
)
    requires
        sequences_in_order(m),
    ensures
        processed(m, graphs, kind, processor, graphs.len()) matches Ok(made) ==> is_done_in_order(
            m,
            graphs,
            kind,
            processor,
            made.main,
            made.deferred,
            made.processor,
        ),
{
    lemma_done_in_order(m, graphs, kind, processor, graphs.len());
    assert(graphs.take(graphs.len() as int) =~= graphs);
}

/// In the plan of a mutation, what is fetched for the fields at the top stands in the order of
/// the fields: the plan does what the graphs of the fields are processed to, one after the other.
/// If something is deferred, that is what is done first.
pub proof fn law_mutations_are_done_in_order(
    m: PlanningModel,
    p: ParametersView,
    processor: ProcessorView,
    has_defers: bool,
    progress: PlanningProgress,
)
    requires
        sequences_in_order(m),
        p.operation.root_kind == SchemaRootDefinitionKind::Mutation,
    ensures
        plan_of_operation(m, p, processor, has_defers, progress) matches Ok(planned) ==> (
        serial_graphs(m, p, has_defers, progress) matches Ok((graphs, _)) && exists|
            main: Option<PlanView>,
            late: Seq<DeferredView>,
        |
            {
                &&& #[trigger] is_done_in_order(
                    m,
                    graphs,
                    SchemaRootDefinitionKind::Mutation,
                    processor,
                    main,
                    late,
                    planned.processor,
                )
                &&& late.len() == 0 ==> planned.node == main
                &&& late.len() > 0 ==> exists|primary: SelectionSetView|
                    #[trigger] (m.reduce_defer)(planned.processor, main, primary, late) == Ok::<
                        Option<PlanView>,
                        ErrorView,
                    >(planned.node)
            }),
{
    let kind = SchemaRootDefinitionKind::Mutation;
    match plan_of_operation(m, p, processor, has_defers, progress) {
        Err(_) => {},
        Ok(planned) => {
            let graphs = (serial_graphs(m, p, has_defers, progress)->Ok_0).0;
            law_graphs_are_done_in_order(m, graphs, kind, processor);
            let made = processed(m, graphs, kind, processor, graphs.len())->Ok_0;
            assert(is_done_in_order(
                m,
                graphs,
                kind,
                processor,
                made.main,
                made.deferred,
                planned.processor,
            ));
            if made.deferred.len() > 0 {
                let primary = made.primary_selection->0;
                assert((m.reduce_defer)(planned.processor, made.main, primary, made.deferred)
                    == Ok::<Option<PlanView>, ErrorView>(planned.node));
            }
        },
    }
}

/// The plan of a query or a subscription is what the graph of the best plan is processed to, with
/// the cost of that plan. If something is deferred, it is done after that.
pub proof fn law_the_best_plan_is_done(
    m: PlanningModel,
    p: ParametersView,
    processor: ProcessorView,
    has_defers: bool,
    progress: PlanningProgress,
)
    requires
        p.operation.root_kind != SchemaRootDefinitionKind::Mutation,
    ensures
        plan_of_operation(m, p, processor, has_defers, progress) matches Ok(planned) ==> (best_plan(
            m,
            p,
            p.operation.selection_set,
            has_defers,
            progress,
        ) matches Ok((plan, after)) && planned.cost == plan.cost && planned.progress == after && ((
        m.process)(
            plan.fetch_dependency_graph,
            processor,
            p.operation.root_kind,
        ) matches Ok((node, late, graph, last)) && planned.processor == last && (late.len() == 0
            ==> planned.node == node) && (late.len() > 0 ==> (graph.primary_selection matches Some(
            primary,
        ) && (m.reduce_defer)(last, node, primary, late) == Ok::<Option<PlanView>, ErrorView>(
            planned.node,
        ))))),
{
    let kind = p.operation.root_kind;
    match plan_of_operation(m, p, processor, has_defers, progress) {
        Err(_) => {},
        Ok(planned) => {
            let (plan, _) = best_plan(
                m,
                p,
                p.operation.selection_set,
                has_defers,
                progress,
            )->Ok_0;
            let graphs = seq![plan.fetch_dependency_graph];
            reveal_with_fuel(processed, 2);
            let made = processed(m, graphs, kind, processor, 1)->Ok_0;
            let (node, late, _, _) = (m.process)(
                plan.fetch_dependency_graph,
                processor,
                kind,
            )->Ok_0;
            assert(graphs[0] == plan.fetch_dependency_graph);
            assert(made.deferred =~= late);
        },
    }
}

// The fields of a mutation.

/// The fields that the first `n` selections of a set select at the top, in fragments or not, in
/// the order in which they stand.
pub open spec fn top_fields(set: SelectionSetView, n: nat) -> Seq<SelectionView>
    decreases set, n,
{
    if n == 0 || n > set.selections.len() {
        Seq::empty()
    } else {
        top_fields(set, (n - 1) as nat) + match set.selections[n - 1] {
            SelectionView::Field { field, sub } => seq![set.selections[n - 1]],
            SelectionView::InlineFragment { fragment, set: inner } => top_fields(
                inner,
                inner.selections.len(),
            ),
        }
    }
}

/// The field that a set with one field selects.
pub open spec fn only_field(set: SelectionSetView) -> Seq<SelectionView> {
    top_fields(set, set.selections.len())
}

proof fn lemma_split_in_order(set: SelectionSetView, n: nat, i: int)
    requires
        n <= set.selections.len(),
    ensures
        split_fields(set, n).len() == top_fields(set, n).len(),
        0 <= i < split_fields(set, n).len() ==> only_field(split_fields(set, n)[i]) == seq![
            top_fields(set, n)[i],
        ],
    decreases set, n,
{
    if n > 0 {
        let before = split_fields(set, (n - 1) as nat);
        lemma_split_in_order(set, (n - 1) as nat, i);
        let selection = set.selections[n - 1];
        match selection {
            SelectionView::Field { field, sub } => {
                let one = split_selection(selection, set.type_position)[0];
                assert(one.selections =~= seq![selection]);
                reveal_with_fuel(top_fields, 3);
                assert(top_fields(one, 1) =~= seq![selection]);
            },
            SelectionView::InlineFragment { fragment, set: inner } => {
                let k = i - before.len();
                let all = split_fields(inner, inner.selections.len());
                lemma_split_in_order(inner, inner.selections.len(), k);
                if 0 <= k < all.len() {
                    let wrapped = in_fragment(fragment, all)[k];
                    assert(split_fields(set, n)[i] == wrapped);
                    assert(wrapped.selections =~= seq![
                        SelectionView::InlineFragment { fragment, set: all[k] },
                    ]);
                    reveal_with_fuel(top_fields, 2);
                    assert(top_fields(wrapped, 0) =~= Seq::empty());
                    assert(top_fields(wrapped, 1) =~= only_field(all[k]));
                }
            },
        }
    }
}

/// A set is split into one set for each field at the top, in the order of the fields.
pub proof fn law_fields_are_split_in_order(set: SelectionSetView)
    ensures
        ({
            let sets = split_fields(set, set.selections.len());
            let fields = top_fields(set, set.selections.len());
            &&& sets.len() == fields.len()
            &&& forall|i: int| 0 <= i < sets.len() ==> only_field(#[trigger] sets[i]) == seq![fields[i]]
        }),
{
    let sets = split_fields(set, set.selections.len());
    let fields = top_fields(set, set.selections.len());
    lemma_split_in_order(set, set.selections.len(), 0);
    assert forall|i: int| 0 <= i < sets.len() implies only_field(#[trigger] sets[i]) == seq![
        fields[i],
    ] by {
        lemma_split_in_order(set, set.selections.len(), i);
    }
}

/// Whether the best plans of some sets are found one after the other.
pub open spec fn are_planned(
    m: PlanningModel,
    p: ParametersView,
    has_defers: bool,
    sets: Seq<SelectionSetView>,
    progress: Seq<PlanningProgress>,
    plans: Seq<BestPlanView>,
) -> bool {
    &&& plans.len() == sets.len()
    &&& progress.len() == sets.len() + 1
    &&& forall|i: int|
        0 <= i < sets.len() ==> best_plan(m, p, #[trigger] sets[i], has_defers, progress[i]) == Ok::<
            (BestPlanView, PlanningProgress),
            ErrorView,
        >((plans[i], progress[i + 1]))
}

/// The branches of the trees of some plans, one plan after the other.
pub open spec fn branches(plans: Seq<BestPlanView>) -> Seq<TreeChildView> {
    plans.map_values(|plan: BestPlanView| plan.path_tree.childs).flatten_alt()
}

/// Whether a plan starts at a subgraph.
pub open spec fn starts_at(m: PlanningModel, plan: BestPlanView, subgraph: Seq<char>) -> bool {
    root_subgraph(m, plan.fetch_dependency_graph) == Ok::<Seq<char>, ErrorView>(subgraph)
}

/// Whether a graph fetches what some plans fetch that start at one subgraph: it is the graph of
/// the only plan, or made of the branches of all, in their order.
pub open spec fn fetches_together(
    m: PlanningModel,
    p: ParametersView,
    has_defers: bool,
    plans: Seq<BestPlanView>,
    subgraph: Seq<char>,
    graph: DependencyGraphView,
) -> bool {
    &&& plans.len() > 0
    &&& forall|i: int| 0 <= i < plans.len() ==> starts_at(m, #[trigger] plans[i], subgraph)
    &&& plans.len() == 1 ==> graph == plans[0].fetch_dependency_graph
    &&& plans.len() > 1 ==> with_childs(
        m,
        p.federated_query_graph,
        p.supergraph_schema,
        p.operation.root_kind,
        p.config.type_conditioned_fetching,
        new_graph(
            p.supergraph_schema,
            root_type_for_defer(p.supergraph_schema, p.operation.root_kind, has_defers),
        ),
        branches(plans),
        branches(plans).len(),
    ) == Ok::<DependencyGraphView, ErrorView>(graph)
}

/// Whether graphs fetch what some plans fetch, in their order: the plans from `starts[b]` up to
/// `starts[b + 1]` are fetched by the graph `b`, and a new graph begins exactly where the subgraph
/// changes.
pub open spec fn fetch_in_order(
    m: PlanningModel,
    p: ParametersView,
    has_defers: bool,
    plans: Seq<BestPlanView>,
    graphs: Seq<DependencyGraphView>,
    starts: Seq<int>,
    subgraphs: Seq<Seq<char>>,
) -> bool {
    &&& starts.len() == graphs.len() + 1
    &&& subgraphs.len() == graphs.len()
    &&& starts.first() == 0
    &&& starts.last() == plans.len()
    &&& forall|b: int|
        0 <= b < graphs.len() ==> {
            &&& 0 <= #[trigger] starts[b] < starts[b + 1] <= plans.len()
            &&& fetches_together(
                m,
                p,
                has_defers,
                plans.subrange(starts[b], starts[b + 1]),
                subgraphs[b],
                graphs[b],
            )
        }
    &&& forall|b: int| 0 < b < graphs.len() ==> #[trigger] subgraphs[b] != subgraphs[b - 1]
}

proof fn lemma_branches(plans: Seq<BestPlanView>, plan: BestPlanView)
    ensures
        branches(plans.push(plan)) == branches(plans) + plan.path_tree.childs,
{
    let childs = |plan: BestPlanView| plan.path_tree.childs;
    assert(plans.push(plan).map_values(childs).drop_last() =~= plans.map_values(childs));
}

proof fn lemma_one_plan(plan: BestPlanView)
    ensures
        branches(seq![plan]) == plan.path_tree.childs,
{
    lemma_branches(Seq::empty(), plan);
    assert(Seq::<BestPlanView>::empty().push(plan) =~= seq![plan]);
    assert(branches(Seq::empty()) =~= Seq::empty());
    assert(branches(Seq::empty()) + plan.path_tree.childs =~= plan.path_tree.childs);
}

proof fn lemma_planned(
    m: PlanningModel,
    p: ParametersView,
    has_defers: bool,
    sets: Seq<SelectionSetView>,
    progress: Seq<PlanningProgress>,
    plans: Seq<BestPlanView>,
    set: SelectionSetView,
    plan: BestPlanView,
    after: PlanningProgress,
)
    requires
        are_planned(m, p, has_defers, sets, progress, plans),
        best_plan(m, p, set, has_defers, progress.last()) == Ok::<
            (BestPlanView, PlanningProgress),
            ErrorView,
        >((plan, after)),
    ensures
        are_planned(m, p, has_defers, sets.push(set), progress.push(after), plans.push(plan)),
{
    let now = sets.push(set);
    let made = progress.push(after);
    let found = plans.push(plan);
    assert forall|i: int| 0 <= i < now.len() implies best_plan(
        m,
        p,
        #[trigger] now[i],
        has_defers,
        made[i],
    ) == Ok::<(BestPlanView, PlanningProgress), ErrorView>((found[i], made[i + 1])) by {
        if i < sets.len() {
            assert(now[i] == sets[i]);
        }
    }
}

proof fn lemma_part_stays(plans: Seq<BestPlanView>, plan: BestPlanView, from: int, to: int)
    requires
        0 <= from <= to <= plans.len(),
    ensures
        plans.push(plan).subrange(from, to) == plans.subrange(from, to),
{
    assert(plans.push(plan).subrange(from, to) =~= plans.subrange(from, to));
}

proof fn lemma_last_fetch_grows(
    m: PlanningModel,
    p: ParametersView,
    has_defers: bool,
    plans: Seq<BestPlanView>,
    done: Seq<DependencyGraphView>,
    last: DependencyGraphView,
    starts: Seq<int>,
    subgraphs: Seq<Seq<char>>,
    plan: BestPlanView,
    graph: DependencyGraphView,
)
    requires
        fetch_in_order(m, p, has_defers, plans, done.push(last), starts, subgraphs),
        fetches_together(
            m,
            p,
            has_defers,
            plans.push(plan).subrange(starts[done.len() as int], plans.len() as int + 1),
            subgraphs.last(),
            graph,
        ),
    ensures
        fetch_in_order(
            m,
            p,
            has_defers,
            plans.push(plan),
            done.push(graph),
            starts.update(done.len() as int + 1, plans.len() as int + 1),
            subgraphs,
        ),
{
    let before = done.push(last);
    let graphs = done.push(graph);
    let now = plans.push(plan);
    let moved = starts.update(done.len() as int + 1, plans.len() as int + 1);
    assert(starts[done.len() as int] < starts[done.len() as int + 1]);
    assert forall|b: int| 0 <= b < graphs.len() implies {
        &&& 0 <= #[trigger] moved[b] < moved[b + 1] <= now.len()
        &&& fetches_together(
            m,
            p,
            has_defers,
            now.subrange(moved[b], moved[b + 1]),
            subgraphs[b],
            graphs[b],
        )
    } by {
        assert(0 <= starts[b] < starts[b + 1] <= plans.len());
        if b < done.len() {
            lemma_part_stays(plans, plan, starts[b], starts[b + 1]);
            assert(graphs[b] == before[b]);
        }
    }
}

proof fn lemma_next_fetch_begins(
    m: PlanningModel,
    p: ParametersView,
    has_defers: bool,
    plans: Seq<BestPlanView>,
    graphs: Seq<DependencyGraphView>,
    starts: Seq<int>,
    subgraphs: Seq<Seq<char>>,
    plan: BestPlanView,
    graph: DependencyGraphView,
    subgraph: Seq<char>,
)
    requires
        fetch_in_order(m, p, has_defers, plans, graphs, starts, subgraphs),
        fetches_together(m, p, has_defers, seq![plan], subgraph, graph),
        graphs.len() > 0,
        subgraph != subgraphs.last(),
    ensures
        fetch_in_order(
            m,
            p,
            has_defers,
            plans.push(plan),
            graphs.push(graph),
            starts.push(plans.len() as int + 1),
            subgraphs.push(subgraph),
        ),
{
    let all = graphs.push(graph);
    let now = plans.push(plan);
    let longer = starts.push(plans.len() as int + 1);
    let more = subgraphs.push(subgraph);
    assert(now.subrange(plans.len() as int, plans.len() as int + 1) =~= seq![plan]);
    assert forall|b: int| 0 <= b < all.len() implies {
        &&& 0 <= #[trigger] longer[b] < longer[b + 1] <= now.len()
        &&& fetches_together(
            m,
            p,
            has_defers,
            now.subrange(longer[b], longer[b + 1]),
            more[b],
            all[b],
        )
    } by {
        if b < graphs.len() {
            assert(0 <= starts[b] < starts[b + 1] <= plans.len());
            lemma_part_stays(plans, plan, starts[b], starts[b + 1]);
            assert(all[b] == graphs[b]);
        }
    }
    assert forall|b: int| 0 < b < all.len() implies #[trigger] more[b] != more[b - 1] by {
        if b < graphs.len() {
            assert(subgraphs[b] != subgraphs[b - 1]);
        }
    }
}

/// The plans of the first `n` sets, and the graphs that fetch them.
spec fn is_serial(
    m: PlanningModel,
    p: ParametersView,
    has_defers: bool,
    sets: Seq<SelectionSetView>,
    progress: PlanningProgress,
    all: Serial,
    made: Seq<PlanningProgress>,
    plans: Seq<BestPlanView>,
    starts: Seq<int>,
    subgraphs: Seq<Seq<char>>,
) -> bool {
    &&& are_planned(m, p, has_defers, sets, made, plans)
    &&& made.first() == progress
    &&& made.last() == all.progress
    &&& fetch_in_order(m, p, has_defers, plans, all.done.push(all.graph), starts, subgraphs)
    &&& subgraphs.last() == all.subgraph
    &&& branches(plans.subrange(starts[all.done.len() as int], plans.len() as int))
        == all.path.childs
}

#[verifier::spinoff_prover]
#[verifier::rlimit(40)]
proof fn lemma_serial_in_order(
    m: PlanningModel,
    p: ParametersView,
    has_defers: bool,
    sets: Seq<SelectionSetView>,
    progress: PlanningProgress,
    n: nat,
)
    requires
        1 <= n <= sets.len(),
    ensures
        serial(m, p, has_defers, sets, progress, n) matches Ok(all) ==> exists|
            made: Seq<PlanningProgress>,
            plans: Seq<BestPlanView>,
            starts: Seq<int>,
            subgraphs: Seq<Seq<char>>,
        | #[trigger]
            is_serial(
                m,
                p,
                has_defers,
                sets.take(n as int),
                progress,
                all,
                made,
                plans,
                starts,
                subgraphs,
            ),
    decreases n,
{
    match serial(m, p, has_defers, sets, progress, n) {
        Err(_) => {},
        Ok(all) => {
            if n == 1 {
                let (plan, after) = best_plan(m, p, sets[0], has_defers, progress)->Ok_0;
                let made = seq![progress, after];
                let plans = seq![plan];
                let starts = seq![0int, 1int];
                let subgraphs = seq![all.subgraph];
                lemma_one_plan(plan);
                assert(plans.subrange(0, 1) =~= plans);
                assert(all.done.push(all.graph) =~= seq![all.graph]);
                assert(are_planned(m, p, has_defers, sets.take(1), made, plans));
                assert(fetches_together(m, p, has_defers, plans, subgraphs[0], all.graph));
                assert(fetch_in_order(
                    m,
                    p,
                    has_defers,
                    plans,
                    all.done.push(all.graph),
                    starts,
                    subgraphs,
                ));
                assert(is_serial(
                    m,
                    p,
                    has_defers,
                    sets.take(1),
                    progress,
                    all,
                    made,
                    plans,
                    starts,
                    subgraphs,
                ));
            } else {
                lemma_serial_in_order(m, p, has_defers, sets, progress, (n - 1) as nat);
                let before = serial(m, p, has_defers, sets, progress, (n - 1) as nat)->Ok_0;
                let some = sets.take(n - 1);
                let (made, plans, starts, subgraphs) = choose|
                    made: Seq<PlanningProgress>,
                    plans: Seq<BestPlanView>,
                    starts: Seq<int>,
                    subgraphs: Seq<Seq<char>>,
                | #[trigger]
                    is_serial(
                        m,
                        p,
                        has_defers,
                        some,
                        progress,
                        before,
                        made,
                        plans,
                        starts,
                        subgraphs,
                    );
                let (plan, after) = best_plan(
                    m,
                    p,
                    sets[n - 1],
                    has_defers,
                    before.progress,
                )->Ok_0;
                let subgraph = root_subgraph(m, plan.fetch_dependency_graph)->Ok_0;
                let made1 = made.push(after);
                let plans1 = plans.push(plan);
                lemma_planned(m, p, has_defers, some, made, plans, sets[n - 1], plan, after);
                assert(sets.take(n as int) =~= some.push(sets[n - 1]));
                let last = before.done.len() as int;
                let from = starts[last];
                assert(0 <= starts[last] < starts[last + 1] <= plans.len());
                let block = plans.subrange(from, plans.len() as int);
                lemma_branches(block, plan);
                lemma_one_plan(plan);
                assert(plans1.subrange(from, plans1.len() as int) =~= block.push(plan));
                assert(plans1.subrange(plans.len() as int, plans1.len() as int) =~= seq![plan]);
                if subgraph == before.subgraph {
                    let block1 = block.push(plan);
                    assert forall|i: int| 0 <= i < block1.len() implies starts_at(
                        m,
                        #[trigger] block1[i],
                        subgraph,
                    ) by {
                        if i < block.len() {
                            assert(starts_at(m, block[i], subgraphs[last]));
                        }
                    }
                    assert(fetches_together(m, p, has_defers, block1, subgraph, all.graph));
                    lemma_last_fetch_grows(
                        m,
                        p,
                        has_defers,
                        plans,
                        before.done,
                        before.graph,
                        starts,
                        subgraphs,
                        plan,
                        all.graph,
                    );
                    assert(is_serial(
                        m,
                        p,
                        has_defers,
                        sets.take(n as int),
                        progress,
                        all,
                        made1,
                        plans1,
                        starts.update(last + 1, plans.len() as int + 1),
                        subgraphs,
                    ));
                } else {
                    lemma_next_fetch_begins(
                        m,
                        p,
                        has_defers,
                        plans,
                        before.done.push(before.graph),
                        starts,
                        subgraphs,
                        plan,
                        all.graph,
                        subgraph,
                    );
                    assert(is_serial(
                        m,
                        p,
                        has_defers,
                        sets.take(n as int),
                        progress,
                        all,
                        made1,
                        plans1,
                        starts.push(plans.len() as int + 1),
                        subgraphs.push(subgraph),
                    ));
                }
            }
        },
    }
}

/// What is fetched for a mutation is fetched in the order of the fields at the top: each field is
/// planned, fields in a row whose plans start at one subgraph are fetched together, in their
/// order, and a field of another subgraph begins the next fetch.
pub proof fn law_fields_of_a_mutation_are_fetched_in_order(
    m: PlanningModel,
    p: ParametersView,
    has_defers: bool,
    progress: PlanningProgress,
)
    ensures
        serial_graphs(m, p, has_defers, progress) matches Ok((graphs, after)) ==> exists|
            made: Seq<PlanningProgress>,
            plans: Seq<BestPlanView>,
            starts: Seq<int>,
            subgraphs: Seq<Seq<char>>,
        |
            {
                &&& #[trigger] are_planned(
                    m,
                    p,
                    has_defers,
                    split_fields(
                        p.operation.selection_set,
                        p.operation.selection_set.selections.len(),
                    ),
                    made,
                    plans,
                )
                &&& made.first() == progress
                &&& made.last() == after
                &&& #[trigger] fetch_in_order(
                    m,
                    p,
                    has_defers,
                    plans,
                    graphs,
                    starts,
                    subgraphs,
                )
            },
{
    let set = p.operation.selection_set;
    let sets = split_fields(set, set.selections.len());
    match serial_graphs(m, p, has_defers, progress) {
        Err(_) => {},
        Ok((graphs, after)) => {
            lemma_serial_in_order(m, p, has_defers, sets, progress, sets.len());
            let all = serial(m, p, has_defers, sets, progress, sets.len())->Ok_0;
            assert(sets.take(sets.len() as int) =~= sets);
            let (made, plans, starts, subgraphs) = choose|
                made: Seq<PlanningProgress>,
                plans: Seq<BestPlanView>,
                starts: Seq<int>,
                subgraphs: Seq<Seq<char>>,
            | #[trigger]
                is_serial(m, p, has_defers, sets, progress, all, made, plans, starts, subgraphs);
            assert(are_planned(m, p, has_defers, sets, made, plans));
            assert(fetch_in_order(m, p, has_defers, plans, graphs, starts, subgraphs));
        },
    }
}

// Roots of what is fetched.

/// Whether the node that is known as the root for a subgraph, if any is, fetches from it.
pub open spec fn root_is_in_place(graph: DependencyGraphView, subgraph: Text) -> bool {
    value_of(graph.root_nodes_by_subgraph, subgraph) matches Some(node) ==> node
        < graph.nodes.len() && graph.nodes[node as int].subgraph_name == subgraph
}

/// Whether the nodes that are known as roots for subgraphs fetch from them.
pub open spec fn roots_are_in_place(graph: DependencyGraphView) -> bool {
    forall|subgraph: Text| #[trigger] root_is_in_place(graph, subgraph)
}

/// A graph has one root for a subgraph: the one that it has, or a new one that fetches from the
/// subgraph and has nothing yet. The other nodes and roots stay.
pub proof fn law_each_subgraph_has_one_root(
    graph: DependencyGraphView,
    subgraph: Text,
    root_kind: SchemaRootDefinitionKind,
    parent_type: CompositeView,
    other: Text,
)
    requires
        roots_are_in_place(graph),
        graph.nodes.len() < usize::MAX,
    ensures
        ({
            let (after, node) = with_root_node(graph, subgraph, root_kind, parent_type);
            &&& roots_are_in_place(after)
            &&& value_of(after.root_nodes_by_subgraph, subgraph) == Some(node)
            &&& after.nodes.take(graph.nodes.len() as int) == graph.nodes
            &&& after.nodes.len() <= graph.nodes.len() + 1
            &&& other != subgraph ==> value_of(after.root_nodes_by_subgraph, other) == value_of(
                graph.root_nodes_by_subgraph,
                other,
            )
            &&& value_of(graph.root_nodes_by_subgraph, subgraph) is Some ==> after == graph
            &&& value_of(graph.root_nodes_by_subgraph, subgraph) is None
                ==> after.nodes.last().selection_sets.len() == 0 && after.nodes.last().root_kind
                == root_kind && after.nodes.last().parent_type == parent_type
        }),
{
    let (after, node) = with_root_node(graph, subgraph, root_kind, parent_type);
    let before = graph.root_nodes_by_subgraph;
    assert(after.nodes.take(graph.nodes.len() as int) =~= graph.nodes);
    assert(root_is_in_place(graph, subgraph));
    if value_of(before, subgraph) is None {
        lemma_value_of_put(before, subgraph, graph.nodes.len() as usize, subgraph);
        lemma_value_of_put(before, subgraph, graph.nodes.len() as usize, other);
        assert forall|s: Text| #[trigger] root_is_in_place(after, s) by {
            assert(root_is_in_place(graph, s));
            lemma_value_of_put(before, subgraph, graph.nodes.len() as usize, s);
            if s != subgraph {
                if let Some(n) = value_of(before, s) {
                    assert(after.nodes[n as int] == graph.nodes[n as int]);
                }
            }
        }
    }
}

} // verus!
