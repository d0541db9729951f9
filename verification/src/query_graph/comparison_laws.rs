//! Which paths are left out for others.

use crate::collections::value_of;
use crate::error::ErrorView;
use crate::merge::directives::has_directive;
use crate::operation::field_is_leaf;
use crate::operation::selection::contains_field;
use crate::operation::FieldElementView;
use crate::query_graph::edge_weight;
use crate::query_graph::graph_path::common_length;
use crate::query_graph::graph_path::jumps_between;
use crate::query_graph::graph_path::option_comparison;
use crate::query_graph::graph_path::path_comparison;
use crate::query_graph::graph_path::Comparison;
use crate::query_graph::graph_path::PathView;
use crate::query_graph::node_weight;
use crate::query_graph::options::compared_from;
use crate::query_graph::options::compared_with_others;
use crate::query_graph::options::kept_options;
use crate::query_graph::options::ClosedPathView;
use crate::query_graph::path_checks::collecting_paths;
use crate::query_graph::path_checks::entity_with_shareable_field;
use crate::query_graph::path_checks::explodes_to;
use crate::query_graph::path_checks::implementations_differ;
use crate::query_graph::path_checks::implementation_differs;
use crate::query_graph::path_checks::key_has_field;
use crate::query_graph::path_checks::paths_for_field;
use crate::query_graph::source_of;
use crate::query_graph::GraphView;
use crate::query_graph::NodeView;
use crate::query_graph::SourceView;
use crate::schema::position::runtime_types;
use crate::schema::position::CompositeView;
use crate::schema::ExtendedTypeView;
use crate::text::Text;
use vstd::prelude::*;

verus! {

// Jumps.

/// Whether a step leads from a subgraph to another one.
pub open spec fn jumps(graph: GraphView, edge: Option<usize>) -> bool {
    edge matches Some(index) && (edge_weight(graph, index) matches Ok(weight) && (node_weight(
        graph,
        weight.head,
    ) matches Ok(start) && (node_weight(graph, weight.tail) matches Ok(end) && start.source
        != end.source)))
}

/// Whether a path jumps from the step `n` on.
pub open spec fn jumps_behind(graph: GraphView, path: PathView, n: int) -> bool {
    exists|i: int| n <= i < path.edges.len() && jumps(graph, #[trigger] path.edges[i])
}

proof fn lemma_jumps(graph: GraphView, edges: Seq<Option<usize>>, from: nat, to: nat)
    requires
        to <= edges.len(),
    ensures
        jumps_between(graph, edges, from, to) matches Ok(count) ==> (count > 0) == (exists|i: int|
            from <= i < to && jumps(graph, #[trigger] edges[i])),
    decreases to,
{
    if to > from {
        lemma_jumps(graph, edges, from, (to - 1) as nat);
        if let Ok(count) = jumps_between(graph, edges, from, to) {
            let before = jumps_between(graph, edges, from, (to - 1) as nat)->Ok_0;
            if before > 0 {
                let i = choose|i: int| from <= i < to - 1 && jumps(graph, #[trigger] edges[i]);
                assert(jumps(graph, edges[i]));
            }
            if count > before {
                assert(jumps(graph, edges[to - 1]));
            }
        }
    }
}

proof fn lemma_common(a: Seq<Option<usize>>, b: Seq<Option<usize>>)
    ensures
        ({
            let n = common_length(a, b) as int;
            &&& n <= a.len()
            &&& n <= b.len()
            &&& a.take(n) == b.take(n)
            &&& n < a.len() && n < b.len() ==> a[n] != b[n]
        }),
    decreases a.len(),
{
    if a.len() == 0 || b.len() == 0 || a[0] != b[0] {
        assert(a.take(0) =~= b.take(0));
    } else {
        let x = a.drop_first();
        let y = b.drop_first();
        lemma_common(x, y);
        let n = common_length(a, b) as int;
        assert(a.take(n) =~= seq![a[0]] + x.take(n - 1));
        assert(b.take(n) =~= seq![b[0]] + y.take(n - 1));
        if n < a.len() && n < b.len() {
            assert(a[n] == x[n - 1] && b[n] == y[n - 1]);
        }
    }
}

/// Whether two paths have their first `n` steps in common, and no more.
pub open spec fn part_at(a: PathView, b: PathView, n: int) -> bool {
    &&& 0 <= n <= a.edges.len()
    &&& n <= b.edges.len()
    &&& a.edges.take(n) == b.edges.take(n)
    &&& n < a.edges.len() && n < b.edges.len() ==> a.edges[n] != b.edges[n]
}

/// A path is better than another one to the same leaf exactly if they end in different subgraphs
/// and behind the steps that they have in common it stays in its subgraph while the other one
/// jumps.
pub proof fn law_better_paths_do_not_jump(graph: GraphView, a: PathView, b: PathView, n: int)
    requires
        part_at(a, b, n),
    ensures
        path_comparison(graph, a, b) matches Ok(found) ==> {
            let apart = node_weight(graph, a.tail)->Ok_0.source != node_weight(
                graph,
                b.tail,
            )->Ok_0.source;
            &&& found == Comparison::Less <==> apart
                && !jumps_behind(graph, a, n) && jumps_behind(graph, b, n)
            &&& found == Comparison::Greater <==> apart
                && jumps_behind(graph, a, n) && !jumps_behind(graph, b, n)
        },
{
    lemma_common(a.edges, b.edges);
    let m = common_length(a.edges, b.edges) as int;
    if m < n {
        assert(a.edges.take(n)[m] == b.edges.take(n)[m]);
    } else if n < m {
        assert(a.edges.take(m)[n] == b.edges.take(m)[n]);
    }
    assert(m == n);
    lemma_jumps(graph, a.edges, m as nat, a.edges.len());
    lemma_jumps(graph, b.edges, m as nat, b.edges.len());
}

// Options.

/// Whether one option is better than another one.
pub open spec fn is_better(
    graph: GraphView,
    options: Seq<ClosedPathView>,
    better: int,
    worse: int,
) -> bool {
    &&& 0 <= better < options.len()
    &&& 0 <= worse < options.len()
    &&& if better < worse {
        option_comparison(graph, options[better].paths, options[worse].paths) == Ok::<
            Comparison,
            ErrorView,
        >(Comparison::Less)
    } else {
        worse < better && option_comparison(graph, options[worse].paths, options[better].paths)
            == Ok::<Comparison, ErrorView>(
            Comparison::Greater,
        )
    }
}

/// Whether every option that is not kept is worse than another one.
spec fn all_worse(graph: GraphView, options: Seq<ClosedPathView>, keep: Seq<bool>) -> bool {
    forall|k: int|
        0 <= k < options.len() && !#[trigger] keep[k] ==> exists|j: int|
            is_better(graph, options, j, k)
}

/// Whether of those up to `i` that are kept none is better than another one from `from` on.
spec fn settled_with(
    graph: GraphView,
    options: Seq<ClosedPathView>,
    keep: Seq<bool>,
    i: int,
    from: int,
) -> bool {
    forall|j: int|
        i < j < options.len() && from <= j && keep[i] && #[trigger] keep[j] ==> !is_better(
            graph,
            options,
            i,
            j,
        ) && !is_better(graph, options, j, i)
}

proof fn lemma_compared(
    graph: GraphView,
    options: Seq<ClosedPathView>,
    keep: Seq<bool>,
    i: int,
    j: int,
)
    requires
        keep.len() == options.len(),
        0 <= i < options.len(),
        i <= j < options.len(),
        keep[i],
        all_worse(graph, options, keep),
        settled_with(graph, options, keep, i, j + 1),
    ensures
        compared_with_others(graph, options, keep, i, j) matches Ok(after) ==> {
            &&& after.len() == keep.len()
            &&& all_worse(graph, options, after)
            &&& settled_with(graph, options, after, i, i + 1)
            &&& forall|k: int| 0 <= k < keep.len() && !keep[k] ==> !#[trigger] after[k]
        },
    decreases j + 1,
{
    if j > i {
        if !keep[j] {
            lemma_compared(graph, options, keep, i, j - 1);
        } else {
            match option_comparison(graph, options[i].paths, options[j].paths) {
                Err(_) => {},
                Ok(Comparison::Less) => {
                    let less = keep.update(j, false);
                    assert(is_better(graph, options, i, j));
                    assert forall|k: int| 0 <= k < options.len() && !#[trigger] less[k] implies exists|
                        x: int,
                    | is_better(graph, options, x, k) by {
                        if k == j {
                            assert(is_better(graph, options, i, k));
                        } else {
                            assert(!keep[k]);
                        }
                    }
                    assert(settled_with(graph, options, less, i, j)) by {
                        assert forall|x: int|
                            i < x < options.len() && j <= x && less[i]
                                && #[trigger] less[x] implies !is_better(graph, options, i, x)
                            && !is_better(graph, options, x, i) by {
                            assert(keep[x]);
                        }
                    }
                    lemma_compared(graph, options, less, i, j - 1);
                },
                Ok(Comparison::Equal) => {
                    assert(settled_with(graph, options, keep, i, j));
                    lemma_compared(graph, options, keep, i, j - 1);
                },
                Ok(Comparison::Greater) => {
                    let less = keep.update(i, false);
                    assert(is_better(graph, options, j, i));
                    assert forall|k: int| 0 <= k < options.len() && !#[trigger] less[k] implies exists|
                        x: int,
                    | is_better(graph, options, x, k) by {
                        if k == i {
                            assert(is_better(graph, options, j, k));
                        } else {
                            assert(!keep[k]);
                        }
                    }
                },
            }
        }
    }
}

proof fn lemma_compared_from(
    graph: GraphView,
    options: Seq<ClosedPathView>,
    keep: Seq<bool>,
    i: int,
)
    requires
        keep.len() == options.len(),
        0 <= i <= options.len(),
        all_worse(graph, options, keep),
        forall|k: int| 0 <= k < i ==> #[trigger] settled_with(graph, options, keep, k, k + 1),
    ensures
        compared_from(graph, options, keep, i) matches Ok(after) ==> {
            &&& after.len() == options.len()
            &&& all_worse(graph, options, after)
            &&& forall|k: int|
                0 <= k < options.len() ==> #[trigger] settled_with(graph, options, after, k, k + 1)
        },
    decreases options.len() - i,
{
    if i < options.len() {
        if !keep[i] {
            assert(settled_with(graph, options, keep, i, i + 1));
            lemma_compared_from(graph, options, keep, i + 1);
        } else {
            assert(settled_with(graph, options, keep, i, options.len() as int));
            lemma_compared(graph, options, keep, i, options.len() - 1);
            match compared_with_others(graph, options, keep, i, options.len() - 1) {
                Err(_) => {},
                Ok(kept) => {
                    assert forall|k: int| 0 <= k < i + 1 implies #[trigger] settled_with(
                        graph,
                        options,
                        kept,
                        k,
                        k + 1,
                    ) by {
                        if k < i {
                            assert(settled_with(graph, options, keep, k, k + 1));
                            assert forall|j: int|
                                k < j < options.len() && k + 1 <= j && kept[k]
                                    && #[trigger] kept[j] implies !is_better(graph, options, k, j)
                                && !is_better(graph, options, j, k) by {
                                assert(keep[j]);
                                assert(keep[k]);
                            }
                        }
                    }
                    lemma_compared_from(graph, options, kept, i + 1);
                },
            }
        }
    }
}

/// An option is left out only for a better one, and of two options that are kept none is better
/// than the other.
pub proof fn law_options_are_left_out_for_better_ones(
    graph: GraphView,
    options: Seq<ClosedPathView>,
    i: int,
    j: int,
)
    requires
        0 <= i < options.len(),
        0 <= j < options.len(),
    ensures
        kept_options(graph, options) matches Ok(keep) ==> {
            &&& !keep[i] ==> exists|k: int| is_better(graph, options, k, i)
            &&& keep[i] && keep[j] ==> !is_better(graph, options, i, j)
        },
{
    let all = Seq::new(options.len(), |i: int| true);
    lemma_compared_from(graph, options, all, 0);
    if let Ok(keep) = kept_options(graph, options) {
        assert(settled_with(graph, options, keep, i, i + 1));
        assert(settled_with(graph, options, keep, j, j + 1));
        if keep[i] && keep[j] {
            if i < j {
                assert(keep[j]);
            } else if j < i {
                assert(keep[i]);
            }
        }
    }
}

// Type explosion.

/// Whether a path is another one with a cast of an interface put in before a key: up to the step
/// `d` they are the same, then the second one casts and takes a key to the node that the first one
/// takes a key to, and behind that they are the same again.
pub open spec fn casts_before_key(graph: GraphView, a: PathView, b: PathView, d: int) -> bool {
    &&& 0 <= d < a.edges.len()
    &&& b.edges.len() == a.edges.len() + 1
    &&& a.edges.take(d) == b.edges.take(d)
    &&& a.edges.skip(d + 1) == b.edges.skip(d + 2)
    &&& a.edges[d] is Some && b.edges[d] is Some && b.edges[d + 1] is Some
    &&& edge_weight(graph, b.edges[d]->0) matches Ok(cast) && cast.transition is Downcast
        && cast.transition->Downcast_from_type_position is Interface
    &&& edge_weight(graph, a.edges[d]->0) matches Ok(own) && own.transition is KeyResolution && (
    edge_weight(graph, b.edges[d + 1]->0) matches Ok(next) && next.transition is KeyResolution
        && own.tail == next.tail && (own.conditions is Some == next.conditions is Some))
}

/// Where two paths are said to be the same but for a type explosion, the second one has one step
/// more: a cast of an interface before the same key.
pub proof fn law_exploded_paths_cast_before_a_key(graph: GraphView, a: PathView, b: PathView)
    ensures
        explodes_to(graph, a, b) == Ok::<bool, ErrorView>(true) ==> a.head == b.head && a.tail
            == b.tail && exists|d: int| casts_before_key(graph, a, b, d),
{
    lemma_common(a.edges, b.edges);
    let d = common_length(a.edges, b.edges) as int;
    if explodes_to(graph, a, b) == Ok::<bool, ErrorView>(true) {
        assert(casts_before_key(graph, a, b, d));
    }
}

// Indirect paths.

/// Whether a path ends with a key that itself selects a field.
pub open spec fn ends_with_key_of(
    graph: GraphView,
    path: PathView,
    field: FieldElementView,
) -> bool {
    path.edges.len() > 0 && (path.edges.last() matches Some(edge) && (edge_weight(graph, edge)
        matches Ok(weight) && weight.transition is KeyResolution && (weight.conditions matches Some(
        conditions,
    ) && contains_field(conditions, field))))
}

proof fn lemma_collecting(
    graph: GraphView,
    paths: Seq<PathView>,
    field: FieldElementView,
    n: nat,
    path: PathView,
)
    requires
        n <= paths.len(),
    ensures
        collecting_paths(graph, paths, field, n) matches Ok(found) ==> found.contains(path) == (
        paths.take(n as int).contains(path) && !ends_with_key_of(graph, path, field)),
    decreases n,
{
    if n > 0 {
        lemma_collecting(graph, paths, field, (n - 1) as nat, path);
        if let Ok(found) = collecting_paths(graph, paths, field, n) {
            let before = collecting_paths(graph, paths, field, (n - 1) as nat)->Ok_0;
            let last = paths[n - 1];
            assert(key_has_field(graph, last, field) == Ok::<bool, ErrorView>(
                ends_with_key_of(graph, last, field),
            ));
            let all = paths.take(n as int);
            let some = paths.take(n - 1);
            if all.contains(path) {
                let i = choose|i: int| 0 <= i < all.len() && all[i] == path;
                if i < n - 1 {
                    assert(some[i] == path);
                }
            }
            if some.contains(path) {
                let i = choose|i: int| 0 <= i < some.len() && some[i] == path;
                assert(all[i] == path);
            }
            assert(all[n - 1] == last);
            if before.contains(path) {
                let i = choose|i: int| 0 <= i < before.len() && before[i] == path;
                assert(found[i] == path);
            }
            if found.contains(path) {
                let i = choose|i: int| 0 <= i < found.len() && found[i] == path;
                if i < before.len() {
                    assert(before[i] == path);
                }
            }
            if last == path && !ends_with_key_of(graph, last, field) {
                assert(found[before.len() as int] == path);
            }
        }
    }
}

/// For a field without selections the paths that end with a key which itself selects the field are
/// left out, and no others; for any other field none is.
pub proof fn law_paths_with_the_field_in_their_key_are_left_out(
    graph: GraphView,
    paths: Seq<PathView>,
    field: FieldElementView,
    path: PathView,
)
    ensures
        paths_for_field(graph, paths, field) matches Ok(found) ==> found.contains(path) == (
        paths.contains(path) && !(field_is_leaf(field) == Ok::<bool, ErrorView>(true)
            && ends_with_key_of(graph, path, field))),
{
    lemma_collecting(graph, paths, field, paths.len(), path);
    assert(paths.take(paths.len() as int) =~= paths);
}

// Shareable fields.

/// Whether an object of a subgraph is an entity with a shareable field.
pub open spec fn shares_as_entity(source: SourceView, object: Text, field: Text) -> bool {
    value_of(source.schema.types, object) matches Some(ExtendedTypeView::Object(o))
        && has_directive(o.directives, source.key) && (value_of(o.fields, field) matches Some(
        definition,
    ) && has_directive(definition.directives, source.shareable))
}

proof fn lemma_implementations(
    graph: GraphView,
    subgraph: SourceView,
    tail: NodeView,
    names: Seq<Text>,
    field: Text,
    from: nat,
)
    ensures
        implementations_differ(graph, subgraph, tail, names, field, from) == Ok::<bool, ErrorView>(
            true,
        ) ==> exists|i: int|
            from <= i < names.len() && shares_as_entity(subgraph, #[trigger] names[i], field),
    decreases names.len() - from,
{
    if from < names.len() {
        lemma_implementations(graph, subgraph, tail, names, field, from + 1);
        if implementation_differs(graph, subgraph, tail, names[from as int], field) == Ok::<
            bool,
            ErrorView,
        >(true) {
            assert(shares_as_entity(subgraph, names[from as int], field));
        }
    }
}

/// An interface is taken apart for a shareable field only if some object that implements it in the
/// subgraph is an entity with the field shareable there.
pub proof fn law_shareable_fields_are_those_of_entities(
    graph: GraphView,
    tail: usize,
    source: Text,
    interface: Text,
    field: Text,
)
    ensures
        entity_with_shareable_field(graph, tail, source, interface, field) == Ok::<bool, ErrorView>(
            true,
        ) ==> (source_of(graph, source) matches Ok(subgraph) && exists|object: Text|
            #[trigger] shares_as_entity(subgraph, object, field) && runtime_types(
                subgraph.schema,
                CompositeView::Interface(interface),
            ).contains(object)),
{
    if let Ok(subgraph) = source_of(graph, source) {
        if let Ok(weight) = node_weight(graph, tail) {
            let names = runtime_types(subgraph.schema, CompositeView::Interface(interface));
            lemma_implementations(graph, subgraph, weight, names, field, 0);
            if implementations_differ(graph, subgraph, weight, names, field, 0) == Ok::<
                bool,
                ErrorView,
            >(true) {
                let i = choose|i: int|
                    0 <= i < names.len() && shares_as_entity(subgraph, #[trigger] names[i], field);
                assert(names.contains(names[i]));
            }
        }
    }
}

} // verus!
