//! Leaving out options that a simpler one makes needless.

use crate::error::result_view;
use crate::error::ErrorView;
use crate::error::FederationError;
use crate::query_graph::advance::not_subsumed;
use crate::query_graph::advance::paths_of;
use crate::query_graph::advance::pruned;
use crate::query_graph::advance::subsumed;
use crate::query_graph::advance::with_new_options;
use crate::query_graph::advancer::SimultaneousPathsWithLazyIndirectPaths;
use crate::query_graph::elements::OpPathElement;
use crate::query_graph::graph_path::OpGraphPath;
use crate::query_graph::graph_path::PathView;
use crate::query_graph::graph_path::SimultaneousPaths;
use crate::query_graph::graph_path::SimultaneousView;
use crate::query_graph::is_interface_object;
use crate::query_graph::texts::empty_options_error;
use crate::query_graph::GraphView;
use crate::query_graph::QueryGraph;
use vstd::prelude::*;

verus! {

fn check_subsumed(graph: &QueryGraph, paths: &Vec<OpGraphPath>, path: &OpGraphPath) -> (r: Result<
    bool,
    FederationError,
>)
    ensures
        result_view(r) == subsumed(
            graph.deep_view(),
            paths.deep_view(),
            path.deep_view(),
            paths.deep_view().len(),
        ),
{
    let ghost g = graph.deep_view();
    let ghost all = paths.deep_view();
    let ghost p = path.deep_view();
    let mut i: usize = 0;
    while i < paths.len()
        invariant
            i <= paths@.len(),
            g == graph.deep_view(),
            all == paths.deep_view(),
            p == path.deep_view(),
            subsumed(g, all, p, i as nat) == Ok::<bool, ErrorView>(true),
        decreases paths@.len() - i,
    {
        assert(all[i as int] == paths@[i as int].deep_view());
        match path.is_equivalent_save_for_type_explosion_to(graph, &paths[i]) {
            Ok(true) => {},
            Ok(false) => {
                proof {
                    lemma_subsumed_stays(g, all, p, i as nat + 1, all.len());
                }
                return Ok(false);
            },
            Err(error) => {
                proof {
                    lemma_subsumed_stays(g, all, p, i as nat + 1, all.len());
                }
                return Err(error);
            },
        }
        i += 1;
    }
    Ok(true)
}

proof fn lemma_subsumed_stays(
    graph: GraphView,
    paths: Seq<PathView>,
    path: PathView,
    n: nat,
    m: nat,
)
    requires
        n <= m,
        subsumed(graph, paths, path, n) != Ok::<bool, ErrorView>(true),
    ensures
        subsumed(graph, paths, path, m) == subsumed(graph, paths, path, n),
    decreases m,
{
    if n < m {
        lemma_subsumed_stays(graph, paths, path, n, (m - 1) as nat);
    }
}

proof fn lemma_not_subsumed_error(
    graph: GraphView,
    options: Seq<SimultaneousView>,
    path: PathView,
    n: nat,
    m: nat,
)
    requires
        n <= m,
        not_subsumed(graph, options, path, n) is Err,
    ensures
        not_subsumed(graph, options, path, m) == not_subsumed(graph, options, path, n),
    decreases m,
{
    if n < m {
        lemma_not_subsumed_error(graph, options, path, n, (m - 1) as nat);
    }
}

fn keep_not_subsumed(
    graph: &QueryGraph,
    options: &Vec<SimultaneousPaths>,
    path: &OpGraphPath,
) -> (r: Result<Vec<SimultaneousPaths>, FederationError>)
    ensures
        result_view(r) == not_subsumed(
            graph.deep_view(),
            options.deep_view(),
            path.deep_view(),
            options.deep_view().len(),
        ),
{
    let ghost g = graph.deep_view();
    let ghost all = options.deep_view();
    let ghost p = path.deep_view();
    let mut kept: Vec<SimultaneousPaths> = Vec::new();
    let mut i: usize = 0;
    assert(kept.deep_view() =~= Seq::empty());
    while i < options.len()
        invariant
            i <= options@.len(),
            g == graph.deep_view(),
            all == options.deep_view(),
            p == path.deep_view(),
            not_subsumed(g, all, p, i as nat) == Ok::<Seq<SimultaneousView>, ErrorView>(
                kept.deep_view(),
            ),
        decreases options@.len() - i,
    {
        let ghost before = kept.deep_view();
        assert(all[i as int] == options@[i as int].deep_view());
        match check_subsumed(graph, &options[i].paths, path) {
            Ok(true) => {},
            Ok(false) => {
                kept.push(options[i].clone());
                assert(kept.deep_view() =~= before.push(all[i as int]));
            },
            Err(error) => {
                proof {
                    lemma_not_subsumed_error(g, all, p, i as nat + 1, all.len());
                }
                return Err(error);
            },
        }
        i += 1;
    }
    Ok(kept)
}

proof fn lemma_pruned_error(
    graph: GraphView,
    options: Seq<SimultaneousView>,
    new: Seq<SimultaneousView>,
    n: nat,
    m: nat,
)
    requires
        n <= m,
        pruned(graph, options, new, n) is Err,
    ensures
        pruned(graph, options, new, m) == pruned(graph, options, new, n),
    decreases m,
{
    if n < m {
        lemma_pruned_error(graph, options, new, n, (m - 1) as nat);
    }
}

pub(crate) fn add_new_options(
    graph: &QueryGraph,
    options: Vec<SimultaneousPaths>,
    path: &OpGraphPath,
    element: &OpPathElement,
    new: Vec<SimultaneousPaths>,
) -> (r: Result<Vec<SimultaneousPaths>, FederationError>)
    ensures
        result_view(r) == with_new_options(
            graph.deep_view(),
            options.deep_view(),
            path.deep_view(),
            element.deep_view(),
            new.deep_view(),
        ),
{
    proof {
        reveal(with_new_options);
    }
    let ghost g = graph.deep_view();
    let ghost start = options.deep_view();
    let ghost all = new.deep_view();
    if new.len() == 0 {
        return Err(empty_options_error(element));
    }
    let mut kept = options;
    match graph.is_interface_object(path.tail) {
        Err(error) => {
            return Err(error);
        },
        Ok(false) => {},
        Ok(true) => {
            let mut i: usize = 0;
            while i < new.len()
                invariant
                    i <= new@.len(),
                    new@.len() > 0,
                    g == graph.deep_view(),
                    all == new.deep_view(),
                    start == options.deep_view(),
                    is_interface_object(g, path.tail) == Ok::<bool, ErrorView>(true),
                    pruned(g, start, all, i as nat) == Ok::<Seq<SimultaneousView>, ErrorView>(
                        kept.deep_view(),
                    ),
                decreases new@.len() - i,
            {
                proof {
                    reveal(with_new_options);
                }
                assert(all[i as int] == new@[i as int].deep_view());
                if new[i].paths.len() == 1 {
                    assert(all[i as int].paths[0] == new@[i as int].paths@[0].deep_view());
                    match keep_not_subsumed(graph, &kept, &new[i].paths[0]) {
                        Ok(fewer) => {
                            kept = fewer;
                        },
                        Err(error) => {
                            proof {
                                lemma_pruned_error(g, start, all, i as nat + 1, all.len());
                            }
                            return Err(error);
                        },
                    }
                }
                i += 1;
            }
        },
    }
    let ghost before = kept.deep_view();
    let mut more = new;
    kept.append(&mut more);
    assert(kept.deep_view() =~= before + all);
    Ok(kept)
}

pub(crate) fn take_paths(options: Vec<SimultaneousPathsWithLazyIndirectPaths>) -> (r: Vec<SimultaneousPaths>)
    ensures
        r.deep_view() == paths_of(options.deep_view()),
{
    let mut r: Vec<SimultaneousPaths> = Vec::new();
    let mut i: usize = 0;
    while i < options.len()
        invariant
            i <= options@.len(),
            r@.len() == i,
            forall|j: int|
                0 <= j < i ==> (#[trigger] r@[j]).deep_view() == options@[j].paths.deep_view(),
        decreases options@.len() - i,
    {
        r.push(options[i].paths.clone());
        i += 1;
    }
    assert(r.deep_view() =~= paths_of(options.deep_view()));
    r
}

} // verus!
