//! Options to reach a leaf of an operation: combining them and leaving out the worse ones.

use crate::error::result_view;
use crate::error::ErrorKind;
use crate::error::ErrorView;
use crate::error::FederationError;
use crate::operation::selection::SelectionSet;
use crate::operation::selection::SelectionSetView;
use crate::query_graph::graph_path::option_comparison;
use crate::query_graph::graph_path::Comparison;
use vstd::prelude::*;

use crate::query_graph::graph_path::OpGraphPath;
use crate::query_graph::graph_path::PathView;
use crate::query_graph::graph_path::SimultaneousPaths;
use crate::query_graph::graph_path::SimultaneousView;
use crate::query_graph::GraphView;
use crate::query_graph::QueryGraph;
use crate::text::decimal;
use crate::text::decimal_string;
use crate::text::joined;

verus! {

/// Whether the check for cancellation may end the work with the given error.
pub open spec fn may_cancel<C: Fn() -> Result<(), FederationError>>(
    check_cancellation: C,
    error: FederationError,
) -> bool {
    call_ensures(check_cancellation, (), Err::<(), FederationError>(error))
}

/// Whether the check for cancellation ends the work whenever it is made.
pub open spec fn must_cancel<C: Fn() -> Result<(), FederationError>>(check_cancellation: C) -> bool {
    !call_ensures(check_cancellation, (), Ok::<(), FederationError>(()))
}

/// The number of ways to choose one option per path, for the first `n` paths; numbers that are
/// too large count as the largest one.
pub open spec fn combinations(options: Seq<Seq<SimultaneousView>>, n: nat) -> nat
    decreases n,
{
    if n == 0 {
        1
    } else {
        let product = combinations(options, (n - 1) as nat) * options[n - 1].len();
        if product > usize::MAX {
            usize::MAX as nat
        } else {
            product
        }
    }
}

/// The paths of the `k`-th choice of one option per path, where the choice for the first path
/// changes fastest.
pub open spec fn combination(options: Seq<Seq<SimultaneousView>>, k: nat) -> Seq<PathView>
    decreases options.len(),
{
    if options.len() == 0 {
        Seq::empty()
    } else {
        options[0][(k % options[0].len()) as int].paths + combination(
            options.drop_first(),
            k / options[0].len(),
        )
    }
}

/// All choices of one option per path; none where there are no paths.
pub open spec fn all_combinations(options: Seq<Seq<SimultaneousView>>) -> Seq<SimultaneousView> {
    if options.len() == 0 {
        Seq::empty()
    } else {
        Seq::new(
            combinations(options, options.len()),
            |k: int| SimultaneousView { paths: combination(options, k as nat) },
        )
    }
}

/// The error for too many combinations.
pub open spec fn too_many_combinations(n: nat) -> ErrorView {
    ErrorView {
        kind: ErrorKind::QueryPlanComplexityExceeded,
        message: "Excessive number of combinations for a given path: "@ + decimal(n),
    }
}

/// The choices, unless there are more than a million of them.
pub open spec fn bounded_combinations(options: Seq<Seq<SimultaneousView>>) -> Result<
    Seq<SimultaneousView>,
    ErrorView,
> {
    let n = combinations(options, options.len());
    if options.len() > 0 && n > 1_000_000 {
        Err(too_many_combinations(n))
    } else {
        Ok(all_combinations(options))
    }
}

proof fn lemma_no_options(options: Seq<Seq<SimultaneousView>>, n: nat, i: int)
    requires
        0 <= i < n <= options.len(),
        options[i].len() == 0,
    ensures
        combinations(options, n) == 0,
    decreases n,
{
    if i < n - 1 {
        lemma_no_options(options, (n - 1) as nat, i);
        assert(combinations(options, (n - 1) as nat) * options[n - 1].len() == 0)
            by (nonlinear_arith)
            requires
                combinations(options, (n - 1) as nat) == 0,
        ;
    } else {
        assert(combinations(options, (n - 1) as nat) * options[n - 1].len() == 0)
            by (nonlinear_arith)
            requires
                options[n - 1].len() == 0,
        ;
    }
}

fn count_combinations(options: &Vec<Vec<SimultaneousPaths>>) -> (r: usize)
    ensures
        r == combinations(options.deep_view(), options.deep_view().len()),
        r > 0 ==> forall|i: int|
            0 <= i < options.deep_view().len() ==> (#[trigger] options.deep_view()[i]).len() > 0,
{
    let ghost all = options.deep_view();
    let mut product: usize = 1;
    let mut i: usize = 0;
    while i < options.len()
        invariant
            i <= options.len(),
            all == options.deep_view(),
            product == combinations(all, i as nat),
        decreases options.len() - i,
    {
        assert(all[i as int] == options@[i as int].deep_view());
        product = match product.checked_mul(options[i].len()) {
            Some(larger) => larger,
            None => usize::MAX,
        };
        i += 1;
    }
    proof {
        assert forall|k: int| 0 <= k < all.len() && product > 0 implies (#[trigger] all[k]).len()
            > 0 by {
            if all[k].len() == 0 {
                lemma_no_options(all, all.len(), k);
            }
        }
    }
    product
}

fn choose_combination(options: &Vec<Vec<SimultaneousPaths>>, k: usize) -> (r: SimultaneousPaths)
    requires
        forall|i: int|
            0 <= i < options.deep_view().len() ==> (#[trigger] options.deep_view()[i]).len() > 0,
    ensures
        r.deep_view().paths == combination(options.deep_view(), k as nat),
{
    let ghost all = options.deep_view();
    let mut paths: Vec<OpGraphPath> = Vec::new();
    let mut q: usize = k;
    let mut i: usize = 0;
    assert(all.skip(0) =~= all);
    assert(paths.deep_view() + combination(all, k as nat) =~= combination(all, k as nat));
    while i < options.len()
        invariant
            i <= options.len(),
            all == options.deep_view(),
            forall|j: int| 0 <= j < all.len() ==> (#[trigger] all[j]).len() > 0,
            paths.deep_view() + combination(all.skip(i as int), q as nat) == combination(
                all,
                k as nat,
            ),
        decreases options.len() - i,
    {
        let ghost rest = all.skip(i as int);
        assert(rest[0] == all[i as int]);
        assert(all[i as int] == options@[i as int].deep_view());
        assert(rest.drop_first() =~= all.skip(i + 1));
        let n: usize = options[i].len();
        let c: usize = q % n;
        let chosen = &options[i][c];
        assert(rest[0][c as int] == chosen.deep_view());
        let ghost before = paths.deep_view();
        let mut more = chosen.clone().paths;
        let ghost added = more.deep_view();
        paths.append(&mut more);
        assert(paths.deep_view() =~= before + added);
        q = q / n;
        assert(before + (added + combination(all.skip(i + 1), q as nat)) =~= (before + added)
            + combination(all.skip(i + 1), q as nat));
        i += 1;
    }
    assert(all.skip(i as int).len() == 0);
    assert(paths.deep_view() + Seq::<PathView>::empty() =~= paths.deep_view());
    SimultaneousPaths { paths }
}

impl SimultaneousPaths {
    /// The option that is a single path.
    pub fn from_path(path: OpGraphPath) -> (r: Self)
        ensures
            r.deep_view() == (SimultaneousView { paths: seq![path.deep_view()] }),
    {
        let paths: Vec<OpGraphPath> = vec![path];
        assert(paths.deep_view() =~= seq![path.deep_view()]);
        SimultaneousPaths { paths }
    }

    /// All choices of one option per path. More than a million of them are an error, and the work
    /// may be cancelled from outside.
    pub fn flat_cartesian_product<C: Fn() -> Result<(), FederationError>>(
        options_for_each_path: &Vec<Vec<SimultaneousPaths>>,
        check_cancellation: &C,
    ) -> (r: Result<Vec<SimultaneousPaths>, FederationError>)
        requires
            check_cancellation.requires(()),
        ensures
            match r {
                Ok(_) => result_view(r) == bounded_combinations(
                    options_for_each_path.deep_view(),
                ),
                Err(error) => result_view(r) == bounded_combinations(
                    options_for_each_path.deep_view(),
                ) || may_cancel(*check_cancellation, error),
            },
    {
        let ghost all = options_for_each_path.deep_view();
        let mut product: Vec<SimultaneousPaths> = Vec::new();
        if options_for_each_path.len() == 0 {
            assert(product.deep_view() =~= all_combinations(all));
            return Ok(product);
        }
        let num_options: usize = count_combinations(options_for_each_path);
        if num_options > 1_000_000 {
            let message = joined(
                "Excessive number of combinations for a given path: ",
                &decimal_string(num_options as u128),
            );
            return Err(
                FederationError { kind: ErrorKind::QueryPlanComplexityExceeded, message },
            );
        }
        let mut k: usize = 0;
        while k < num_options
            invariant
                k <= num_options,
                all == options_for_each_path.deep_view(),
                check_cancellation.requires(()),
                num_options > 0 ==> forall|i: int|
                    0 <= i < all.len() ==> (#[trigger] all[i]).len() > 0,
                product@.len() == k,
                forall|j: int|
                    0 <= j < k ==> (#[trigger] product@[j]).deep_view().paths == combination(
                        all,
                        j as nat,
                    ),
            decreases num_options - k,
        {
            match check_cancellation() {
                Ok(_) => {},
                Err(error) => {
                    return Err(error);
                },
            }
            product.push(choose_combination(options_for_each_path, k));
            k += 1;
        }
        assert(product.deep_view() =~= all_combinations(all));
        Ok(product)
    }
}

/// Every path of every choice comes from one of the options that were given.
pub proof fn law_combinations_use_the_options(
    options: Seq<Seq<SimultaneousView>>,
    k: nat,
    p: int,
) -> (found: (int, int))
    requires
        forall|i: int| 0 <= i < options.len() ==> (#[trigger] options[i]).len() > 0,
        0 <= p < combination(options, k).len(),
    ensures
        0 <= found.0 < options.len(),
        0 <= found.1 < options[found.0].len(),
        options[found.0][found.1].paths.contains(combination(options, k)[p]),
    decreases options.len(),
{
    let n = options[0].len();
    let first = options[0][(k % n) as int].paths;
    assert(options[0].len() > 0);
    if p < first.len() {
        assert(combination(options, k)[p] == first[p]);
        (0, (k % n) as int)
    } else {
        let rest = options.drop_first();
        assert forall|i: int| 0 <= i < rest.len() implies (#[trigger] rest[i]).len() > 0 by {
            assert(rest[i] == options[i + 1]);
        }
        assert(combination(options, k)[p] == combination(rest, k / n)[p - first.len()]);
        let (a, b) = law_combinations_use_the_options(rest, k / n, p - first.len());
        assert(rest[a] == options[a + 1]);
        (a + 1, b)
    }
}

/// An option to reach a leaf, with the selections that are fetched as they are from where the
/// paths end.
pub struct ClosedPath {
    pub paths: SimultaneousPaths,
    pub selection_set: Option<SelectionSet>,
}

/// The mathematical content of a [`ClosedPath`].
#[verifier::ext_equal]
pub struct ClosedPathView {
    pub paths: SimultaneousView,
    pub selection_set: Option<SelectionSetView>,
}

impl DeepView for ClosedPath {
    type V = ClosedPathView;

    open spec fn deep_view(&self) -> ClosedPathView {
        ClosedPathView {
            paths: self.paths.deep_view(),
            selection_set: self.selection_set.deep_view(),
        }
    }
}

impl Clone for ClosedPath {
    fn clone(&self) -> (r: Self)
        ensures
            r.deep_view() == self.deep_view(),
    {
        let selection_set = match &self.selection_set {
            Some(set) => Some(set.clone()),
            None => None,
        };
        ClosedPath { paths: self.paths.clone(), selection_set }
    }
}

impl ClosedPath {
    /// The paths, each with the selections at its end.
    pub fn flatten(&self) -> (r: Vec<(&OpGraphPath, Option<&SelectionSet>)>)
        ensures
            r.deep_view() == self.deep_view().paths.paths.map_values(
                |p: PathView| (p, self.deep_view().selection_set),
            ),
    {
        let mut flat: Vec<(&OpGraphPath, Option<&SelectionSet>)> = Vec::new();
        let mut i: usize = 0;
        while i < self.paths.paths.len()
            invariant
                i <= self.paths.paths.len(),
                flat@.len() == i,
                forall|j: int|
                    0 <= j < i ==> (#[trigger] flat@[j]).deep_view() == (
                        self.paths.paths@[j].deep_view(),
                        self.selection_set.deep_view(),
                    ),
            decreases self.paths.paths.len() - i,
        {
            flat.push((&self.paths.paths[i], self.selection_set.as_ref()));
            i += 1;
        }
        assert(flat.deep_view() =~= self.deep_view().paths.paths.map_values(
            |p: PathView| (p, self.deep_view().selection_set),
        ));
        flat
    }
}

/// The options to reach a leaf.
pub struct ClosedBranch(pub Vec<ClosedPath>);

impl DeepView for ClosedBranch {
    type V = Seq<ClosedPathView>;

    open spec fn deep_view(&self) -> Seq<ClosedPathView> {
        self.0.deep_view()
    }
}

/// Compares the option at `i` with those from `j` down to the one behind it: the worse of two
/// options is no longer kept, and an option that is not kept is not compared any more.
pub open spec fn compared_with_others(
    graph: GraphView,
    options: Seq<ClosedPathView>,
    keep: Seq<bool>,
    i: int,
    j: int,
) -> Result<Seq<bool>, ErrorView>
    decreases j + 1,
{
    if j <= i || j < 0 {
        Ok(keep)
    } else if !keep[j] {
        compared_with_others(graph, options, keep, i, j - 1)
    } else {
        match option_comparison(graph, options[i].paths, options[j].paths) {
            Err(error) => Err(error),
            Ok(Comparison::Less) => compared_with_others(
                graph,
                options,
                keep.update(j, false),
                i,
                j - 1,
            ),
            Ok(Comparison::Equal) => compared_with_others(graph, options, keep, i, j - 1),
            Ok(Comparison::Greater) => Ok(keep.update(i, false)),
        }
    }
}

/// Compares each of the options from `i` on with those behind it.
pub open spec fn compared_from(
    graph: GraphView,
    options: Seq<ClosedPathView>,
    keep: Seq<bool>,
    i: int,
) -> Result<Seq<bool>, ErrorView>
    decreases options.len() - i,
{
    if i >= options.len() {
        Ok(keep)
    } else if !keep[i] {
        compared_from(graph, options, keep, i + 1)
    } else {
        match compared_with_others(graph, options, keep, i, options.len() - 1) {
            Err(error) => Err(error),
            Ok(kept) => compared_from(graph, options, kept, i + 1),
        }
    }
}

/// Which options are kept.
pub open spec fn kept_options(graph: GraphView, options: Seq<ClosedPathView>) -> Result<
    Seq<bool>,
    ErrorView,
> {
    compared_from(graph, options, Seq::new(options.len(), |i: int| true), 0)
}

/// The first `n` options as far as they are kept.
pub open spec fn selected(options: Seq<ClosedPathView>, keep: Seq<bool>, n: nat) -> Seq<
    ClosedPathView,
>
    decreases n,
{
    if n == 0 {
        Seq::empty()
    } else if keep[n - 1] {
        selected(options, keep, (n - 1) as nat).push(options[n - 1])
    } else {
        selected(options, keep, (n - 1) as nat)
    }
}

/// The options without those that another one makes superfluous.
pub open spec fn cheaper_options(graph: GraphView, options: Seq<ClosedPathView>) -> Result<
    Seq<ClosedPathView>,
    ErrorView,
> {
    match kept_options(graph, options) {
        Ok(keep) => Ok(selected(options, keep, options.len())),
        Err(error) => Err(error),
    }
}

impl ClosedBranch {
    fn compare_with_others(
        &self,
        graph: &QueryGraph,
        keep_options: &mut Vec<bool>,
        option_index: usize,
    ) -> (r: Result<(), FederationError>)
        requires
            old(keep_options)@.len() == self.deep_view().len(),
            option_index < self.deep_view().len(),
        ensures
            final(keep_options)@.len() == self.deep_view().len(),
            match r {
                Ok(_) => compared_with_others(
                    graph.deep_view(),
                    self.deep_view(),
                    old(keep_options)@,
                    option_index as int,
                    self.deep_view().len() - 1,
                ) == Ok::<Seq<bool>, ErrorView>(final(keep_options)@),
                Err(error) => compared_with_others(
                    graph.deep_view(),
                    self.deep_view(),
                    old(keep_options)@,
                    option_index as int,
                    self.deep_view().len() - 1,
                ) == Err::<Seq<bool>, ErrorView>(error.deep_view()),
            },
    {
        let ghost g = graph.deep_view();
        let ghost options = self.deep_view();
        let ghost expected = compared_with_others(
            g,
            options,
            keep_options@,
            option_index as int,
            options.len() - 1,
        );
        let mut j: usize = self.0.len() - 1;
        while j > option_index
            invariant
                option_index < self.0.len(),
                j < self.0.len(),
                keep_options@.len() == self.0.len(),
                g == graph.deep_view(),
                options == self.deep_view(),
                j >= option_index,
                compared_with_others(g, options, keep_options@, option_index as int, j as int)
                    == expected,
                expected == compared_with_others(
                    g,
                    options,
                    old(keep_options)@,
                    option_index as int,
                    options.len() - 1,
                ),
            decreases j,
        {
            if keep_options[j] {
                assert(options[option_index as int] == self.0@[option_index as int].deep_view());
                assert(options[j as int] == self.0@[j as int].deep_view());
                match self.0[option_index].paths.compare_options_complexity_out_of_context(
                    graph,
                    &self.0[j].paths,
                ) {
                    Ok(Comparison::Less) => {
                        keep_options.set(j, false);
                    },
                    Ok(Comparison::Equal) => {},
                    Ok(Comparison::Greater) => {
                        keep_options.set(option_index, false);
                        return Ok(());
                    },
                    Err(error) => {
                        return Err(error);
                    },
                }
            }
            j -= 1;
        }
        Ok(())
    }

    /// Leaves out the options that another one makes superfluous, whatever the rest of the plan
    /// is.
    pub fn maybe_eliminate_strictly_more_costly_paths(self, graph: &QueryGraph) -> (r: Result<
        ClosedBranch,
        FederationError,
    >)
        ensures
            result_view(r) == cheaper_options(graph.deep_view(), self.deep_view()),
    {
        let ghost g = graph.deep_view();
        let ghost options = self.deep_view();
        let mut keep_options: Vec<bool> = Vec::new();
        let mut k: usize = 0;
        while k < self.0.len()
            invariant
                k <= self.0.len(),
                keep_options@ == Seq::new(k as nat, |i: int| true),
            decreases self.0.len() - k,
        {
            keep_options.push(true);
            assert(keep_options@ =~= Seq::new((k + 1) as nat, |i: int| true));
            k += 1;
        }
        let mut i: usize = 0;
        while i < self.0.len()
            invariant
                i <= self.0.len(),
                g == graph.deep_view(),
                options == self.deep_view(),
                keep_options@.len() == options.len(),
                compared_from(g, options, keep_options@, i as int) == kept_options(g, options),
            decreases self.0.len() - i,
        {
            if keep_options[i] {
                match self.compare_with_others(graph, &mut keep_options, i) {
                    Ok(_) => {},
                    Err(error) => {
                        return Err(error);
                    },
                }
            }
            i += 1;
        }
        let mut kept: Vec<ClosedPath> = Vec::new();
        let mut n: usize = 0;
        let ghost keep = keep_options@;
        assert(kept.deep_view() =~= selected(options, keep, 0));
        while n < self.0.len()
            invariant
                n <= self.0.len(),
                options == self.deep_view(),
                keep == keep_options@,
                keep.len() == options.len(),
                kept.deep_view() == selected(options, keep, n as nat),
            decreases self.0.len() - n,
        {
            let ghost before = kept.deep_view();
            assert(options[n as int] == self.0@[n as int].deep_view());
            if keep_options[n] {
                kept.push(self.0[n].clone());
                assert(kept.deep_view() =~= before.push(options[n as int]));
            }
            n += 1;
        }
        Ok(ClosedBranch(kept))
    }
}

proof fn lemma_one_kept_by_comparison(
    graph: GraphView,
    options: Seq<ClosedPathView>,
    keep: Seq<bool>,
    i: int,
    j: int,
)
    requires
        0 <= i < options.len(),
        j < options.len(),
        keep.len() == options.len(),
        keep[i],
        compared_with_others(graph, options, keep, i, j) is Ok,
    ensures
        ({
            let after = compared_with_others(graph, options, keep, i, j)->Ok_0;
            after.len() == options.len() && after.contains(true)
        }),
    decreases j,
{
    if j <= i {
        assert(keep[i] == true);
    } else if !keep[j] {
        lemma_one_kept_by_comparison(graph, options, keep, i, j - 1);
    } else {
        match option_comparison(graph, options[i].paths, options[j].paths) {
            Ok(Comparison::Less) => {
                lemma_one_kept_by_comparison(graph, options, keep.update(j, false), i, j - 1);
            },
            Ok(Comparison::Greater) => {
                assert(keep.update(i, false)[j] == true);
            },
            _ => {
                lemma_one_kept_by_comparison(graph, options, keep, i, j - 1);
            },
        }
    }
}

proof fn lemma_one_kept(
    graph: GraphView,
    options: Seq<ClosedPathView>,
    keep: Seq<bool>,
    i: int,
)
    requires
        0 <= i,
        keep.len() == options.len(),
        keep.contains(true),
        compared_from(graph, options, keep, i) is Ok,
    ensures
        ({
            let after = compared_from(graph, options, keep, i)->Ok_0;
            after.len() == options.len() && after.contains(true)
        }),
    decreases options.len() - i,
{
    if i < options.len() {
        if !keep[i] {
            lemma_one_kept(graph, options, keep, i + 1);
        } else {
            lemma_one_kept_by_comparison(graph, options, keep, i, options.len() - 1);
            lemma_one_kept(
                graph,
                options,
                compared_with_others(graph, options, keep, i, options.len() - 1)->Ok_0,
                i + 1,
            );
        }
    }
}

proof fn lemma_selected(options: Seq<ClosedPathView>, keep: Seq<bool>, n: nat)
    requires
        n <= options.len(),
        keep.len() == options.len(),
    ensures
        forall|i: int| 0 <= i < n && keep[i] ==> selected(options, keep, n).contains(
            #[trigger] options[i],
        ),
        forall|k: int|
            0 <= k < selected(options, keep, n).len() ==> options.contains(
                #[trigger] selected(options, keep, n)[k],
            ),
    decreases n,
{
    if n > 0 {
        lemma_selected(options, keep, (n - 1) as nat);
        let before = selected(options, keep, (n - 1) as nat);
        let after = selected(options, keep, n);
        if keep[n - 1] {
            assert(after[before.len() as int] == options[n - 1]);
            assert forall|i: int| 0 <= i < n && keep[i] implies after.contains(
                #[trigger] options[i],
            ) by {
                if i < n - 1 {
                    let k = choose|k: int| 0 <= k < before.len() && before[k] == options[i];
                    assert(after[k] == options[i]);
                }
            }
            assert forall|k: int| 0 <= k < after.len() implies options.contains(
                #[trigger] after[k],
            ) by {
                if k < before.len() {
                    assert(after[k] == before[k]);
                }
            }
        }
    }
}

/// Leaving out options never leaves none, and adds none.
pub proof fn law_some_option_is_kept(graph: GraphView, options: Seq<ClosedPathView>)
    requires
        cheaper_options(graph, options) is Ok,
    ensures
        options.len() > 0 ==> cheaper_options(graph, options)->Ok_0.len() > 0,
        forall|k: int|
            0 <= k < cheaper_options(graph, options)->Ok_0.len() ==> options.contains(
                #[trigger] cheaper_options(graph, options)->Ok_0[k],
            ),
{
    let all = Seq::new(options.len(), |i: int| true);
    let keep = kept_options(graph, options)->Ok_0;
    if options.len() > 0 {
        assert(all[0] == true);
        lemma_one_kept(graph, options, all, 0);
        lemma_selected(options, keep, options.len());
        let i = choose|i: int| 0 <= i < keep.len() && keep[i] == true;
        assert(selected(options, keep, options.len()).contains(options[i]));
    } else {
        assert(selected(options, keep, 0).len() == 0);
    }
}

} // verus!
