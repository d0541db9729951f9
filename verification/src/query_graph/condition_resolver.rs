//! Resolving the conditions of edges, with a cache.

use crate::ast::Name;
use crate::ast::Type;
use crate::ast::TypeView;
use crate::collections::clone_keeps_view;
use crate::collections::Entries;
use crate::collections::NameMap;
use crate::error::result_view;
use crate::error::ErrorView;
use crate::error::FederationError;
use crate::operation::selection::SelectionSet;
use crate::operation::selection::SelectionSetView;
use crate::query_graph::edge_weight;
use crate::query_graph::elements::ContextView;
use crate::query_graph::elements::OpGraphPathContext;
use crate::query_graph::GraphView;
use crate::query_graph::QueryGraph;
use crate::text::same;
use crate::text::Text;
use indexmap::IndexSet;
use vstd::prelude::*;

verus! {

/// What a plan costs, as the bits of a floating point number.
#[derive(Clone, Copy, Debug, PartialEq, Eq, Structural)]
pub struct QueryPlanCost {
    pub bits: u64,
}

/// The number of a path tree.
#[derive(Clone, Copy, Debug, PartialEq, Eq, Structural)]
pub struct PathTreeId(pub usize);

/// Where the value of a contextual argument comes from.
pub struct ContextMapEntry {
    pub levels_in_data_path: usize,
    pub levels_in_query_path: usize,
    pub path_tree: Option<PathTreeId>,
    pub selection_set: SelectionSet,
    pub argument_name: Name,
    pub argument_type: Type,
    pub context_id: Name,
}

/// The mathematical content of a [`ContextMapEntry`].
#[verifier::ext_equal]
pub struct ContextMapEntryView {
    pub levels_in_data_path: usize,
    pub levels_in_query_path: usize,
    pub path_tree: Option<PathTreeId>,
    pub selection_set: SelectionSetView,
    pub argument_name: Text,
    pub argument_type: TypeView,
    pub context_id: Text,
}

impl DeepView for ContextMapEntry {
    type V = ContextMapEntryView;

    open spec fn deep_view(&self) -> ContextMapEntryView {
        ContextMapEntryView {
            levels_in_data_path: self.levels_in_data_path,
            levels_in_query_path: self.levels_in_query_path,
            path_tree: self.path_tree,
            selection_set: self.selection_set.deep_view(),
            argument_name: self.argument_name@,
            argument_type: self.argument_type.deep_view(),
            context_id: self.context_id@,
        }
    }
}

impl Clone for ContextMapEntry {
    fn clone(&self) -> (r: Self)
        ensures
            r.deep_view() == self.deep_view(),
    {
        ContextMapEntry {
            levels_in_data_path: self.levels_in_data_path,
            levels_in_query_path: self.levels_in_query_path,
            path_tree: self.path_tree,
            selection_set: self.selection_set.clone(),
            argument_name: self.argument_name.clone(),
            argument_type: self.argument_type.clone(),
            context_id: self.context_id.clone(),
        }
    }
}

/// Why conditions cannot be satisfied.
#[derive(Clone, Copy, Debug, PartialEq, Eq, Structural)]
pub enum UnsatisfiedConditionReason {
    NoPostRequireKey,
    NoSetContext,
}

/// What became of the conditions of an edge.
pub enum ConditionResolution {
    Satisfied {
        cost: QueryPlanCost,
        path_tree: Option<PathTreeId>,
        context_map: Option<NameMap<ContextMapEntry>>,
    },
    Unsatisfied { reason: Option<UnsatisfiedConditionReason> },
}

/// The mathematical content of a [`ConditionResolution`].
#[verifier::ext_equal]
pub enum ResolutionView {
    Satisfied {
        cost: QueryPlanCost,
        path_tree: Option<PathTreeId>,
        context_map: Option<Entries<ContextMapEntryView>>,
    },
    Unsatisfied { reason: Option<UnsatisfiedConditionReason> },
}

impl DeepView for ConditionResolution {
    type V = ResolutionView;

    open spec fn deep_view(&self) -> ResolutionView {
        match self {
            ConditionResolution::Satisfied { cost, path_tree, context_map } => {
                ResolutionView::Satisfied {
                    cost: *cost,
                    path_tree: *path_tree,
                    context_map: context_map.deep_view(),
                }
            },
            ConditionResolution::Unsatisfied { reason } => ResolutionView::Unsatisfied {
                reason: *reason,
            },
        }
    }
}

impl Clone for ConditionResolution {
    fn clone(&self) -> (r: Self)
        ensures
            r.deep_view() == self.deep_view(),
    {
        match self {
            ConditionResolution::Satisfied { cost, path_tree, context_map } => {
                let copied = match context_map {
                    Some(map) => {
                        assert(clone_keeps_view::<ContextMapEntry>());
                        Some(map.clone())
                    },
                    None => None,
                };
                ConditionResolution::Satisfied {
                    cost: *cost,
                    path_tree: *path_tree,
                    context_map: copied,
                }
            },
            ConditionResolution::Unsatisfied { reason } => ConditionResolution::Unsatisfied {
                reason: *reason,
            },
        }
    }
}

/// The resolution of an edge without conditions.
pub open spec fn no_conditions() -> ResolutionView {
    ResolutionView::Satisfied {
        cost: QueryPlanCost { bits: 0 },
        path_tree: None,
        context_map: None,
    }
}

impl ConditionResolution {
    /// The resolution of an edge without conditions.
    pub fn no_conditions() -> (r: Self)
        ensures
            r.deep_view() == no_conditions(),
    {
        ConditionResolution::Satisfied {
            cost: QueryPlanCost { bits: 0 },
            path_tree: None,
            context_map: None,
        }
    }

    /// Conditions that cannot be satisfied.
    pub fn unsatisfied_conditions() -> (r: Self)
        ensures
            r.deep_view() == (ResolutionView::Unsatisfied { reason: None }),
    {
        ConditionResolution::Unsatisfied { reason: None }
    }
}

/// Subgraphs that are not to be entered.
pub struct ExcludedDestinations {
    pub names: Vec<Name>,
}

/// The mathematical content of an [`ExcludedDestinations`].
#[verifier::ext_equal]
pub struct ExcludedDestinationsView {
    pub names: Seq<Text>,
}

impl DeepView for ExcludedDestinations {
    type V = ExcludedDestinationsView;

    open spec fn deep_view(&self) -> ExcludedDestinationsView {
        ExcludedDestinationsView {
            names: self.names.deep_view(),
        }
    }
}

impl Clone for ExcludedDestinations {
    fn clone(&self) -> (r: Self)
        ensures
            r.deep_view() == self.deep_view(),
    {
        let names = self.names.clone();
        assert(names.deep_view() =~= self.names.deep_view());
        ExcludedDestinations {
            names,
        }
    }
}

/// Conditions that are not to be used.
pub struct ExcludedConditions {
    pub conditions: Vec<SelectionSet>,
}

/// The mathematical content of an [`ExcludedConditions`].
#[verifier::ext_equal]
pub struct ExcludedConditionsView {
    pub conditions: Seq<SelectionSetView>,
}

impl DeepView for ExcludedConditions {
    type V = ExcludedConditionsView;

    open spec fn deep_view(&self) -> ExcludedConditionsView {
        ExcludedConditionsView {
            conditions: self.conditions.deep_view(),
        }
    }
}

impl Clone for ExcludedConditions {
    fn clone(&self) -> (r: Self)
        ensures
            r.deep_view() == self.deep_view(),
    {
        let conditions = self.conditions.clone();
        assert(conditions.deep_view() =~= self.conditions.deep_view());
        ExcludedConditions {
            conditions,
        }
    }
}

/// Whether two lists exclude the same subgraphs, whatever their order.
pub open spec fn same_destinations(
    a: ExcludedDestinationsView,
    b: ExcludedDestinationsView,
) -> bool {
    a.names.len() == b.names.len() && forall|i: int|
        0 <= i < a.names.len() ==> b.names.contains(#[trigger] a.names[i])
}

impl ExcludedDestinations {
    /// No subgraphs.
    pub fn new() -> (r: Self)
        ensures
            r.deep_view() == (ExcludedDestinationsView { names: Seq::empty() }),
    {
        let r = ExcludedDestinations { names: Vec::new() };
        assert(r.names.deep_view() =~= Seq::empty());
        r
    }

    /// Whether two lists exclude the same subgraphs, whatever their order.
    pub fn same_as(&self, other: &Self) -> (r: bool)
        ensures
            r == same_destinations(self.deep_view(), other.deep_view()),
    {
        let ghost a = self.names.deep_view();
        let ghost b = other.names.deep_view();
        if self.names.len() != other.names.len() {
            return false;
        }
        let mut i: usize = 0;
        while i < self.names.len()
            invariant
                i <= self.names.len(),
                self.names.len() == other.names.len(),
                a == self.names.deep_view(),
                b == other.names.deep_view(),
                forall|k: int| 0 <= k < i ==> b.contains(#[trigger] a[k]),
            decreases self.names.len() - i,
        {
            let mut found = false;
            let mut j: usize = 0;
            while j < other.names.len()
                invariant
                    j <= other.names.len(),
                    i < self.names.len(),
                    a == self.names.deep_view(),
                    b == other.names.deep_view(),
                    found == exists|k: int| 0 <= k < j && #[trigger] b[k] == a[i as int],
                decreases other.names.len() - j,
            {
                assert(a[i as int] == self.names@[i as int]@);
                assert(b[j as int] == other.names@[j as int]@);
                if same(&self.names[i], &other.names[j]) {
                    found = true;
                }
                j += 1;
            }
            if !found {
                assert(!b.contains(a[i as int]));
                return false;
            }
            i += 1;
        }
        true
    }
}

impl ExcludedConditions {
    /// No conditions.
    pub fn new() -> (r: Self)
        ensures
            r.deep_view() == (ExcludedConditionsView { conditions: Seq::empty() }),
    {
        let r = ExcludedConditions { conditions: Vec::new() };
        assert(r.conditions.deep_view() =~= Seq::empty());
        r
    }

    /// Whether there is no condition.
    pub fn is_empty(&self) -> (r: bool)
        ensures
            r == (self.deep_view().conditions.len() == 0),
    {
        self.conditions.len() == 0
    }
}

/// What a lookup in the cache gives.
pub enum ConditionResolutionCacheResult {
    /// The cached resolution.
    Hit(ConditionResolution),
    /// Nothing is cached; a resolution can be.
    Miss,
    /// The resolution cannot be cached, or another one is cached already.
    NotApplicable,
}

/// The mathematical content of a [`ConditionResolutionCacheResult`].
#[verifier::ext_equal]
pub enum CacheResultView {
    Hit(ResolutionView),
    Miss,
    NotApplicable,
}

impl DeepView for ConditionResolutionCacheResult {
    type V = CacheResultView;

    open spec fn deep_view(&self) -> CacheResultView {
        match self {
            ConditionResolutionCacheResult::Hit(resolution) => CacheResultView::Hit(
                resolution.deep_view(),
            ),
            ConditionResolutionCacheResult::Miss => CacheResultView::Miss,
            ConditionResolutionCacheResult::NotApplicable => CacheResultView::NotApplicable,
        }
    }
}

impl ConditionResolutionCacheResult {
    /// Whether a resolution was cached.
    pub fn is_hit(&self) -> (r: bool)
        ensures
            r == (self.deep_view() is Hit),
    {
        match self {
            ConditionResolutionCacheResult::Hit(_) => true,
            _ => false,
        }
    }

    /// Whether nothing was cached and something can be.
    pub fn is_miss(&self) -> (r: bool)
        ensures
            r == (self.deep_view() is Miss),
    {
        match self {
            ConditionResolutionCacheResult::Miss => true,
            _ => false,
        }
    }
}

/// The edge numbers that an [`IndexSet`] holds, in its order.
pub uninterp spec fn index_set_edges(set: IndexSet<usize>) -> Seq<usize>;

/// `IndexSet::new`: a set without items.
#[verifier::external_body]
fn edge_set_new() -> (set: IndexSet<usize>)
    ensures
        index_set_edges(set) == Seq::<usize>::empty(),
{
    IndexSet::new()
}

/// `IndexSet::insert_full`: an item that is not there goes to the end, one that is there stays
/// where it is. The result is the item's position and whether it is new.
#[verifier::external_body]
fn edge_set_insert_full(set: &mut IndexSet<usize>, value: usize) -> (r: (usize, bool))
    ensures
        r.1 == !index_set_edges(*old(set)).contains(value),
        r.1 ==> r.0 == index_set_edges(*old(set)).len() && index_set_edges(*final(set))
            == index_set_edges(*old(set)).push(value),
        !r.1 ==> r.0 < index_set_edges(*old(set)).len() && index_set_edges(*old(set))[r.0 as int]
            == value && index_set_edges(*final(set)) == index_set_edges(*old(set)),
{
    set.insert_full(value)
}

/// `IndexSet::get_index_of`: the position of an item.
#[verifier::external_body]
fn edge_set_get_index_of(set: &IndexSet<usize>, value: usize) -> (r: Option<usize>)
    ensures
        match r {
            Some(i) => i < index_set_edges(*set).len() && index_set_edges(*set)[i as int] == value,
            None => !index_set_edges(*set).contains(value),
        },
{
    set.get_index_of(&value)
}

/// A cached resolution with the destinations that were excluded when it was made.
pub struct CachedState {
    pub resolution: ConditionResolution,
    pub excluded_destinations: ExcludedDestinations,
}

/// The mathematical content of a [`CachedState`].
#[verifier::ext_equal]
pub struct StateView {
    pub resolution: ResolutionView,
    pub excluded_destinations: ExcludedDestinationsView,
}

impl DeepView for CachedState {
    type V = StateView;

    open spec fn deep_view(&self) -> StateView {
        StateView {
            resolution: self.resolution.deep_view(),
            excluded_destinations: self.excluded_destinations.deep_view(),
        }
    }
}

impl Clone for CachedState {
    fn clone(&self) -> (r: Self)
        ensures
            r.deep_view() == self.deep_view(),
    {
        CachedState {
            resolution: self.resolution.clone(),
            excluded_destinations: self.excluded_destinations.clone(),
        }
    }
}

/// What a cache holds for each edge.
pub type CacheView = Map<usize, StateView>;

struct CacheRepr {
    edges: IndexSet<usize>,
    states: Vec<CachedState>,
}

impl CacheRepr {
    spec fn wf(self) -> bool {
        &&& index_set_edges(self.edges).len() == self.states@.len()
        &&& index_set_edges(self.edges).no_duplicates()
    }

    fn empty() -> (r: Self)
        ensures
            r.wf(),
            index_set_edges(r.edges) == Seq::<usize>::empty(),
            r.states@ == Seq::<CachedState>::empty(),
    {
        CacheRepr { edges: edge_set_new(), states: Vec::new() }
    }
}

/// The resolutions of edges that were met before.
pub struct ConditionResolverCache {
    repr: CacheRepr,
}

impl DeepView for ConditionResolverCache {
    type V = CacheView;

    closed spec fn deep_view(&self) -> CacheView {
        Map::new(
            |edge: usize| index_set_edges(self.repr.edges).contains(edge),
            |edge: usize|
                self.repr.states@[index_set_edges(self.repr.edges).index_of(edge)].deep_view(),
        )
    }
}

/// What a lookup gives: nothing is cached where there are extra conditions, a context or excluded
/// conditions, and a cached resolution counts only for the destinations that it was made with.
pub open spec fn lookup(
    cache: CacheView,
    edge: usize,
    context: ContextView,
    excluded_destinations: ExcludedDestinationsView,
    excluded_conditions: ExcludedConditionsView,
    extra_conditions: Option<SelectionSetView>,
) -> CacheResultView {
    if extra_conditions is Some || context.conditionals.len() > 0
        || excluded_conditions.conditions.len() > 0 {
        CacheResultView::NotApplicable
    } else if !cache.dom().contains(edge) {
        CacheResultView::Miss
    } else if same_destinations(cache[edge].excluded_destinations, excluded_destinations) {
        CacheResultView::Hit(cache[edge].resolution)
    } else {
        CacheResultView::NotApplicable
    }
}

impl ConditionResolverCache {
    #[verifier::type_invariant]
    spec fn inv(self) -> bool {
        self.repr.wf()
    }

    /// An empty cache.
    pub fn new() -> (r: Self)
        ensures
            r.deep_view() == Map::<usize, StateView>::empty(),
    {
        let r = ConditionResolverCache { repr: CacheRepr::empty() };
        assert(r.deep_view() =~= Map::<usize, StateView>::empty());
        r
    }

    /// Looks up the resolution of an edge.
    pub fn contains(
        &self,
        edge: usize,
        context: &OpGraphPathContext,
        excluded_destinations: &ExcludedDestinations,
        excluded_conditions: &ExcludedConditions,
        extra_conditions: Option<&SelectionSet>,
    ) -> (r: ConditionResolutionCacheResult)
        ensures
            r.deep_view() == lookup(
                self.deep_view(),
                edge,
                context.deep_view(),
                excluded_destinations.deep_view(),
                excluded_conditions.deep_view(),
                extra_conditions.deep_view(),
            ),
    {
        proof {
            use_type_invariant(self);
        }
        if extra_conditions.is_some() {
            return ConditionResolutionCacheResult::NotApplicable;
        }
        if !context.is_empty() || !excluded_conditions.is_empty() {
            return ConditionResolutionCacheResult::NotApplicable;
        }
        match edge_set_get_index_of(&self.repr.edges, edge) {
            Some(i) => {
                let ghost edges = index_set_edges(self.repr.edges);
                assert(edges.contains(edge));
                assert(edges.index_of(edge) == i);
                let state = &self.repr.states[i];
                assert(self.deep_view()[edge] == state.deep_view());
                if state.excluded_destinations.same_as(excluded_destinations) {
                    ConditionResolutionCacheResult::Hit(state.resolution.clone())
                } else {
                    ConditionResolutionCacheResult::NotApplicable
                }
            },
            None => ConditionResolutionCacheResult::Miss,
        }
    }

    /// Caches the resolution of an edge.
    pub fn insert(
        &mut self,
        edge: usize,
        resolution: ConditionResolution,
        excluded_destinations: ExcludedDestinations,
    )
        ensures
            final(self).deep_view() == old(self).deep_view().insert(
                edge,
                StateView {
                    resolution: resolution.deep_view(),
                    excluded_destinations: excluded_destinations.deep_view(),
                },
            ),
    {
        proof {
            use_type_invariant(&*self);
        }
        let ghost before = index_set_edges(self.repr.edges);
        let state = CachedState { resolution, excluded_destinations };
        let mut repr = CacheRepr::empty();
        std::mem::swap(&mut repr, &mut self.repr);
        let (i, fresh) = edge_set_insert_full(&mut repr.edges, edge);
        if fresh {
            repr.states.push(state);
        } else {
            repr.states.set(i, state);
        }
        std::mem::swap(&mut repr, &mut self.repr);
        let ghost after = index_set_edges(self.repr.edges);
        proof {
            assert(after[i as int] == edge);
            assert(after.index_of(edge) == i);
            assert forall|e: usize| after.contains(e) == (e == edge || before.contains(e)) by {
                if before.contains(e) {
                    let k = before.index_of(e);
                    assert(after[k] == e);
                }
            }
            assert forall|e: usize| before.contains(e) implies after.index_of(e)
                == before.index_of(e) by {
                let k = before.index_of(e);
                assert(before[k] == e);
                assert(after[k] == e);
            }
        }
        assert(self.deep_view() =~= old(self).deep_view().insert(edge, state.deep_view()));
    }
}

/// What resolving with the cache gives: the cached resolution, or the one made without cache.
pub open spec fn resolved(found: CacheResultView, uncached: Result<ResolutionView, ErrorView>) -> Result<
    ResolutionView,
    ErrorView,
> {
    match found {
        CacheResultView::Hit(resolution) => Ok(resolution),
        _ => uncached,
    }
}

/// The cache after resolving with it: a resolution that was made is kept where nothing was cached
/// and it can be.
pub open spec fn cache_after(
    cache: CacheView,
    found: CacheResultView,
    uncached: Result<ResolutionView, ErrorView>,
    edge: usize,
    excluded_destinations: ExcludedDestinationsView,
) -> CacheView {
    match (found, uncached) {
        (CacheResultView::Miss, Ok(resolution)) => cache.insert(
            edge,
            StateView { resolution, excluded_destinations },
        ),
        _ => cache,
    }
}

/// A resolver of conditions that caches what it found for each edge.
pub trait CachingConditionResolver: Sized {
    /// What the cache holds.
    spec fn cache_content(&self) -> CacheView;

    /// The graph whose edges are resolved.
    spec fn graph_content(&self) -> GraphView;

    /// What resolving without the cache gives.
    spec fn uncached(
        &self,
        edge: usize,
        context: ContextView,
        excluded_destinations: ExcludedDestinationsView,
        excluded_conditions: ExcludedConditionsView,
        extra_conditions: Option<SelectionSetView>,
    ) -> Result<ResolutionView, ErrorView>;

    /// The graph whose edges are resolved.
    fn query_graph(&self) -> (r: &QueryGraph)
        ensures
            r.deep_view() == self.graph_content(),
    ;

    /// Resolves the conditions of an edge without the cache.
    fn resolve_without_cache(
        &self,
        edge: usize,
        context: &OpGraphPathContext,
        excluded_destinations: &ExcludedDestinations,
        excluded_conditions: &ExcludedConditions,
        extra_conditions: Option<&SelectionSet>,
    ) -> (r: Result<ConditionResolution, FederationError>)
        ensures
            result_view(r) == self.uncached(
                edge,
                context.deep_view(),
                excluded_destinations.deep_view(),
                excluded_conditions.deep_view(),
                extra_conditions.deep_view(),
            ),
    ;

    /// The cache. What is found without it does not depend on it.
    fn resolver_cache(&mut self) -> (r: &mut ConditionResolverCache)
        ensures
            (*r).deep_view() == old(self).cache_content(),
            final(self).cache_content() == (*final(r)).deep_view(),
            final(self).graph_content() == old(self).graph_content(),
            forall|
                edge: usize,
                context: ContextView,
                excluded_destinations: ExcludedDestinationsView,
                excluded_conditions: ExcludedConditionsView,
                extra_conditions: Option<SelectionSetView>,
            | #[trigger]
                final(self).uncached(
                    edge,
                    context,
                    excluded_destinations,
                    excluded_conditions,
                    extra_conditions,
                ) == old(self).uncached(
                    edge,
                    context,
                    excluded_destinations,
                    excluded_conditions,
                    extra_conditions,
                ),
    ;

    /// Resolves the conditions of an edge with the cache.
    fn resolve_with_cache(
        &mut self,
        edge: usize,
        context: &OpGraphPathContext,
        excluded_destinations: &ExcludedDestinations,
        excluded_conditions: &ExcludedConditions,
        extra_conditions: Option<&SelectionSet>,
    ) -> (r: Result<ConditionResolution, FederationError>)
        ensures
            ({
                let found = lookup(
                    old(self).cache_content(),
                    edge,
                    context.deep_view(),
                    excluded_destinations.deep_view(),
                    excluded_conditions.deep_view(),
                    extra_conditions.deep_view(),
                );
                let uncached = old(self).uncached(
                    edge,
                    context.deep_view(),
                    excluded_destinations.deep_view(),
                    excluded_conditions.deep_view(),
                    extra_conditions.deep_view(),
                );
                &&& result_view(r) == resolved(found, uncached)
                &&& final(self).cache_content() == cache_after(
                    old(self).cache_content(),
                    found,
                    uncached,
                    edge,
                    excluded_destinations.deep_view(),
                )
            }),
            final(self).graph_content() == old(self).graph_content(),
            forall|
                edge: usize,
                context: ContextView,
                excluded_destinations: ExcludedDestinationsView,
                excluded_conditions: ExcludedConditionsView,
                extra_conditions: Option<SelectionSetView>,
            | #[trigger]
                final(self).uncached(
                    edge,
                    context,
                    excluded_destinations,
                    excluded_conditions,
                    extra_conditions,
                ) == old(self).uncached(
                    edge,
                    context,
                    excluded_destinations,
                    excluded_conditions,
                    extra_conditions,
                ),
    {
        let cache_result = self.resolver_cache().contains(
            edge,
            context,
            excluded_destinations,
            excluded_conditions,
            extra_conditions,
        );
        if let ConditionResolutionCacheResult::Hit(cached_resolution) = cache_result {
            return Ok(cached_resolution);
        }
        let resolution = match self.resolve_without_cache(
            edge,
            context,
            excluded_destinations,
            excluded_conditions,
            extra_conditions,
        ) {
            Ok(resolution) => resolution,
            Err(error) => {
                return Err(error);
            },
        };
        if cache_result.is_miss() {
            self.resolver_cache().insert(edge, resolution.clone(), excluded_destinations.clone());
        }
        Ok(resolution)
    }

    /// Resolves the conditions of an edge, which has some.
    fn resolve(
        &mut self,
        edge: usize,
        context: &OpGraphPathContext,
        excluded_destinations: &ExcludedDestinations,
        excluded_conditions: &ExcludedConditions,
        extra_conditions: Option<&SelectionSet>,
    ) -> (r: Result<ConditionResolution, FederationError>)
        requires
            edge_weight(old(self).graph_content(), edge) matches Ok(weight) ==> weight.conditions
                is Some || extra_conditions is Some,
        ensures
            result_view(r) == (match edge_weight(old(self).graph_content(), edge) {
                Err(error) => Err(error),
                Ok(_) => resolved(
                    lookup(
                        old(self).cache_content(),
                        edge,
                        context.deep_view(),
                        excluded_destinations.deep_view(),
                        excluded_conditions.deep_view(),
                        extra_conditions.deep_view(),
                    ),
                    old(self).uncached(
                        edge,
                        context.deep_view(),
                        excluded_destinations.deep_view(),
                        excluded_conditions.deep_view(),
                        extra_conditions.deep_view(),
                    ),
                ),
            }),
            final(self).cache_content() == (match edge_weight(old(self).graph_content(), edge) {
                Err(_) => old(self).cache_content(),
                Ok(_) => cache_after(
                    old(self).cache_content(),
                    lookup(
                        old(self).cache_content(),
                        edge,
                        context.deep_view(),
                        excluded_destinations.deep_view(),
                        excluded_conditions.deep_view(),
                        extra_conditions.deep_view(),
                    ),
                    old(self).uncached(
                        edge,
                        context.deep_view(),
                        excluded_destinations.deep_view(),
                        excluded_conditions.deep_view(),
                        extra_conditions.deep_view(),
                    ),
                    edge,
                    excluded_destinations.deep_view(),
                ),
            }),
            final(self).graph_content() == old(self).graph_content(),
            forall|
                edge: usize,
                context: ContextView,
                excluded_destinations: ExcludedDestinationsView,
                excluded_conditions: ExcludedConditionsView,
                extra_conditions: Option<SelectionSetView>,
            | #[trigger]
                final(self).uncached(
                    edge,
                    context,
                    excluded_destinations,
                    excluded_conditions,
                    extra_conditions,
                ) == old(self).uncached(
                    edge,
                    context,
                    excluded_destinations,
                    excluded_conditions,
                    extra_conditions,
                ),
    {
        if let Err(error) = self.query_graph().edge_weight(edge) {
            return Err(error);
        }
        self.resolve_with_cache(
            edge,
            context,
            excluded_destinations,
            excluded_conditions,
            extra_conditions,
        )
    }
}

/// A resolution that was cached is found again for the same excluded destinations, and what was
/// cached for other edges stays.
pub proof fn law_cached_resolution_is_found(
    cache: CacheView,
    edge: usize,
    other: usize,
    state: StateView,
    excluded_destinations: ExcludedDestinationsView,
)
    ensures
        ({
            let none = ContextView { conditionals: Seq::empty() };
            let all = ExcludedConditionsView { conditions: Seq::empty() };
            let after = cache.insert(edge, state);
            &&& same_destinations(state.excluded_destinations, excluded_destinations) ==> lookup(
                after,
                edge,
                none,
                excluded_destinations,
                all,
                None,
            ) == CacheResultView::Hit(state.resolution)
            &&& other != edge ==> lookup(after, other, none, excluded_destinations, all, None)
                == lookup(cache, other, none, excluded_destinations, all, None)
        }),
{
}

/// A cached resolution is never used under a context, under excluded conditions or with extra
/// conditions.
pub proof fn law_cache_is_bypassed(
    cache: CacheView,
    edge: usize,
    context: ContextView,
    excluded_destinations: ExcludedDestinationsView,
    excluded_conditions: ExcludedConditionsView,
    extra_conditions: Option<SelectionSetView>,
)
    requires
        context.conditionals.len() > 0 || excluded_conditions.conditions.len() > 0
            || extra_conditions is Some,
    ensures
        lookup(
            cache,
            edge,
            context,
            excluded_destinations,
            excluded_conditions,
            extra_conditions,
        ) is NotApplicable,
{
}

} // verus!
