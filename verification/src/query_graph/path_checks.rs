//! Questions about single paths that decide how they are gone on with.

use crate::ast::inner_name;
use crate::ast::FieldDefinition;
use crate::ast::FieldView;
use crate::collections::has_key;
use crate::collections::value_of;
use crate::collections::Entries;
use crate::collections::NameMap;
use crate::error::internal_error;
use crate::error::result_view;
use crate::error::ErrorView;
use crate::error::FederationError;
use crate::merge::directives::has_directive;
use crate::merge::directives::is_applied;
use crate::operation::field_is_leaf;
use crate::operation::next_id;
use crate::operation::selection::contains_field;
use crate::operation::selection::sets_match;
use crate::operation::selection::SelectionSet;
use crate::operation::selection::SelectionSetView;
use crate::operation::Field;
use crate::operation::FieldElementView;
use crate::query_graph::advanced_runtime_types;
use crate::query_graph::edge_weight;
use crate::query_graph::graph_path::common_length;
use crate::query_graph::graph_path::new_path;
use crate::query_graph::graph_path::node_runtime_types;
use crate::query_graph::graph_path::well_formed;
use crate::query_graph::graph_path::OpGraphPath;
use crate::query_graph::graph_path::PathView;
use crate::query_graph::graph_path::SimultaneousPaths;
use crate::query_graph::graph_path::SimultaneousView;
use crate::query_graph::node_weight;
use crate::query_graph::source_of;
use crate::query_graph::EdgeView;
use crate::query_graph::GraphView;
use crate::query_graph::NodeTypeView;
use crate::query_graph::NodeView;
use crate::query_graph::QueryGraph;
use crate::query_graph::QueryGraphEdge;
use crate::query_graph::QueryGraphEdgeTransition;
use crate::query_graph::QueryGraphNode;
use crate::query_graph::QueryGraphNodeType;
use crate::query_graph::SourceView;
use crate::query_graph::SubgraphSource;
use crate::query_graph::TransitionView;
use crate::query_plan::compute::node_type_text;
use crate::schema::position::field_definition;
use crate::schema::position::missing_type;
use crate::schema::position::position_name;
use crate::schema::position::runtime_types;
use crate::schema::position::CompositeTypeDefinitionPosition;
use crate::schema::position::CompositeView;
use crate::schema::position::TypeDefinitionPosition;
use crate::schema::ExtendedType;
use crate::schema::ExtendedTypeView;
use crate::schema::Schema;
use crate::schema::SchemaView;
use crate::text::joined3;
use crate::text::same;
use crate::text::Text;
use vstd::prelude::*;


verus! {

/// What going through the first steps of a path shows: the object types at their end, and the last
/// step that is no cast with the object types behind it.
#[verifier::ext_equal]
pub struct Scanned {
    pub types: Seq<Text>,
    pub last: Option<(nat, Seq<Text>)>,
}

/// Goes through the first `n` steps.
pub open spec fn scanned(
    graph: GraphView,
    edges: Seq<Option<usize>>,
    start: Seq<Text>,
    n: nat,
) -> Result<Scanned, ErrorView>
    decreases n,
{
    if n == 0 {
        Ok(Scanned { types: start, last: None })
    } else {
        match scanned(graph, edges, start, (n - 1) as nat) {
            Err(error) => Err(error),
            Ok(before) => match advanced_runtime_types(graph, before.types, edges[n - 1]) {
                Err(error) => Err(error),
                Ok(types) => match edges[n - 1] {
                    None => Ok(Scanned { types, last: before.last }),
                    Some(edge) => match edge_weight(graph, edge) {
                        Err(error) => Err(error),
                        Ok(weight) => Ok(
                            if weight.transition is Downcast {
                                Scanned { types, last: before.last }
                            } else {
                                Scanned { types, last: Some(((n - 1) as nat, types)) }
                            },
                        ),
                    },
                },
            },
        }
    }
}

/// The first steps of a path, which end at the given node.
pub open spec fn cut(path: PathView, length: int, tail: usize, types: Seq<Text>) -> PathView {
    PathView {
        tail,
        edges: path.edges.take(length),
        edge_triggers: path.edge_triggers.take(length),
        edge_conditions: path.edge_conditions.take(length),
        runtime_types_of_tail: types,
        runtime_types_before_tail_if_last_is_cast: None,
        matching_context_ids: path.matching_context_ids.take(length),
        arguments_to_context_usages: path.arguments_to_context_usages.take(length),
        ..path
    }
}

/// The path without the casts and the steps without edge at its end.
pub open spec fn truncated(graph: GraphView, path: PathView) -> Result<PathView, ErrorView> {
    match node_runtime_types(graph, path.head) {
        Err(error) => Err(error),
        Ok(start) => match scanned(graph, path.edges, start, path.edges.len()) {
            Err(error) => Err(error),
            Ok(seen) => match seen.last {
                None => new_path(graph, path.head),
                Some((index, types)) => if index + 1 == path.edges.len() {
                    Ok(path)
                } else {
                    match edge_weight(graph, path.edges[index as int]->0) {
                        Err(error) => Err(error),
                        Ok(weight) => Ok(cut(path, index as int + 1, weight.tail, types)),
                    }
                },
            },
        },
    }
}

proof fn lemma_scan_error(
    graph: GraphView,
    edges: Seq<Option<usize>>,
    start: Seq<Text>,
    n: nat,
)
    requires
        n <= edges.len(),
        scanned(graph, edges, start, n) is Err,
    ensures
        scanned(graph, edges, start, edges.len()) == scanned(graph, edges, start, n),
    decreases edges.len() - n,
{
    if n < edges.len() {
        lemma_scan_error(graph, edges, start, n + 1);
    }
}

fn take_copied<T: Copy>(items: &Vec<T>, n: usize) -> (r: Vec<T>)
    requires
        n <= items@.len(),
    ensures
        r@ == items@.take(n as int),
{
    let mut r: Vec<T> = Vec::new();
    let mut i: usize = 0;
    while i < n
        invariant
            i <= n <= items@.len(),
            r@ == items@.take(i as int),
        decreases n - i,
    {
        r.push(items[i]);
        assert(items@.take(i + 1) =~= items@.take(i as int).push(items@[i as int]));
        i += 1;
    }
    r
}

impl OpGraphPath {
    /// The path without the casts and the steps without edge at its end.
    pub fn truncate_trailing_downcasts(&self, graph: &QueryGraph) -> (r: Result<
        OpGraphPath,
        FederationError,
    >)
        requires
            well_formed(self.deep_view()),
        ensures
            result_view(r) == truncated(graph.deep_view(), self.deep_view()),
            r matches Ok(path) ==> well_formed(path.deep_view()),
    {
        let ghost g = graph.deep_view();
        let start = match OpGraphPath::new(graph, self.head) {
            Ok(path) => path,
            Err(error) => {
                return Err(error);
            },
        };
        let ghost start_types = start.deep_view().runtime_types_of_tail;
        let mut runtime_types = start.runtime_types_of_tail.clone();
        let mut last_edge: Option<(usize, usize)> = None;
        let mut last_runtime_types = runtime_types.clone();
        let mut i: usize = 0;
        while i < self.edges.len()
            invariant
                i <= self.edges.len(),
                g == graph.deep_view(),
                node_runtime_types(g, self.head) == Ok::<Seq<Text>, ErrorView>(start_types),
                ({
                    let seen = scanned(g, self.edges@, start_types, i as nat);
                    &&& seen is Ok
                    &&& seen->Ok_0.types == runtime_types.deep_view()
                    &&& match last_edge {
                        None => seen->Ok_0.last is None,
                        Some((index, edge)) => {
                            &&& index < i
                            &&& self.edges@[index as int] == Some(edge)
                            &&& seen->Ok_0.last == Some(
                                (index as nat, last_runtime_types.deep_view()),
                            )
                        },
                    }
                }),
            decreases self.edges.len() - i,
        {
            match graph.advance_possible_runtime_types(&runtime_types, self.edges[i]) {
                Ok(types) => {
                    runtime_types = types;
                },
                Err(error) => {
                    proof {
                        lemma_scan_error(g, self.edges@, start_types, i as nat + 1);
                    }
                    return Err(error);
                },
            }
            if let Some(edge) = self.edges[i] {
                match graph.edge_weight(edge) {
                    Ok(weight) => {
                        let is_downcast = match &weight.transition {
                            QueryGraphEdgeTransition::Downcast { .. } => true,
                            _ => false,
                        };
                        if !is_downcast {
                            last_edge = Some((i, edge));
                            last_runtime_types = runtime_types.clone();
                        }
                    },
                    Err(error) => {
                        proof {
                            lemma_scan_error(g, self.edges@, start_types, i as nat + 1);
                        }
                        return Err(error);
                    },
                }
            }
            i += 1;
        }
        let (last_edge_index, edge): (usize, usize) = match last_edge {
            None => {
                return OpGraphPath::new(graph, self.head);
            },
            Some(last) => last,
        };
        let prefix_length: usize = last_edge_index + 1;
        if prefix_length == self.edges.len() {
            return Ok(self.clone());
        }
        let last_edge_tail: usize = match graph.edge_weight(edge) {
            Ok(weight) => weight.tail,
            Err(error) => {
                return Err(error);
            },
        };
        let mut r = self.clone();
        let ghost whole = r.deep_view();
        r.tail = last_edge_tail;
        r.edges = take_copied(&self.edges, prefix_length);
        r.edge_triggers.truncate(prefix_length);
        r.edge_conditions = take_copied(&self.edge_conditions, prefix_length);
        r.runtime_types_of_tail = last_runtime_types;
        r.runtime_types_before_tail_if_last_is_cast = None;
        r.matching_context_ids.truncate(prefix_length);
        r.arguments_to_context_usages.truncate(prefix_length);
        proof {
            let n = prefix_length as int;
            assert(r.edge_triggers.deep_view() =~= whole.edge_triggers.take(n));
            assert(r.matching_context_ids.deep_view() =~= whole.matching_context_ids.take(n));
            assert(r.arguments_to_context_usages.deep_view()
                =~= whole.arguments_to_context_usages.take(n));
        }
        Ok(r)
    }
}

/// Whether two conditions are the same.
pub open spec fn conditions_match(a: Option<SelectionSetView>, b: Option<SelectionSetView>) -> bool {
    match (a, b) {
        (Some(x), Some(y)) => sets_match(x, y),
        (None, None) => true,
        _ => false,
    }
}

/// Whether a step casts an interface.
pub open spec fn casts_interface(weight: EdgeView) -> bool {
    match weight.transition {
        TransitionView::Downcast { source, from_type_position, to_type_position } => {
            from_type_position is Interface
        },
        _ => false,
    }
}

/// Whether `b` is `a` with one more step: a cast of an interface before a key is taken to the same
/// node with the same conditions.
pub open spec fn explodes_to(graph: GraphView, a: PathView, b: PathView) -> Result<bool, ErrorView> {
    let d = common_length(a.edges, b.edges);
    if !(a.head == b.head && a.tail == b.tail && a.edges.len() + 1 == b.edges.len()) || d
        >= a.edges.len() {
        Ok(false)
    } else {
        match (a.edges[d as int], b.edges[d as int]) {
            (Some(own), Some(cast)) => match edge_weight(graph, cast) {
                Err(error) => Err(error),
                Ok(cast_weight) => if !casts_interface(cast_weight) {
                    Ok(false)
                } else {
                    match b.edges[d as int + 1] {
                        None => Ok(false),
                        Some(next) => same_key(graph, a, b, d as int, own, next),
                    }
                },
            },
            _ => Ok(false),
        }
    }
}

/// Whether the two edges take the same key, and the paths are the same behind them.
pub open spec fn same_key(
    graph: GraphView,
    a: PathView,
    b: PathView,
    d: int,
    own: usize,
    next: usize,
) -> Result<bool, ErrorView> {
    match edge_weight(graph, own) {
        Err(error) => Err(error),
        Ok(own_weight) => match edge_weight(graph, next) {
            Err(error) => Err(error),
            Ok(next_weight) => Ok(
                own_weight.transition is KeyResolution && next_weight.transition is KeyResolution
                    && own_weight.tail == next_weight.tail && conditions_match(
                    own_weight.conditions,
                    next_weight.conditions,
                ) && a.edges.skip(d + 1) == b.edges.skip(d + 2),
            ),
        },
    }
}

fn is_key_resolution(weight: &QueryGraphEdge) -> (r: bool)
    ensures
        r == (weight.deep_view().transition is KeyResolution),
{
    match &weight.transition {
        QueryGraphEdgeTransition::KeyResolution => true,
        _ => false,
    }
}

fn same_conditions(a: &Option<SelectionSet>, b: &Option<SelectionSet>) -> (r: bool)
    ensures
        r == conditions_match(a.deep_view(), b.deep_view()),
{
    match (a, b) {
        (Some(x), Some(y)) => x.same_as(y),
        (None, None) => true,
        _ => false,
    }
}

impl OpGraphPath {
    /// Whether `other` is this path with one more step: a cast of an interface before the same key
    /// is taken.
    pub fn is_equivalent_save_for_type_explosion_to(
        &self,
        graph: &QueryGraph,
        other: &OpGraphPath,
    ) -> (r: Result<bool, FederationError>)
        ensures
            result_view(r) == explodes_to(
                graph.deep_view(),
                self.deep_view(),
                other.deep_view(),
            ),
    {
        if self.head != other.head || self.tail != other.tail || other.edges.len() == 0
            || self.edges.len() != other.edges.len() - 1 {
            return Ok(false);
        }
        let diff_pos: usize = match self.find_longest_common_prefix_length(other) {
            Ok(n) => n,
            Err(error) => {
                return Err(error);
            },
        };
        if diff_pos >= self.edges.len() {
            return Ok(false);
        }
        let (own, cast): (usize, usize) = match (self.edges[diff_pos], other.edges[diff_pos]) {
            (Some(own), Some(cast)) => (own, cast),
            _ => {
                return Ok(false);
            },
        };
        let cast_weight = match graph.edge_weight(cast) {
            Ok(weight) => weight,
            Err(error) => {
                return Err(error);
            },
        };
        let casts = match &cast_weight.transition {
            QueryGraphEdgeTransition::Downcast {
                source: _,
                from_type_position: CompositeTypeDefinitionPosition::Interface(_),
                to_type_position: _,
            } => true,
            _ => false,
        };
        if !casts {
            return Ok(false);
        }
        let next: usize = match other.edges[diff_pos + 1] {
            Some(next) => next,
            None => {
                return Ok(false);
            },
        };
        let own_weight = match graph.edge_weight(own) {
            Ok(weight) => weight,
            Err(error) => {
                return Err(error);
            },
        };
        let next_weight = match graph.edge_weight(next) {
            Ok(weight) => weight,
            Err(error) => {
                return Err(error);
            },
        };
        if !(is_key_resolution(own_weight) && is_key_resolution(next_weight) && own_weight.tail
            == next_weight.tail && same_conditions(
            &own_weight.conditions,
            &next_weight.conditions,
        )) {
            return Ok(false);
        }
        let ghost a = self.edges@.skip(diff_pos + 1);
        let ghost b = other.edges@.skip(diff_pos + 2);
        let mut i: usize = diff_pos + 1;
        while i < self.edges.len()
            invariant
                diff_pos + 1 <= i <= self.edges.len(),
                self.edges.len() + 1 == other.edges.len(),
                a == self.edges@.skip(diff_pos + 1),
                b == other.edges@.skip(diff_pos + 2),
                forall|j: int| 0 <= j < i - diff_pos - 1 ==> a[j] == b[j],
                explodes_to(graph.deep_view(), self.deep_view(), other.deep_view()) == Ok::<
                    bool,
                    ErrorView,
                >(a == b),
            decreases self.edges.len() - i,
        {
            if self.edges[i] != other.edges[i + 1] {
                assert(a[i - diff_pos - 1] != b[i - diff_pos - 1]);
                return Ok(false);
            }
            i += 1;
        }
        assert(a =~= b);
        Ok(true)
    }
}

/// The names with one more, unless it is there.
pub open spec fn ids_with(ids: Seq<usize>, id: usize) -> Seq<usize> {
    if ids.contains(id) {
        ids
    } else {
        ids.push(id)
    }
}

/// A path that is overridden by the one with the given number.
pub open spec fn overridden(path: PathView, id: usize) -> PathView {
    PathView { overriding_path_ids: ids_with(path.overriding_path_ids, id), ..path }
}

/// An option that is overridden by the path with the given number.
pub open spec fn option_overridden(option: SimultaneousView, id: usize) -> SimultaneousView {
    SimultaneousView { paths: option.paths.map_values(|p: PathView| overridden(p, id)) }
}

/// A path that overrides others under the given number.
pub open spec fn overriding(path: PathView, id: usize) -> PathView {
    PathView { own_path_ids: ids_with(path.overriding_path_ids, id), ..path }
}

fn add_id(ids: &mut Vec<usize>, id: usize)
    ensures
        final(ids)@ == ids_with(old(ids)@, id),
{
    let mut i: usize = 0;
    while i < ids.len()
        invariant
            i <= ids.len(),
            ids@ == old(ids)@,
            forall|j: int| 0 <= j < i ==> ids@[j] != id,
        decreases ids.len() - i,
    {
        if ids[i] == id {
            assert(old(ids)@.contains(id));
            return;
        }
        i += 1;
    }
    ids.push(id);
}

/// Hands out the numbers under which paths override others.
pub struct OverrideIdCounter {
    pub next: usize,
}

impl OverrideIdCounter {
    /// A counter at its start.
    pub fn new() -> (r: Self)
        ensures
            r.next == 0,
    {
        OverrideIdCounter { next: 0 }
    }
}

impl OpGraphPath {
    /// Notes that this path overrides some options: it gets the next number, and their paths note
    /// that number.
    pub fn mark_overriding(&self, others: &Vec<SimultaneousPaths>, ids: &mut OverrideIdCounter) -> (r: (
        OpGraphPath,
        Vec<SimultaneousPaths>,
    ))
        ensures
            r.0.deep_view() == overriding(self.deep_view(), old(ids).next),
            r.1.deep_view() == others.deep_view().map_values(
                |o: SimultaneousView| option_overridden(o, old(ids).next),
            ),
            final(ids).next == next_id(old(ids).next),
    {
        let new_id: usize = ids.next;
        if ids.next == usize::MAX {
            ids.next = 0;
        } else {
            ids.next = ids.next + 1;
        }
        let mut new_own_path_ids = take_copied(&self.overriding_path_ids, self.overriding_path_ids.len());
        assert(new_own_path_ids@ =~= self.overriding_path_ids@);
        add_id(&mut new_own_path_ids, new_id);
        let mut new_self = self.clone();
        new_self.own_path_ids = new_own_path_ids;
        let mut new_others: Vec<SimultaneousPaths> = Vec::new();
        let mut i: usize = 0;
        while i < others.len()
            invariant
                i <= others.len(),
                new_others@.len() == i,
                forall|j: int|
                    0 <= j < i ==> (#[trigger] new_others@[j]).deep_view() == option_overridden(
                        others@[j].deep_view(),
                        new_id,
                    ),
            decreases others.len() - i,
        {
            let mut paths: Vec<OpGraphPath> = Vec::new();
            let mut k: usize = 0;
            while k < others[i].paths.len()
                invariant
                    i < others.len(),
                    k <= others@[i as int].paths.len(),
                    paths@.len() == k,
                    forall|j: int|
                        0 <= j < k ==> (#[trigger] paths@[j]).deep_view() == overridden(
                            others@[i as int].paths@[j].deep_view(),
                            new_id,
                        ),
                decreases others@[i as int].paths.len() - k,
            {
                let mut path = others[i].paths[k].clone();
                let ghost before = path.deep_view();
                add_id(&mut path.overriding_path_ids, new_id);
                assert(path.deep_view() =~= overridden(before, new_id));
                paths.push(path);
                k += 1;
            }
            let option = SimultaneousPaths { paths };
            assert(option.deep_view().paths =~= option_overridden(
                others@[i as int].deep_view(),
                new_id,
            ).paths);
            new_others.push(option);
            i += 1;
        }
        assert(new_others.deep_view() =~= others.deep_view().map_values(
            |o: SimultaneousView| option_overridden(o, new_id),
        ));
        (new_self, new_others)
    }
}

/// Whether a path that ends with taking a key is left out for a field: where the key itself
/// selects the field.
pub open spec fn key_has_field(graph: GraphView, path: PathView, field: FieldElementView) -> Result<
    bool,
    ErrorView,
> {
    if path.edges.len() == 0 {
        Ok(false)
    } else {
        match path.edges.last() {
            None => Ok(false),
            Some(edge) => match edge_weight(graph, edge) {
                Err(error) => Err(error),
                Ok(weight) => Ok(
                    weight.transition is KeyResolution && match weight.conditions {
                        Some(conditions) => contains_field(conditions, field),
                        None => false,
                    },
                ),
            },
        }
    }
}

/// The first `n` paths that are gone on with for a field.
pub open spec fn collecting_paths(
    graph: GraphView,
    paths: Seq<PathView>,
    field: FieldElementView,
    n: nat,
) -> Result<Seq<PathView>, ErrorView>
    decreases n,
{
    if n == 0 {
        Ok(Seq::empty())
    } else {
        match collecting_paths(graph, paths, field, (n - 1) as nat) {
            Err(error) => Err(error),
            Ok(before) => match key_has_field(graph, paths[n - 1], field) {
                Err(error) => Err(error),
                Ok(true) => Ok(before),
                Ok(false) => Ok(before.push(paths[n - 1])),
            },
        }
    }
}

/// The indirect paths that are gone on with for a field. All of them are where the field has
/// selections.
pub open spec fn paths_for_field(graph: GraphView, paths: Seq<PathView>, field: FieldElementView) -> Result<
    Seq<PathView>,
    ErrorView,
> {
    match field_is_leaf(field) {
        Err(error) => Err(error),
        Ok(false) => Ok(paths),
        Ok(true) => collecting_paths(graph, paths, field, paths.len()),
    }
}

proof fn lemma_collecting_error(
    graph: GraphView,
    paths: Seq<PathView>,
    field: FieldElementView,
    n: nat,
)
    requires
        n <= paths.len(),
        collecting_paths(graph, paths, field, n) is Err,
    ensures
        collecting_paths(graph, paths, field, paths.len()) == collecting_paths(
            graph,
            paths,
            field,
            n,
        ),
    decreases paths.len() - n,
{
    if n < paths.len() {
        lemma_collecting_error(graph, paths, field, n + 1);
    }
}

/// Leaves out the paths that end with a key which itself selects the field.
pub fn filter_non_collecting_paths_for_field(
    graph: &QueryGraph,
    paths: &Vec<OpGraphPath>,
    field: &Field,
) -> (r: Result<Vec<OpGraphPath>, FederationError>)
    ensures
        result_view(r) == paths_for_field(
            graph.deep_view(),
            paths.deep_view(),
            field.deep_view(),
        ),
{
    let ghost g = graph.deep_view();
    let ghost all = paths.deep_view();
    let ghost f = field.deep_view();
    match field.is_leaf() {
        Err(error) => {
            return Err(error);
        },
        Ok(false) => {
            let copied = paths.clone();
            assert(copied.deep_view() =~= all);
            return Ok(copied);
        },
        Ok(true) => {},
    }
    let mut filtered: Vec<OpGraphPath> = Vec::new();
    let mut i: usize = 0;
    assert(filtered.deep_view() =~= Seq::empty());
    while i < paths.len()
        invariant
            i <= paths.len(),
            g == graph.deep_view(),
            all == paths.deep_view(),
            f == field.deep_view(),
            field_is_leaf(f) == Ok::<bool, ErrorView>(true),
            collecting_paths(g, all, f, i as nat) == Ok::<Seq<PathView>, ErrorView>(
                filtered.deep_view(),
            ),
        decreases paths.len() - i,
    {
        let path = &paths[i];
        assert(all[i as int] == path.deep_view());
        let ghost before = filtered.deep_view();
        let mut skipped = false;
        let n: usize = path.edges.len();
        if n > 0 {
            if let Some(last_edge) = path.edges[n - 1] {
                match graph.edge_weight(last_edge) {
                    Err(error) => {
                        proof {
                            lemma_collecting_error(g, all, f, i as nat + 1);
                        }
                        return Err(error);
                    },
                    Ok(weight) => {
                        if is_key_resolution(weight) {
                            if let Some(conditions) = &weight.conditions {
                                skipped = conditions.contains_top_level_field(field);
                            }
                        }
                    },
                }
            }
        }
        if !skipped {
            filtered.push(path.clone());
            assert(filtered.deep_view() =~= before.push(all[i as int]));
        }
        i += 1;
    }
    Ok(filtered)
}

/// Whether the type of the given name has no fields.
pub open spec fn is_leaf_type(schema: SchemaView, name: Text) -> bool {
    match value_of(schema.types, name) {
        Some(ExtendedTypeView::Scalar(_)) => true,
        Some(ExtendedTypeView::Enum(_)) => true,
        _ => false,
    }
}

fn has_leaf_type(schema: &Schema, name: &str) -> (r: bool)
    ensures
        r == is_leaf_type(schema.deep_view(), name@),
{
    match schema.types.get(name) {
        Some(ExtendedType::Scalar(_)) => true,
        Some(ExtendedType::Enum(_)) => true,
        _ => false,
    }
}

/// Whether all fields have types without fields.
pub open spec fn all_leaves(schema: SchemaView, fields: Entries<FieldView>) -> bool {
    forall|i: int|
        0 <= i < fields.len() ==> is_leaf_type(schema, inner_name((#[trigger] fields[i]).1.ty))
}

/// Whether all fields of the first are among those of the second.
pub open spec fn fields_among(fields: Entries<FieldView>, others: Entries<FieldView>) -> bool {
    forall|i: int| 0 <= i < fields.len() ==> has_key(others, (#[trigger] fields[i]).0)
}

/// Whether a subgraph other than the path's own may have more behind a shareable field: the field
/// is shareable there, and its type is another one or has other fields. Nothing is known where the
/// node says nothing about it.
pub open spec fn differs_at(
    graph: GraphView,
    name: Text,
    node: NodeView,
    tail: NodeView,
    field: Text,
    base: Text,
    base_fields: Entries<FieldView>,
) -> Result<bool, ErrorView> {
    if node.source == tail.source {
        Ok(false)
    } else {
        match source_of(graph, node.source) {
            Err(error) => Err(error),
            Ok(subgraph) => match node.type_ {
                NodeTypeView::SchemaType(position) => if !(position is Object || position is Interface) {
                    Err(internal_error("Type \""@ + position_name(position) + "\" has no fields"@))
                } else {
                    match field_definition(subgraph.schema, position_name(position), field) {
                        None => Ok(false),
                        Some(definition) => if !has_directive(
                            definition.directives,
                            subgraph.shareable,
                        ) {
                            Ok(false)
                        } else if inner_name(definition.ty) != base {
                            Ok(true)
                        } else {
                            match value_of(subgraph.schema.types, base) {
                                None => Err(missing_type(base)),
                                Some(ExtendedTypeView::Object(o)) => Ok(
                                    !fields_among(o.fields, base_fields),
                                ),
                                Some(ExtendedTypeView::Interface(o)) => Ok(
                                    !fields_among(o.fields, base_fields),
                                ),
                                Some(_) => Ok(true),
                            }
                        },
                    }
                },
                NodeTypeView::FederatedRootType(_) => Err(
                    internal_error(
                        name + " is an object in "@ + tail.source + " but a "@ + node_type_text(
                            node.type_,
                        ) + " in "@ + node.source,
                    ),
                ),
            },
        }
    }
}

/// Whether a node stands for the type of the given name.
pub open spec fn node_is_type(node: NodeView, name: Text) -> bool {
    match node.type_ {
        NodeTypeView::SchemaType(position) => position_name(position) == name,
        NodeTypeView::FederatedRootType(_) => false,
    }
}

/// Whether one of the nodes from `from` on may have more behind a shareable field.
pub open spec fn differs_from(
    graph: GraphView,
    name: Text,
    tail: NodeView,
    field: Text,
    base: Text,
    base_fields: Entries<FieldView>,
    from: nat,
) -> Result<bool, ErrorView>
    decreases graph.nodes.len() - from,
{
    if from >= graph.nodes.len() {
        Ok(false)
    } else if !node_is_type(graph.nodes[from as int], name) {
        differs_from(graph, name, tail, field, base, base_fields, from + 1)
    } else {
        match differs_at(graph, name, graph.nodes[from as int], tail, field, base, base_fields) {
            Err(error) => Err(error),
            Ok(true) => Ok(true),
            Ok(false) => differs_from(graph, name, tail, field, base, base_fields, from + 1),
        }
    }
}

/// Whether another subgraph may have more behind a field of an implementation of an interface. That
/// is not so where the implementation is no entity, or the field is not shareable or has no
/// selections.
pub open spec fn implementation_differs(
    graph: GraphView,
    subgraph: SourceView,
    tail: NodeView,
    name: Text,
    field: Text,
) -> Result<bool, ErrorView> {
    match value_of(subgraph.schema.types, name) {
        Some(ExtendedTypeView::Object(object)) => if !has_directive(
            object.directives,
            subgraph.key,
        ) {
            Ok(false)
        } else {
            match value_of(object.fields, field) {
                None => Err(
                    internal_error(
                        "Object type \""@ + name + "\" has no field \""@ + field + "\""@,
                    ),
                ),
                Some(definition) => {
                    let base = inner_name(definition.ty);
                    if !has_directive(definition.directives, subgraph.shareable) || is_leaf_type(
                        subgraph.schema,
                        base,
                    ) {
                        Ok(false)
                    } else {
                        match value_of(subgraph.schema.types, base) {
                            Some(ExtendedTypeView::Object(of_base)) => if !all_leaves(
                                subgraph.schema,
                                of_base.fields,
                            ) {
                                Ok(true)
                            } else {
                                differs_from(graph, name, tail, field, base, of_base.fields, 0)
                            },
                            _ => Ok(true),
                        }
                    }
                },
            }
        },
        Some(_) => Err(internal_error("Schema type \""@ + name + "\" is not an object type"@)),
        None => Err(missing_type(name)),
    }
}

/// Whether one of the implementations from `from` on may have more behind a field in another
/// subgraph.
pub open spec fn implementations_differ(
    graph: GraphView,
    subgraph: SourceView,
    tail: NodeView,
    names: Seq<Text>,
    field: Text,
    from: nat,
) -> Result<bool, ErrorView>
    decreases names.len() - from,
{
    if from >= names.len() {
        Ok(false)
    } else {
        match implementation_differs(graph, subgraph, tail, names[from as int], field) {
            Err(error) => Err(error),
            Ok(true) => Ok(true),
            Ok(false) => implementations_differ(graph, subgraph, tail, names, field, from + 1),
        }
    }
}

/// Whether going on with an interface field may fail where going on with an implementation does
/// not: some implementation is an entity with the field shareable, and another subgraph may have
/// more behind it.
pub open spec fn entity_with_shareable_field(
    graph: GraphView,
    tail: usize,
    source: Text,
    interface: Text,
    field: Text,
) -> Result<bool, ErrorView> {
    match source_of(graph, source) {
        Err(error) => Err(error),
        Ok(subgraph) => match node_weight(graph, tail) {
            Err(error) => Err(error),
            Ok(weight) => implementations_differ(
                graph,
                subgraph,
                weight,
                runtime_types(subgraph.schema, CompositeView::Interface(interface)),
                field,
                0,
            ),
        },
    }
}

fn check_all_leaves(schema: &Schema, fields: &NameMap<FieldDefinition>) -> (r: bool)
    ensures
        r == all_leaves(schema.deep_view(), fields.deep_view()),
{
    let ghost all = fields.deep_view();
    let mut i: usize = 0;
    while i < fields.len()
        invariant
            i <= all.len(),
            all == fields.deep_view(),
            forall|j: int|
                0 <= j < i ==> is_leaf_type(
                    schema.deep_view(),
                    inner_name((#[trigger] all[j]).1.ty),
                ),
        decreases all.len() - i,
    {
        let field = fields.value_at(i);
        assert(all[i as int].1 == field.deep_view());
        if !has_leaf_type(schema, field.ty.inner_named_type()) {
            return false;
        }
        i += 1;
    }
    true
}

fn check_fields_among(
    fields: &NameMap<FieldDefinition>,
    others: &NameMap<FieldDefinition>,
) -> (r: bool)
    ensures
        r == fields_among(fields.deep_view(), others.deep_view()),
{
    let ghost all = fields.deep_view();
    let mut i: usize = 0;
    while i < fields.len()
        invariant
            i <= all.len(),
            all == fields.deep_view(),
            forall|j: int| 0 <= j < i ==> has_key(others.deep_view(), (#[trigger] all[j]).0),
        decreases all.len() - i,
    {
        let name = fields.key_at(i);
        assert(all[i as int].0 == name@);
        if !others.contains_key(name) {
            return false;
        }
        i += 1;
    }
    true
}

impl OpGraphPath {
    fn node_differs(
        graph: &QueryGraph,
        implementation: &str,
        node: &QueryGraphNode,
        tail: &QueryGraphNode,
        field: &str,
        base: &str,
        base_fields: &NameMap<FieldDefinition>,
    ) -> (r: Result<bool, FederationError>)
        ensures
            result_view(r) == differs_at(
                graph.deep_view(),
                implementation@,
                node.deep_view(),
                tail.deep_view(),
                field@,
                base@,
                base_fields.deep_view(),
            ),
    {
        if same(&node.source, &tail.source) {
            return Ok(false);
        }
        let subgraph = match graph.source(&node.source) {
            Ok(subgraph) => subgraph,
            Err(error) => {
                return Err(error);
            },
        };
        let name = match &node.type_ {
            QueryGraphNodeType::FederatedRootType(_) => {
                let start = joined3(implementation, " is an object in ", &tail.source);
                let known = joined3(&start, " but a ", &node.type_.text());
                return Err(FederationError::internal(&joined3(&known, " in ", &node.source)));
            },
            QueryGraphNodeType::SchemaType(TypeDefinitionPosition::Object(name)) => name,
            QueryGraphNodeType::SchemaType(TypeDefinitionPosition::Interface(name)) => name,
            QueryGraphNodeType::SchemaType(position) => {
                return Err(
                    FederationError::internal(
                        &joined3("Type \"", position.name(), "\" has no fields"),
                    ),
                );
            },
        };
        let definition = match subgraph.schema.get_field(name, field) {
            Some(definition) => definition,
            None => {
                return Ok(false);
            },
        };
        if !is_applied(&definition.directives, &subgraph.shareable) {
            return Ok(false);
        }
        if !same(definition.ty.inner_named_type(), base) {
            return Ok(true);
        }
        match subgraph.schema.types.get(base) {
            None => Err(
                FederationError::internal(
                    &joined3("Schema has no type \"", base, "\""),
                ),
            ),
            Some(ExtendedType::Object(o)) => Ok(!check_fields_among(&o.fields, base_fields)),
            Some(ExtendedType::Interface(o)) => Ok(!check_fields_among(&o.fields, base_fields)),
            Some(_) => Ok(true),
        }
    }

    fn implementation_differs(
        graph: &QueryGraph,
        subgraph: &SubgraphSource,
        tail: &QueryGraphNode,
        name: &str,
        field: &str,
    ) -> (r: Result<bool, FederationError>)
        ensures
            result_view(r) == implementation_differs(
                graph.deep_view(),
                subgraph.deep_view(),
                tail.deep_view(),
                name@,
                field@,
            ),
    {
        let object = match subgraph.schema.types.get(name) {
            Some(ExtendedType::Object(object)) => object,
            Some(_) => {
                return Err(
                    FederationError::internal(
                        &joined3("Schema type \"", name, "\" is not an object type"),
                    ),
                );
            },
            None => {
                return Err(
                    FederationError::internal(&joined3("Schema has no type \"", name, "\"")),
                );
            },
        };
        if !is_applied(&object.directives, &subgraph.key) {
            return Ok(false);
        }
        let definition = match object.fields.get(field) {
            Some(definition) => definition,
            None => {
                let start = joined3("Object type \"", name, "\" has no field \"");
                return Err(FederationError::internal(&joined3(&start, field, "\"")));
            },
        };
        if !is_applied(&definition.directives, &subgraph.shareable) {
            return Ok(false);
        }
        let base = definition.ty.inner_named_type();
        if has_leaf_type(&subgraph.schema, base) {
            return Ok(false);
        }
        let base_type = match subgraph.schema.types.get(base) {
            Some(ExtendedType::Object(base_type)) => base_type,
            _ => {
                return Ok(true);
            },
        };
        if !check_all_leaves(&subgraph.schema, &base_type.fields) {
            return Ok(true);
        }
        let ghost g = graph.deep_view();
        let ghost fields = base_type.fields.deep_view();
        let mut i: usize = 0;
        while i < graph.nodes.len()
            invariant
                i <= graph.nodes.len(),
                g == graph.deep_view(),
                fields == base_type.fields.deep_view(),
                differs_from(g, name@, tail.deep_view(), field@, base@, fields, 0)
                    == differs_from(g, name@, tail.deep_view(), field@, base@, fields, i as nat),
                implementation_differs(g, subgraph.deep_view(), tail.deep_view(), name@, field@)
                    == differs_from(g, name@, tail.deep_view(), field@, base@, fields, 0),
            decreases graph.nodes.len() - i,
        {
            let node = &graph.nodes[i];
            assert(g.nodes[i as int] == node.deep_view());
            let is_type = match &node.type_ {
                QueryGraphNodeType::SchemaType(position) => same(position.name(), name),
                QueryGraphNodeType::FederatedRootType(_) => false,
            };
            if is_type {
                match Self::node_differs(
                    graph,
                    name,
                    node,
                    tail,
                    field,
                    base,
                    &base_type.fields,
                ) {
                    Ok(false) => {},
                    Ok(true) => {
                        return Ok(true);
                    },
                    Err(error) => {
                        return Err(error);
                    },
                }
            }
            i += 1;
        }
        Ok(false)
    }

    /// Whether going on with an interface field may fail where going on with an implementation
    /// does not.
    pub fn has_an_entity_implementation_with_shareable_field(
        &self,
        graph: &QueryGraph,
        source: &str,
        interface: &str,
        field: &str,
    ) -> (r: Result<bool, FederationError>)
        ensures
            result_view(r) == entity_with_shareable_field(
                graph.deep_view(),
                self.tail,
                source@,
                interface@,
                field@,
            ),
    {
        let subgraph = match graph.source(source) {
            Ok(subgraph) => subgraph,
            Err(error) => {
                return Err(error);
            },
        };
        let tail = match graph.node_weight(self.tail) {
            Ok(tail) => tail,
            Err(error) => {
                return Err(error);
            },
        };
        let position = CompositeTypeDefinitionPosition::Interface(interface.to_owned());
        let implementations = subgraph.schema.possible_runtime_types(&position);
        let ghost g = graph.deep_view();
        let ghost s = subgraph.deep_view();
        let ghost t = tail.deep_view();
        let ghost names = implementations.deep_view();
        let mut i: usize = 0;
        while i < implementations.len()
            invariant
                i <= names.len(),
                g == graph.deep_view(),
                s == subgraph.deep_view(),
                t == tail.deep_view(),
                names == implementations.deep_view(),
                implementations_differ(g, s, t, names, field@, 0) == implementations_differ(
                    g,
                    s,
                    t,
                    names,
                    field@,
                    i as nat,
                ),
                entity_with_shareable_field(g, self.tail, source@, interface@, field@)
                    == implementations_differ(g, s, t, names, field@, 0),
            decreases names.len() - i,
        {
            match Self::implementation_differs(
                graph,
                subgraph,
                tail,
                implementations.at(i),
                field,
            ) {
                Ok(true) => {
                    return Ok(true);
                },
                Ok(false) => {},
                Err(error) => {
                    return Err(error);
                },
            }
            i += 1;
        }
        Ok(false)
    }
}

} // verus!
