//! What is left of paths.

use crate::ast::DirectiveView;
use crate::ast::ValueView;
use crate::error::ErrorView;
use crate::merge::directives::first_directive;
use crate::operation::defer_laws::lemma_says;
use crate::operation::defer_laws::says;
use crate::operation::BooleanOrVariableView;
use crate::query_graph::edge_weight;
use crate::query_graph::elements::concatenated;
use crate::query_graph::elements::conditional_name;
use crate::query_graph::elements::context_with;
use crate::query_graph::elements::element_conditional;
use crate::query_graph::elements::element_conditionals;
use crate::query_graph::elements::element_directives;
use crate::query_graph::elements::element_on_schema;
use crate::query_graph::elements::is_conditional;
use crate::query_graph::elements::path_conditionals;
use crate::query_graph::elements::path_on_schema;
use crate::query_graph::elements::useless_count;
use crate::query_graph::elements::useless_followup;
use crate::query_graph::elements::ConditionalView;
use crate::query_graph::elements::ContextView;
use crate::query_graph::elements::ElementView;
use crate::query_graph::elements::OperationConditionalKind;
use crate::query_graph::graph_path::node_runtime_types;
use crate::query_graph::graph_path::PathView;
use crate::query_graph::path_checks::scanned;
use crate::query_graph::path_checks::truncated;
use crate::query_graph::GraphView;
use crate::schema::position::composite_name;
use crate::schema::position::type_position;
use crate::schema::SchemaView;
use crate::text::Text;
use vstd::prelude::*;

verus! {

// Casts at the end.

/// Whether a step takes an edge that is no cast.
pub open spec fn is_kept_step(graph: GraphView, edge: Option<usize>) -> bool {
    edge matches Some(index) && (edge_weight(graph, index) matches Ok(weight)
        && !(weight.transition is Downcast))
}

proof fn lemma_scanned(
    graph: GraphView,
    edges: Seq<Option<usize>>,
    start: Seq<Text>,
    n: nat,
)
    requires
        n <= edges.len(),
    ensures
        scanned(graph, edges, start, n) matches Ok(seen) ==> match seen.last {
            None => forall|i: int| 0 <= i < n ==> !is_kept_step(graph, #[trigger] edges[i]),
            Some((index, _)) => index < n && is_kept_step(graph, edges[index as int]) && forall|
                i: int,
            |
                index < i < n ==> !is_kept_step(graph, #[trigger] edges[i]),
        },
    decreases n,
{
    if n > 0 {
        lemma_scanned(graph, edges, start, (n - 1) as nat);
    }
}

/// Cutting off the casts at the end of a path leaves its first steps, up to the last one that takes
/// an edge which is no cast, and nothing behind it; the path then ends where that edge leads.
pub proof fn law_only_casts_are_cut_off(graph: GraphView, path: PathView)
    ensures
        truncated(graph, path) matches Ok(shorter) ==> {
            let n = shorter.edges.len() as int;
            &&& shorter.head == path.head
            &&& n <= path.edges.len()
            &&& shorter.edges == path.edges.take(n)
            &&& forall|i: int|
                n <= i < path.edges.len() ==> !is_kept_step(graph, #[trigger] path.edges[i])
            &&& n == 0 || is_kept_step(graph, path.edges[n - 1])
            &&& n == path.edges.len() && n > 0 ==> shorter == path
            &&& 0 < n < path.edges.len() ==> {
                &&& shorter.edge_triggers == path.edge_triggers.take(n)
                &&& shorter.edge_conditions == path.edge_conditions.take(n)
                &&& edge_weight(graph, path.edges[n - 1]->0) matches Ok(weight) && shorter.tail
                    == weight.tail
            }
            &&& n == 0 ==> shorter.tail == path.head
        },
{
    match truncated(graph, path) {
        Err(_) => {},
        Ok(shorter) => {
            let start = node_runtime_types(graph, path.head)->Ok_0;
            lemma_scanned(graph, path.edges, start, path.edges.len());
            assert(shorter.edges =~= path.edges.take(shorter.edges.len() as int));
        },
    }
}

// Paths on another schema.

/// Whether a schema knows the type condition of an element, if it has one.
pub open spec fn is_known(element: ElementView, schema: SchemaView) -> bool {
    element matches ElementView::InlineFragment(fragment) ==> (fragment.type_condition_position
        matches Some(condition) ==> type_position(schema, composite_name(condition)) is Some)
}

/// The directives of the elements of a path, one element after the other.
pub open spec fn directives_along(path: Seq<ElementView>) -> Seq<DirectiveView> {
    path.map_values(|element: ElementView| element_directives(element)).flatten_alt()
}

/// The fields of a path.
pub open spec fn fields_along(path: Seq<ElementView>) -> Seq<ElementView> {
    path.filter(|element: ElementView| element is Field)
}

proof fn lemma_along_pushed(path: Seq<ElementView>, element: ElementView)
    ensures
        directives_along(path.push(element)) == directives_along(path) + element_directives(
            element,
        ),
        fields_along(path.push(element)) == (if element is Field {
            fields_along(path).push(element)
        } else {
            fields_along(path)
        }),
{
    let directives = |e: ElementView| element_directives(e);
    assert(path.push(element).map_values(directives).drop_last() =~= path.map_values(directives));
    assert(path.push(element).drop_last() =~= path);
    reveal(Seq::filter);
}

/// A path on a schema keeps its fields, in their order, and all its directives; the type conditions
/// that the schema does not know are gone.
pub proof fn law_paths_keep_fields_and_directives(
    path: Seq<ElementView>,
    schema: SchemaView,
    n: nat,
)
    requires
        n <= path.len(),
    ensures
        ({
            let after = path_on_schema(path, schema, n);
            &&& fields_along(after) == fields_along(path.take(n as int))
            &&& directives_along(after) == directives_along(path.take(n as int))
            &&& forall|i: int| 0 <= i < after.len() ==> is_known(#[trigger] after[i], schema)
        }),
    decreases n,
{
    if n > 0 {
        law_paths_keep_fields_and_directives(path, schema, (n - 1) as nat);
        let before = path_on_schema(path, schema, (n - 1) as nat);
        let more = element_on_schema(path[n - 1], schema);
        assert(path.take(n as int) =~= path.take(n - 1).push(path[n - 1]));
        lemma_along_pushed(path.take(n - 1), path[n - 1]);
        if more.len() == 0 {
            assert(before + more =~= before);
            assert(element_directives(path[n - 1]) =~= Seq::empty());
            assert(directives_along(before) + element_directives(path[n - 1])
                =~= directives_along(before));
        } else {
            assert(more.len() == 1);
            assert(before + more =~= before.push(more[0]));
            lemma_along_pushed(before, more[0]);
        }
    } else {
        assert(path.take(0) =~= Seq::empty());
    }
}

// One path after another.

/// Whether an element is a fragment with a type condition and no directives but conditions that are
/// on a path already.
pub open spec fn repeats(element: ElementView, path: Seq<ElementView>) -> bool {
    element matches ElementView::InlineFragment(fragment) && fragment.type_condition_position is Some
        && forall|j: int|
        0 <= j < fragment.directives.len() ==> is_along(#[trigger] fragment.directives[j], path)
}

/// Whether a directive is a condition on an element of a path.
pub open spec fn is_along(directive: DirectiveView, path: Seq<ElementView>) -> bool {
    (directive.name == "skip"@ || directive.name == "include"@) && exists|i: int|
        0 <= i < path.len() && element_directives(#[trigger] path[i]).contains(directive)
}

proof fn lemma_conditionals(path: Seq<ElementView>, n: nat, directive: DirectiveView)
    requires
        n <= path.len(),
        path_conditionals(path, n).contains(directive),
    ensures
        is_along(directive, path),
    decreases n,
{
    if n > 0 {
        let before = path_conditionals(path, (n - 1) as nat);
        let conditional = |d: DirectiveView| is_conditional(d);
        let own = element_directives(path[n - 1]);
        let more = own.filter(conditional);
        let all = before + more;
        let i = choose|i: int| 0 <= i < all.len() && all[i] == directive;
        if i < before.len() {
            assert(before[i] == directive);
            lemma_conditionals(path, (n - 1) as nat, directive);
        } else {
            let k = i - before.len();
            assert(more[k] == directive);
            assert(more.contains(directive));
            own.lemma_filter_pred(conditional, k);
            own.lemma_filter_contains_rev(conditional, directive);
            assert(own.contains(directive));
        }
    }
}

proof fn lemma_useless(
    head: Seq<ElementView>,
    tail: Seq<ElementView>,
)
    requires
        head.len() > 0,
    ensures
        ({
            let conditionals = path_conditionals(head, head.len());
            let k = useless_count(head.last(), tail, conditionals);
            &&& k <= tail.len()
            &&& forall|i: int| 0 <= i < k ==> repeats(#[trigger] tail[i], head)
            &&& k < tail.len() ==> useless_followup(head.last(), tail[k as int], conditionals)
                != Ok::<bool, ErrorView>(true)
        }),
    decreases tail.len(),
{
    let conditionals = path_conditionals(head, head.len());
    if tail.len() > 0 && useless_followup(head.last(), tail[0], conditionals) == Ok::<
        bool,
        ErrorView,
    >(true) {
        let rest = tail.drop_first();
        lemma_useless(head, rest);
        let k = useless_count(head.last(), tail, conditionals);
        assert forall|i: int| 0 <= i < k implies repeats(#[trigger] tail[i], head) by {
            if i > 0 {
                assert(rest[i - 1] == tail[i]);
            } else {
                match tail[0] {
                    ElementView::InlineFragment(fragment) => {
                        assert forall|j: int| 0 <= j < fragment.directives.len() implies is_along(
                            #[trigger] fragment.directives[j],
                            head,
                        ) by {
                            lemma_conditionals(head, head.len(), fragment.directives[j]);
                        }
                    },
                    ElementView::Field(_) => {},
                }
            }
        }
        if k < tail.len() {
            assert(rest[k - 1] == tail[k as int]);
        }
    }
}

/// One path after another is the first with the second behind it, without the fragments at the
/// beginning of the second that repeat what the first says: no field is left out, and no directive
/// that the first does not have.
pub proof fn law_paths_are_put_one_after_the_other(head: Seq<ElementView>, tail: Seq<ElementView>)
    ensures
        exists|k: int|
            0 <= k <= tail.len() && concatenated(head, tail) == head + #[trigger] tail.skip(k)
                && forall|i: int| 0 <= i < k ==> repeats(#[trigger] tail[i], head),
{
    if head.len() == 0 {
        assert(head + tail.skip(0) =~= tail);
    } else {
        lemma_useless(head, tail);
        let k = useless_count(head.last(), tail, path_conditionals(head, head.len())) as int;
        assert(concatenated(head, tail) == head + tail.skip(k));
    }
}

// Conditions.

/// Whether the first directive of a name says `if` with the given value.
pub open spec fn has_condition(
    directives: Seq<DirectiveView>,
    name: Text,
    value: BooleanOrVariableView,
) -> bool {
    exists|i: int|
        {
            &&& 0 <= i < directives.len()
            &&& (#[trigger] directives[i]).name == name
            &&& forall|j: int| 0 <= j < i ==> (#[trigger] directives[j]).name != name
            &&& match value {
                BooleanOrVariableView::Boolean(b) => says(
                    directives[i].arguments,
                    "if"@,
                    ValueView::Boolean(b),
                ),
                BooleanOrVariableView::Variable(v) => says(
                    directives[i].arguments,
                    "if"@,
                    ValueView::Variable(v),
                ),
            }
        }
}

proof fn lemma_first(directives: Seq<DirectiveView>, name: Text)
    ensures
        match first_directive(directives, name) {
            None => forall|i: int|
                0 <= i < directives.len() ==> (#[trigger] directives[i]).name != name,
            Some(found) => exists|i: int|
                0 <= i < directives.len() && #[trigger] directives[i] == found && found.name == name
                    && forall|j: int| 0 <= j < i ==> (#[trigger] directives[j]).name != name,
        },
    decreases directives.len(),
{
    if directives.len() > 0 {
        let rest = directives.drop_first();
        lemma_first(rest, name);
        if directives[0].name == name {
            assert(directives[0] == first_directive(directives, name)->0);
        } else {
            match first_directive(rest, name) {
                None => {
                    assert forall|i: int| 0 <= i < directives.len() implies (
                    #[trigger] directives[i]).name != name by {
                        if i > 0 {
                            assert(directives[i] == rest[i - 1]);
                        }
                    }
                },
                Some(found) => {
                    let i = choose|i: int|
                        0 <= i < rest.len() && #[trigger] rest[i] == found && found.name == name
                            && forall|j: int|
                            0 <= j < i ==> (#[trigger] rest[j]).name != name;
                    assert(directives[i + 1] == found);
                    assert forall|j: int| 0 <= j < i + 1 implies (#[trigger] directives[j]).name
                        != name by {
                        if j > 0 {
                            assert(directives[j] == rest[j - 1]);
                        }
                    }
                },
            }
        }
    }
}

proof fn lemma_one_condition(
    element: ElementView,
    kind: OperationConditionalKind,
    value: BooleanOrVariableView,
)
    ensures
        element_conditional(element, kind) matches Ok(found) ==> (found matches Some(conditional)
            && conditional.value == value) == has_condition(
            element_directives(element),
            conditional_name(kind),
            value,
        ),
        element_conditional(element, kind) matches Ok(Some(conditional)) ==> conditional.kind
            == kind,
{
    let directives = element_directives(element);
    let name = conditional_name(kind);
    lemma_first(directives, name);
    if let Some(found) = first_directive(directives, name) {
        lemma_says(found.arguments, "if"@);
        let i = choose|i: int|
            0 <= i < directives.len() && #[trigger] directives[i] == found && found.name == name
                && forall|j: int| 0 <= j < i ==> (#[trigger] directives[j]).name != name;
        assert(directives[i].name == name);
        if has_condition(directives, name, value) {
            let k = choose|k: int|
                {
                    &&& 0 <= k < directives.len()
                    &&& (#[trigger] directives[k]).name == name
                    &&& forall|j: int| 0 <= j < k ==> (#[trigger] directives[j]).name != name
                    &&& match value {
                        BooleanOrVariableView::Boolean(b) => says(
                            directives[k].arguments,
                            "if"@,
                            ValueView::Boolean(b),
                        ),
                        BooleanOrVariableView::Variable(v) => says(
                            directives[k].arguments,
                            "if"@,
                            ValueView::Variable(v),
                        ),
                    }
                };
            assert(k == i);
        }
    }
}

/// The context behind an element has the conditions of the element, `@skip` before `@include`, and
/// after them those of the context before.
pub proof fn law_context_has_the_conditions(
    context: ContextView,
    element: ElementView,
    value: BooleanOrVariableView,
)
    ensures
        context_with(context, element) matches Ok(after) ==> {
            let added = after.conditionals.len() - context.conditionals.len();
            let directives = element_directives(element);
            &&& 0 <= added <= 2
            &&& after.conditionals.skip(added) == context.conditionals
            &&& after.conditionals.take(added).contains(
                ConditionalView { kind: OperationConditionalKind::Skip, value },
            ) == has_condition(directives, "skip"@, value)
            &&& after.conditionals.take(added).contains(
                ConditionalView { kind: OperationConditionalKind::Include, value },
            ) == has_condition(directives, "include"@, value)
            &&& added == 2 ==> after.conditionals[0].kind == OperationConditionalKind::Skip
        },
{
    lemma_one_condition(element, OperationConditionalKind::Skip, value);
    lemma_one_condition(element, OperationConditionalKind::Include, value);
    match (context_with(context, element), element_conditionals(element)) {
        (Ok(after), Ok(own)) => {
            let added = after.conditionals.len() - context.conditionals.len();
            assert(after.conditionals.skip(added) =~= context.conditionals);
            assert(after.conditionals.take(added) =~= own);
            let skip = element_conditional(element, OperationConditionalKind::Skip)->Ok_0;
            let included = element_conditional(element, OperationConditionalKind::Include)->Ok_0;
            let a = ConditionalView { kind: OperationConditionalKind::Skip, value };
            let b = ConditionalView { kind: OperationConditionalKind::Include, value };
            if skip == Some(a) {
                assert(own[0] == a);
            }
            if included == Some(b) {
                assert(own[own.len() - 1] == b);
            }
        },
        _ => {},
    }
}

} // verus!
