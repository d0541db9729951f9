//! Paths and what is known of them as texts, for messages.

use crate::error::internal_error;
use crate::error::ErrorView;
use crate::error::FederationError;
use crate::operation::texts::field_text;
use crate::operation::texts::fragment_text;
use crate::operation::texts::set_text;
use crate::operation::Field;
use crate::operation::FieldElementView;
use crate::operation::InlineFragment;
use crate::operation::InlineFragmentView;
use crate::query_graph::condition_resolver::ConditionResolution;
use crate::query_graph::condition_resolver::ResolutionView;
use crate::query_graph::condition_resolver::UnsatisfiedConditionReason;
use crate::query_graph::elements::conditions_text;
use crate::query_graph::elements::ElementView;
use crate::query_graph::elements::OpGraphPathTrigger;
use crate::query_graph::elements::OpPath;
use crate::query_graph::elements::OpPathElement;
use crate::query_graph::elements::TriggerView;
use crate::query_graph::graph_path::SimultaneousPaths;
use crate::query_graph::options::ClosedPath;
use crate::query_graph::options::ClosedPathView;
use crate::schema::position::composite_name;
use crate::text::joined;
use crate::text::joined3;
use crate::text::Text;
use vstd::prelude::*;

verus! {

// Elements.

/// The text of an element. There is none where the type of a field is not known, or where something
/// in the element does not fit.
pub open spec fn element_text(element: ElementView) -> Option<Text> {
    match element {
        ElementView::Field(field) => field_text(field),
        ElementView::InlineFragment(fragment) => fragment_text(fragment),
    }
}

/// The text of what an edge was taken for.
pub open spec fn trigger_text(trigger: TriggerView) -> Option<Text> {
    match trigger {
        TriggerView::OpPathElement(element) => element_text(element),
        TriggerView::Context(context) => Some(
            "["@ + conditions_text(context.conditionals, context.conditionals.len()) + "]"@,
        ),
    }
}

/// The text of the first `n` elements of a path.
pub open spec fn elements_text(elements: Seq<ElementView>, n: nat) -> Option<Text>
    decreases n,
{
    if n == 0 {
        Some(Seq::empty())
    } else {
        match (elements_text(elements, (n - 1) as nat), element_text(elements[n - 1])) {
            (Some(before), Some(own)) => Some(
                if n == 1 {
                    own
                } else {
                    before + "::"@ + own
                },
            ),
            _ => None,
        }
    }
}

proof fn lemma_no_text(elements: Seq<ElementView>, n: nat, m: nat)
    requires
        n <= m,
        elements_text(elements, n) is None,
    ensures
        elements_text(elements, m) is None,
    decreases m,
{
    if n < m {
        lemma_no_text(elements, n, (m - 1) as nat);
    }
}

impl OpPathElement {
    /// The text of the element. There is none where the type of a field is not known, or where
    /// something in the element does not fit.
    pub fn to_text(&self) -> (r: Option<String>)
        ensures
            r.deep_view() == element_text(self.deep_view()),
    {
        match self {
            OpPathElement::Field(field) => field.to_text(),
            OpPathElement::InlineFragment(fragment) => fragment.to_text(),
        }
    }
}

impl OpPath {
    /// The texts of the elements with two colons between them. There is none where an element has
    /// none.
    pub fn to_text(&self) -> (r: Option<String>)
        ensures
            r.deep_view() == elements_text(self.deep_view(), self.deep_view().len()),
    {
        let ghost all = self.deep_view();
        let mut text = String::new();
        assert(text@ =~= Seq::empty());
        let mut i: usize = 0;
        while i < self.0.len()
            invariant
                i <= self.0@.len(),
                all == self.deep_view(),
                elements_text(all, i as nat) == Some(text@),
            decreases self.0@.len() - i,
        {
            assert(all[i as int] == self.0@[i as int].deep_view());
            match self.0[i].to_text() {
                Some(own) => {
                    if i == 0 {
                        text = own;
                    } else {
                        text = joined3(&text, "::", &own);
                    }
                },
                None => {
                    proof {
                        lemma_no_text(all, i as nat + 1, all.len());
                    }
                    return None;
                },
            }
            i += 1;
        }
        Some(text)
    }
}

impl OpGraphPathTrigger {
    /// The text of the element, or of the conditions. There is none where the element has none.
    pub fn to_text(&self) -> (r: Option<String>)
        ensures
            r.deep_view() == trigger_text(self.deep_view()),
    {
        match self {
            OpGraphPathTrigger::OpPathElement(element) => element.to_text(),
            OpGraphPathTrigger::Context(context) => Some(context.to_text()),
        }
    }
}

/// A field in a message: its text, or just its name where it has none.
pub open spec fn described_field(field: FieldElementView) -> Text {
    match field_text(field) {
        Some(text) => text,
        None => field.field_position.field_name,
    }
}

/// A fragment in a message: its text, or just its start where it has none.
pub open spec fn described_fragment(fragment: InlineFragmentView) -> Text {
    match fragment_text(fragment) {
        Some(text) => text,
        None => "..."@,
    }
}

/// An element in a message.
pub open spec fn described(element: ElementView) -> Text {
    match element {
        ElementView::Field(field) => described_field(field),
        ElementView::InlineFragment(fragment) => described_fragment(fragment),
    }
}

pub(crate) fn describe_field(field: &Field) -> (r: String)
    ensures
        r@ == described_field(field.deep_view()),
{
    match field.to_text() {
        Some(text) => text,
        None => field.name().clone(),
    }
}

pub(crate) fn describe_fragment(fragment: &InlineFragment) -> (r: String)
    ensures
        r@ == described_fragment(fragment.deep_view()),
{
    match fragment.to_text() {
        Some(text) => text,
        None => "...".to_owned(),
    }
}

pub(crate) fn describe(element: &OpPathElement) -> (r: String)
    ensures
        r@ == described(element.deep_view()),
{
    match element {
        OpPathElement::Field(field) => describe_field(field),
        OpPathElement::InlineFragment(fragment) => describe_fragment(fragment),
    }
}

// Errors.

/// The error for a field of an interface object that a subgraph does not have.
pub open spec fn missing_field(field: FieldElementView) -> ErrorView {
    internal_error("Unexpectedly missing "@ + described_field(field))
}

/// The error for a field on a type that has none.
pub open spec fn field_on_leaf(field: FieldElementView, ty: Text) -> ErrorView {
    internal_error(
        "Unexpectedly found field "@ + described_field(field) + " on non-composite type "@ + ty,
    )
}

/// The error for a fragment on a type without fields.
pub open spec fn fragment_on_leaf(fragment: InlineFragmentView, ty: Text) -> ErrorView {
    internal_error(
        "Unexpectedly found inline fragment "@ + described_fragment(fragment)
            + " on non-composite type "@ + ty,
    )
}

/// The error for a field that nothing can be behind.
pub open spec fn unsatisfiable_after(element: ElementView) -> ErrorView {
    internal_error("Unexpected unsatisfiable path after "@ + described(element))
}

/// The error for an indirect path that cannot go on in any way.
pub open spec fn empty_options_for(element: ElementView) -> ErrorView {
    internal_error(
        "Unexpected empty options after non-collecting path for "@ + described(element),
    )
}

/// The error for a field of a type that an interface cannot be taken apart into.
pub open spec fn wrong_parent(field: FieldElementView, interface: Text, what: Text) -> ErrorView {
    let parent = composite_name(field.field_position.parent);
    internal_error(
        parent + "."@ + field.field_position.field_name + " requested on "@ + interface
            + ", but field's parent "@ + parent + what,
    )
}

pub(crate) fn missing_field_error(field: &Field) -> (r: FederationError)
    ensures
        r.deep_view() == missing_field(field.deep_view()),
{
    FederationError::internal(&joined("Unexpectedly missing ", &describe_field(field)))
}

pub(crate) fn field_on_leaf_error(field: &Field, ty: &str) -> (r: FederationError)
    ensures
        r.deep_view() == field_on_leaf(field.deep_view(), ty@),
{
    let start = joined("Unexpectedly found field ", &describe_field(field));
    FederationError::internal(&joined3(&start, " on non-composite type ", ty))
}

pub(crate) fn fragment_on_leaf_error(fragment: &InlineFragment, ty: &str) -> (r: FederationError)
    ensures
        r.deep_view() == fragment_on_leaf(fragment.deep_view(), ty@),
{
    let start = joined("Unexpectedly found inline fragment ", &describe_fragment(fragment));
    FederationError::internal(&joined3(&start, " on non-composite type ", ty))
}

pub(crate) fn unsatisfiable_error(element: &OpPathElement) -> (r: FederationError)
    ensures
        r.deep_view() == unsatisfiable_after(element.deep_view()),
{
    FederationError::internal(&joined("Unexpected unsatisfiable path after ", &describe(element)))
}

pub(crate) fn empty_options_error(element: &OpPathElement) -> (r: FederationError)
    ensures
        r.deep_view() == empty_options_for(element.deep_view()),
{
    FederationError::internal(
        &joined("Unexpected empty options after non-collecting path for ", &describe(element)),
    )
}

pub(crate) fn wrong_parent_error(field: &Field, interface: &str, what: &str) -> (r: FederationError)
    ensures
        r.deep_view() == wrong_parent(field.deep_view(), interface@, what@),
{
    let parent = field.field_position.parent.name();
    let start = joined3(&joined3(parent, ".", field.name()), " requested on ", interface);
    FederationError::internal(&joined(&joined3(&start, ", but field's parent ", parent), what))
}

// Paths.

/// The content of texts.
pub open spec fn texts_view(texts: Seq<String>) -> Seq<Text> {
    texts.map_values(|text: String| text@)
}

/// The first `n` texts, each on an indented line.
pub open spec fn lines_text(texts: Seq<Text>, n: nat) -> Text
    decreases n,
{
    if n == 0 {
        Seq::empty()
    } else {
        lines_text(texts, (n - 1) as nat) + "\n  "@ + texts[n - 1]
    }
}

/// The text of paths that are looked at together, given the text of each of them.
pub open spec fn paths_text(texts: Seq<Text>) -> Text {
    if texts.len() == 0 {
        "<no path>"@
    } else if texts.len() == 1 {
        texts[0]
    } else {
        "{"@ + lines_text(texts, texts.len()) + "\n}"@
    }
}

impl SimultaneousPaths {
    /// The text of the paths, given the text of each of them: several stand in brackets, each on a
    /// line of its own.
    pub fn to_text(&self, texts: &Vec<String>) -> (r: String)
        requires
            texts@.len() == self.paths@.len(),
        ensures
            r@ == paths_text(texts_view(texts@)),
    {
        let ghost all = texts_view(texts@);
        if texts.len() == 0 {
            return "<no path>".to_owned();
        }
        if texts.len() == 1 {
            assert(all[0] == texts@[0]@);
            return texts[0].clone();
        }
        let mut lines = String::new();
        assert(lines@ =~= Seq::empty());
        let mut i: usize = 0;
        while i < texts.len()
            invariant
                i <= texts@.len(),
                all == texts_view(texts@),
                lines@ == lines_text(all, i as nat),
            decreases texts@.len() - i,
        {
            assert(all[i as int] == texts@[i as int]@);
            lines = joined3(&lines, "\n  ", &texts[i]);
            i += 1;
        }
        joined3("{", &lines, "\n}")
    }
}

/// The text of an option to reach a leaf, given the text of each of its paths. There is none where
/// its selections have none.
pub open spec fn closed_path_text(closed: ClosedPathView, texts: Seq<Text>) -> Option<Text> {
    match closed.selection_set {
        None => Some(paths_text(texts)),
        Some(set) => match set_text(set) {
            None => None,
            Some(selections) => Some(paths_text(texts) + " -> "@ + selections),
        },
    }
}

impl ClosedPath {
    /// The text of the option, given the text of each of its paths. There is none where its
    /// selections have none.
    pub fn to_text(&self, texts: &Vec<String>) -> (r: Option<String>)
        requires
            texts@.len() == self.paths.paths@.len(),
        ensures
            r.deep_view() == closed_path_text(self.deep_view(), texts_view(texts@)),
    {
        let paths = self.paths.to_text(texts);
        match &self.selection_set {
            None => Some(paths),
            Some(set) => match set.to_text() {
                Some(selections) => Some(joined3(&paths, " -> ", &selections)),
                None => None,
            },
        }
    }
}

// Conditions.

/// The name of a reason why conditions cannot be satisfied.
pub open spec fn reason_name(reason: UnsatisfiedConditionReason) -> Text {
    match reason {
        UnsatisfiedConditionReason::NoPostRequireKey => "NoPostRequireKey"@,
        UnsatisfiedConditionReason::NoSetContext => "NoSetContext"@,
    }
}

/// Why conditions cannot be satisfied, as text.
pub open spec fn reason_text(reason: Option<UnsatisfiedConditionReason>) -> Text {
    match reason {
        None => "None"@,
        Some(reason) => "Some("@ + reason_name(reason) + ")"@,
    }
}

/// What became of conditions, as text, given the texts of the cost, the path tree and the contexts.
pub open spec fn resolution_text(
    resolution: ResolutionView,
    cost: Text,
    path_tree: Text,
    context_map: Text,
) -> Text {
    match resolution {
        ResolutionView::Satisfied { cost: _, path_tree: tree, context_map: contexts } => {
            let start = "Satisfied: cost="@ + cost + "\n"@;
            let middle = if tree is Some {
                start + "path_tree:\n"@ + path_tree + "\n"@
            } else {
                start
            };
            if contexts is Some {
                middle + ", context_map:\n"@ + context_map + "\n"@
            } else {
                middle
            }
        },
        ResolutionView::Unsatisfied { reason } => "Unsatisfied: reason="@ + reason_text(reason)
            + "\n"@,
    }
}

impl UnsatisfiedConditionReason {
    /// The name of the reason.
    pub fn name(&self) -> (r: &'static str)
        ensures
            r@ == reason_name(*self),
    {
        match self {
            UnsatisfiedConditionReason::NoPostRequireKey => "NoPostRequireKey",
            UnsatisfiedConditionReason::NoSetContext => "NoSetContext",
        }
    }
}

impl ConditionResolution {
    /// What became of the conditions, as text, given the texts of the cost, the path tree and the
    /// contexts.
    pub fn to_text(&self, cost: &str, path_tree: &str, context_map: &str) -> (r: String)
        ensures
            r@ == resolution_text(self.deep_view(), cost@, path_tree@, context_map@),
    {
        match self {
            ConditionResolution::Satisfied { cost: _, path_tree: tree, context_map: contexts } => {
                let mut text = joined3("Satisfied: cost=", cost, "\n");
                if tree.is_some() {
                    text = joined3(&joined(&text, "path_tree:\n"), path_tree, "\n");
                }
                if contexts.is_some() {
                    text = joined3(&joined(&text, ", context_map:\n"), context_map, "\n");
                }
                text
            },
            ConditionResolution::Unsatisfied { reason } => {
                let reason = match reason {
                    None => "None".to_owned(),
                    Some(reason) => joined3("Some(", reason.name(), ")"),
                };
                joined3("Unsatisfied: reason=", &reason, "\n")
            },
        }
    }
}

} // verus!
