//! Paths of operation elements, and the context that they carry.

use crate::ast::Directive;
use crate::ast::DirectiveView;
use crate::ast::Name;
use crate::ast::Value;
use crate::ast::ValueView;
use crate::compiler::printed_value;
use crate::compiler::value_fits;
use crate::compiler::value_text;
use crate::error::internal_error;
use crate::error::result_view;
use crate::error::ErrorView;
use crate::error::FederationError;
use crate::merge::directives::argument_value;
use crate::merge::directives::directive_arg_value;
use crate::merge::directives::first;
use crate::merge::directives::first_directive;
use crate::merge::directives::has_directive;
use crate::merge::directives::is_applied;
use crate::operation::boolean_or_variable;
use crate::operation::casted_type;
use crate::operation::equality::same_directive;
use crate::operation::field_is_leaf;
use crate::operation::fragment_defer;
use crate::operation::fragment_key;
use crate::operation::output_base_type;
use crate::operation::response_name;
use crate::operation::selection::same_field_spec;
use crate::operation::to_boolean_or_variable;
use crate::operation::BooleanOrVariable;
use crate::operation::BooleanOrVariableView;
use crate::operation::DeferDirectiveArguments;
use crate::operation::Field;
use crate::operation::FieldElementView;
use crate::operation::InlineFragment;
use crate::operation::InlineFragmentView;
use crate::operation::SiblingTypename;
use crate::schema::position::as_composite;
use crate::schema::position::composite_name;
use crate::schema::position::subtype;
use crate::schema::position::type_position;
use crate::schema::position::CompositeTypeDefinitionPosition;
use crate::schema::position::CompositeView;
use crate::schema::Schema;
use crate::schema::SchemaView;
use crate::text::joined3;
use crate::text::joined;
use crate::text::same;
use crate::text::Text;
use vstd::prelude::*;

verus! {

/// One step of an operation: a field or an inline fragment.
pub enum OpPathElement {
    Field(Field),
    InlineFragment(InlineFragment),
}

/// The mathematical content of an [`OpPathElement`].
#[verifier::ext_equal]
pub enum ElementView {
    Field(FieldElementView),
    InlineFragment(InlineFragmentView),
}

impl DeepView for OpPathElement {
    type V = ElementView;

    open spec fn deep_view(&self) -> ElementView {
        match self {
            OpPathElement::Field(field) => ElementView::Field(field.deep_view()),
            OpPathElement::InlineFragment(fragment) => ElementView::InlineFragment(
                fragment.deep_view(),
            ),
        }
    }
}

impl Clone for OpPathElement {
    fn clone(&self) -> (r: Self)
        ensures
            r.deep_view() == self.deep_view(),
    {
        match self {
            OpPathElement::Field(field) => OpPathElement::Field(field.clone()),
            OpPathElement::InlineFragment(fragment) => {
                OpPathElement::InlineFragment(fragment.clone())
            },
        }
    }
}

/// The directives of an element.
pub open spec fn element_directives(element: ElementView) -> Seq<DirectiveView> {
    match element {
        ElementView::Field(field) => field.directives,
        ElementView::InlineFragment(fragment) => fragment.directives,
    }
}

/// The type that an element is selected on.
pub open spec fn element_parent(element: ElementView) -> CompositeView {
    match element {
        ElementView::Field(field) => field.field_position.parent,
        ElementView::InlineFragment(fragment) => fragment.parent_type_position,
    }
}

/// The type that the selections below an element are on, if it has any.
pub open spec fn sub_selection_type(element: ElementView) -> Result<
    Option<CompositeView>,
    ErrorView,
> {
    match element {
        ElementView::Field(field) => match output_base_type(field) {
            Ok(position) => Ok(as_composite(position)),
            Err(error) => Err(error),
        },
        ElementView::InlineFragment(fragment) => Ok(Some(casted_type(fragment))),
    }
}

/// Whether nothing is selected below an element.
pub open spec fn element_is_terminal(element: ElementView) -> Result<bool, ErrorView> {
    match element {
        ElementView::Field(field) => field_is_leaf(field),
        ElementView::InlineFragment(_) => Ok(false),
    }
}

/// Whether two elements ask for the same thing.
pub open spec fn same_element_spec(a: ElementView, b: ElementView) -> bool {
    match (a, b) {
        (ElementView::Field(x), ElementView::Field(y)) => same_field_spec(x, y),
        (ElementView::InlineFragment(x), ElementView::InlineFragment(y)) => fragment_key(x)
            == fragment_key(y),
        _ => false,
    }
}

/// Where the result of an element is found in the data of a response.
pub enum FetchDataPathElement {
    /// Below the given key.
    Key(Name),
    /// In objects of the given type.
    TypenameEquals(Name),
}

/// The mathematical content of a [`FetchDataPathElement`].
#[verifier::ext_equal]
pub enum DataPathView {
    Key(Text),
    TypenameEquals(Text),
}

impl DeepView for FetchDataPathElement {
    type V = DataPathView;

    open spec fn deep_view(&self) -> DataPathView {
        match self {
            FetchDataPathElement::Key(name) => DataPathView::Key(name@),
            FetchDataPathElement::TypenameEquals(name) => DataPathView::TypenameEquals(name@),
        }
    }
}

impl Clone for FetchDataPathElement {
    fn clone(&self) -> (r: Self)
        ensures
            r.deep_view() == self.deep_view(),
    {
        match self {
            FetchDataPathElement::Key(name) => FetchDataPathElement::Key(name.clone()),
            FetchDataPathElement::TypenameEquals(name) => {
                FetchDataPathElement::TypenameEquals(name.clone())
            },
        }
    }
}

/// Where the result of an element is found; a fragment without type condition adds no step.
pub open spec fn element_data_path(element: ElementView) -> Option<DataPathView> {
    match element {
        ElementView::Field(field) => Some(DataPathView::Key(response_name(field))),
        ElementView::InlineFragment(fragment) => match fragment.type_condition_position {
            Some(position) => Some(DataPathView::TypenameEquals(composite_name(position))),
            None => None,
        },
    }
}

/// The two conditions under which an element is left out or taken.
#[derive(Clone, Copy, Debug, PartialEq, Eq, Structural)]
pub enum OperationConditionalKind {
    Skip,
    Include,
}

/// The name of the directive.
pub open spec fn conditional_name(kind: OperationConditionalKind) -> Text {
    match kind {
        OperationConditionalKind::Skip => "skip"@,
        OperationConditionalKind::Include => "include"@,
    }
}

impl OperationConditionalKind {
    /// The name of the directive.
    pub fn name(&self) -> (r: &'static str)
        ensures
            r@ == conditional_name(*self),
    {
        match self {
            OperationConditionalKind::Skip => "skip",
            OperationConditionalKind::Include => "include",
        }
    }
}

/// An applied `@skip` or `@include`.
pub struct OperationConditional {
    pub kind: OperationConditionalKind,
    pub value: BooleanOrVariable,
}

/// The mathematical content of an [`OperationConditional`].
#[verifier::ext_equal]
pub struct ConditionalView {
    pub kind: OperationConditionalKind,
    pub value: BooleanOrVariableView,
}

impl DeepView for OperationConditional {
    type V = ConditionalView;

    open spec fn deep_view(&self) -> ConditionalView {
        ConditionalView {
            kind: self.kind,
            value: self.value.deep_view(),
        }
    }
}

impl Clone for OperationConditional {
    fn clone(&self) -> (r: Self)
        ensures
            r.deep_view() == self.deep_view(),
    {
        OperationConditional {
            kind: self.kind,
            value: self.value.clone(),
        }
    }
}

/// The `@skip` and `@include` met on the way to an element, the innermost first.
pub struct OpGraphPathContext {
    pub conditionals: Vec<OperationConditional>,
}

/// The mathematical content of an [`OpGraphPathContext`].
#[verifier::ext_equal]
pub struct ContextView {
    pub conditionals: Seq<ConditionalView>,
}

impl DeepView for OpGraphPathContext {
    type V = ContextView;

    open spec fn deep_view(&self) -> ContextView {
        ContextView {
            conditionals: self.conditionals.deep_view(),
        }
    }
}

impl Clone for OpGraphPathContext {
    fn clone(&self) -> (r: Self)
        ensures
            r.deep_view() == self.deep_view(),
    {
        let conditionals = self.conditionals.clone();
        assert(conditionals.deep_view() =~= self.conditionals.deep_view());
        OpGraphPathContext {
            conditionals,
        }
    }
}

/// What is said of a condition that is neither a boolean nor a variable. A value that cannot be
/// printed is left out.
pub open spec fn invalid_condition(kind: OperationConditionalKind, value: ValueView) -> Text {
    if value_fits(value) {
        "@"@ + conditional_name(kind) + " has invalid value "@ + printed_value(value)
            + " for argument \"if\""@
    } else {
        "@"@ + conditional_name(kind) + " has invalid value for argument \"if\""@
    }
}

fn invalid_condition_message(kind: OperationConditionalKind, value: &Value) -> (r: String)
    ensures
        r@ == invalid_condition(kind, value.deep_view()),
{
    match value_text(value) {
        Some(text) => {
            let begin = joined3("@", kind.name(), " has invalid value ");
            joined3(&begin, &text, " for argument \"if\"")
        },
        None => joined3("@", kind.name(), " has invalid value for argument \"if\""),
    }
}

/// The condition of the given kind on an element.
pub open spec fn element_conditional(element: ElementView, kind: OperationConditionalKind) -> Result<
    Option<ConditionalView>,
    ErrorView,
> {
    match first_directive(element_directives(element), conditional_name(kind)) {
        None => Ok(None),
        Some(application) => match argument_value(application.arguments, "if"@) {
            None => Err(
                internal_error(
                    "@"@ + conditional_name(kind) + " missing required argument \"if\""@,
                ),
            ),
            Some(value) => match boolean_or_variable(value) {
                Some(condition) => Ok(Some(ConditionalView { kind, value: condition })),
                None => Err(internal_error(invalid_condition(kind, value))),
            },
        },
    }
}

/// The conditions on an element: `@skip`, then `@include`.
pub open spec fn element_conditionals(element: ElementView) -> Result<
    Seq<ConditionalView>,
    ErrorView,
> {
    match element_conditional(element, OperationConditionalKind::Skip) {
        Err(error) => Err(error),
        Ok(skip) => match element_conditional(element, OperationConditionalKind::Include) {
            Err(error) => Err(error),
            Ok(included) => Ok(optional(skip) + optional(included)),
        },
    }
}

/// The value, or nothing, as a sequence.
pub open spec fn optional<T>(value: Option<T>) -> Seq<T> {
    match value {
        Some(v) => seq![v],
        None => Seq::empty(),
    }
}

/// The context behind an element: its own conditions stand before the earlier ones.
pub open spec fn context_with(context: ContextView, element: ElementView) -> Result<
    ContextView,
    ErrorView,
> {
    match element_conditionals(element) {
        Err(error) => Err(error),
        Ok(conditionals) => Ok(
            ContextView { conditionals: conditionals + context.conditionals },
        ),
    }
}

/// Whether the first is to be preferred over the second: the one with a sibling `__typename`,
/// where only one of the two has it.
pub open spec fn preference(a: ElementView, b: ElementView) -> Option<bool> {
    match (a, b) {
        (ElementView::Field(x), ElementView::Field(y)) => {
            if x.sibling_typename is Some && y.sibling_typename is None {
                Some(true)
            } else if x.sibling_typename is None && y.sibling_typename is Some {
                Some(false)
            } else {
                None
            }
        },
        _ => None,
    }
}

/// The element without `@defer`; nothing where it then says nothing.
pub open spec fn element_without_defer(element: ElementView) -> Option<ElementView> {
    match element {
        ElementView::Field(_) => Some(element),
        ElementView::InlineFragment(fragment) => {
            let kept = fragment.directives.filter(|d: DirectiveView| d.name != "defer"@);
            if fragment.type_condition_position is None && kept.len() == 0 {
                None
            } else {
                Some(
                    ElementView::InlineFragment(
                        InlineFragmentView { directives: kept, ..fragment },
                    ),
                )
            }
        },
    }
}

/// The directives that are not of the given name.
pub fn directives_without(directives: &Vec<Directive>, name: &str) -> (r: Vec<Directive>)
    ensures
        r.deep_view() == directives.deep_view().filter(|d: DirectiveView| d.name != name@),
{
    let ghost all = directives.deep_view();
    let ghost kept = |d: DirectiveView| d.name != name@;
    let mut r: Vec<Directive> = Vec::new();
    let mut i: usize = 0;
    assert(r.deep_view() =~= all.take(0).filter(kept)) by {
        reveal(Seq::filter);
    }
    while i < directives.len()
        invariant
            i <= directives.len(),
            all == directives.deep_view(),
            kept == (|d: DirectiveView| d.name != name@),
            r.deep_view() == all.take(i as int).filter(kept),
        decreases directives.len() - i,
    {
        let ghost before = r.deep_view();
        assert(all.take(i + 1).drop_last() =~= all.take(i as int));
        assert(all.take(i + 1).last() == directives@[i as int].deep_view());
        assert(all.take(i + 1).filter(kept) == (if kept(all[i as int]) {
            before.push(all[i as int])
        } else {
            before
        })) by {
            reveal(Seq::filter);
        }
        if !same(&directives[i].name, name) {
            r.push(directives[i].clone());
            assert(r.deep_view() =~= before.push(all[i as int]));
        }
        i += 1;
    }
    assert(all.take(i as int) =~= all);
    r
}

impl OpPathElement {
    /// The directives of the element.
    pub fn directives(&self) -> (r: &Vec<Directive>)
        ensures
            r.deep_view() == element_directives(self.deep_view()),
    {
        match self {
            OpPathElement::Field(field) => &field.directives,
            OpPathElement::InlineFragment(fragment) => &fragment.directives,
        }
    }

    /// The schema that the element is on.
    pub fn schema(&self) -> (r: &std::sync::Arc<Schema>)
        ensures
            r.deep_view() == (match self.deep_view() {
                ElementView::Field(field) => field.schema,
                ElementView::InlineFragment(fragment) => fragment.schema,
            }),
    {
        match self {
            OpPathElement::Field(field) => &field.schema,
            OpPathElement::InlineFragment(fragment) => &fragment.schema,
        }
    }

    /// Whether nothing is selected below the element.
    pub fn is_terminal(&self) -> (r: Result<bool, FederationError>)
        ensures
            result_view(r) == element_is_terminal(self.deep_view()),
    {
        match self {
            OpPathElement::Field(field) => field.is_leaf(),
            OpPathElement::InlineFragment(_) => Ok(false),
        }
    }

    /// How the `__typename` beside the element is to be restored.
    pub fn sibling_typename(&self) -> (r: Option<&SiblingTypename>)
        ensures
            r.deep_view() == (match self.deep_view() {
                ElementView::Field(field) => field.sibling_typename,
                ElementView::InlineFragment(_) => None,
            }),
    {
        match self {
            OpPathElement::Field(field) => field.sibling_typename.as_ref(),
            OpPathElement::InlineFragment(_) => None,
        }
    }

    /// The type that the element is selected on.
    pub fn parent_type_position(&self) -> (r: &CompositeTypeDefinitionPosition)
        ensures
            r.deep_view() == element_parent(self.deep_view()),
    {
        match self {
            OpPathElement::Field(field) => &field.field_position.parent,
            OpPathElement::InlineFragment(fragment) => &fragment.parent_type_position,
        }
    }

    /// The type that the selections below the element are on, if it has any.
    pub fn sub_selection_type_position(&self) -> (r: Result<
        Option<CompositeTypeDefinitionPosition>,
        FederationError,
    >)
        ensures
            result_view(r) == sub_selection_type(self.deep_view()),
    {
        match self {
            OpPathElement::Field(field) => match field.output_base_type() {
                Ok(position) => Ok(position.to_composite()),
                Err(error) => Err(error),
            },
            OpPathElement::InlineFragment(fragment) => Ok(Some(fragment.casted_type().clone())),
        }
    }

    fn extract_conditional(&self, kind: OperationConditionalKind) -> (r: Result<
        Option<OperationConditional>,
        FederationError,
    >)
        ensures
            result_view(r) == element_conditional(self.deep_view(), kind),
    {
        let application = match first(self.directives(), kind.name()) {
            Some(application) => application,
            None => {
                return Ok(None);
            },
        };
        match directive_arg_value(application, "if") {
            None => Err(
                FederationError::internal(
                    &joined3("@", kind.name(), " missing required argument \"if\""),
                ),
            ),
            Some(value) => match to_boolean_or_variable(value) {
                Some(value) => Ok(Some(OperationConditional { kind, value })),
                None => Err(FederationError::internal(&invalid_condition_message(kind, value))),
            },
        }
    }

    /// The conditions on the element: `@skip`, then `@include`.
    pub fn extract_operation_conditionals(&self) -> (r: Result<
        Vec<OperationConditional>,
        FederationError,
    >)
        ensures
            result_view(r) == element_conditionals(self.deep_view()),
    {
        let mut conditionals: Vec<OperationConditional> = Vec::new();
        let skip = match self.extract_conditional(OperationConditionalKind::Skip) {
            Ok(skip) => skip,
            Err(error) => {
                return Err(error);
            },
        };
        let included = match self.extract_conditional(OperationConditionalKind::Include) {
            Ok(included) => included,
            Err(error) => {
                return Err(error);
            },
        };
        let ghost expected = optional(skip.deep_view()) + optional(included.deep_view());
        if let Some(conditional) = skip {
            conditionals.push(conditional);
        }
        if let Some(conditional) = included {
            conditionals.push(conditional);
        }
        assert(conditionals.deep_view() =~= expected);
        Ok(conditionals)
    }

    /// The element with other directives.
    pub fn with_updated_directives(&self, directives: Vec<Directive>) -> (r: Self)
        ensures
            r.deep_view() == (match self.deep_view() {
                ElementView::Field(field) => ElementView::Field(
                    FieldElementView { directives: directives.deep_view(), ..field },
                ),
                ElementView::InlineFragment(fragment) => ElementView::InlineFragment(
                    InlineFragmentView { directives: directives.deep_view(), ..fragment },
                ),
            }),
    {
        match self {
            OpPathElement::Field(field) => {
                OpPathElement::Field(field.with_updated_directives(directives))
            },
            OpPathElement::InlineFragment(fragment) => {
                OpPathElement::InlineFragment(fragment.with_updated_directives(directives))
            },
        }
    }

    /// Where the result of the element is found in the data of a response.
    pub fn as_path_element(&self) -> (r: Option<FetchDataPathElement>)
        ensures
            r.deep_view() == element_data_path(self.deep_view()),
    {
        match self {
            OpPathElement::Field(field) => Some(
                FetchDataPathElement::Key(field.response_name().clone()),
            ),
            OpPathElement::InlineFragment(fragment) => match &fragment.type_condition_position {
                Some(position) => Some(
                    FetchDataPathElement::TypenameEquals(position.name().clone()),
                ),
                None => None,
            },
        }
    }

    /// The arguments of `@defer` on the element, where they can be read.
    pub fn defer_directive_args(&self) -> (r: Option<DeferDirectiveArguments>)
        ensures
            r.deep_view() == (match self.deep_view() {
                ElementView::Field(_) => None,
                ElementView::InlineFragment(fragment) => match fragment_defer(fragment) {
                    Ok(arguments) => arguments,
                    Err(_) => None,
                },
            }),
    {
        match self {
            OpPathElement::Field(_) => None,
            OpPathElement::InlineFragment(fragment) => match fragment.defer_directive_arguments() {
                Ok(arguments) => arguments,
                Err(_) => None,
            },
        }
    }

    /// Whether the element is deferred.
    pub fn has_defer(&self) -> (r: bool)
        ensures
            r == (self.deep_view() is InlineFragment && has_directive(
                element_directives(self.deep_view()),
                "defer"@,
            )),
    {
        match self {
            OpPathElement::Field(_) => false,
            OpPathElement::InlineFragment(fragment) => is_applied(&fragment.directives, "defer"),
        }
    }

    /// The element without `@defer`. Nothing comes back where the fragment then has neither a
    /// type condition nor directives.
    pub fn without_defer(&self) -> (r: Option<Self>)
        ensures
            r.deep_view() == element_without_defer(self.deep_view()),
    {
        match self {
            OpPathElement::Field(_) => Some(self.clone()),
            OpPathElement::InlineFragment(fragment) => {
                let updated_directives = directives_without(&fragment.directives, "defer");
                if fragment.type_condition_position.is_none() && updated_directives.len() == 0 {
                    None
                } else {
                    Some(self.with_updated_directives(updated_directives))
                }
            },
        }
    }

    /// Whether the element is to be preferred over another one.
    pub fn preferred_over(&self, other: &Self) -> (r: Option<bool>)
        ensures
            r == preference(self.deep_view(), other.deep_view()),
    {
        match (self, other) {
            (OpPathElement::Field(x), OpPathElement::Field(y)) => {
                match (&x.sibling_typename, &y.sibling_typename) {
                    (Some(_), None) => Some(true),
                    (None, Some(_)) => Some(false),
                    _ => None,
                }
            },
            _ => None,
        }
    }

    /// Whether two elements ask for the same thing.
    pub fn same_as(&self, other: &Self) -> (r: bool)
        ensures
            r == same_element_spec(self.deep_view(), other.deep_view()),
    {
        match (self, other) {
            (OpPathElement::Field(x), OpPathElement::Field(y)) => x.same_as(y),
            (OpPathElement::InlineFragment(x), OpPathElement::InlineFragment(y)) => x.same_key(y),
            _ => false,
        }
    }
}

/// The conditions of a context as text.
pub open spec fn condition_text(conditional: ConditionalView) -> Text {
    let value = match conditional.value {
        BooleanOrVariableView::Boolean(b) => if b {
            "true"@
        } else {
            "false"@
        },
        BooleanOrVariableView::Variable(name) => "$"@ + name,
    };
    "@"@ + conditional_name(conditional.kind) + "(if: "@ + value + ")"@
}

/// The first `n` conditions of a context as text.
pub open spec fn conditions_text(conditionals: Seq<ConditionalView>, n: nat) -> Text
    decreases n,
{
    if n == 0 {
        Seq::empty()
    } else if n == 1 {
        condition_text(conditionals[0])
    } else {
        conditions_text(conditionals, (n - 1) as nat) + ", "@ + condition_text(
            conditionals[n - 1],
        )
    }
}

fn write_condition(conditional: &OperationConditional) -> (r: String)
    ensures
        r@ == condition_text(conditional.deep_view()),
{
    let value = match &conditional.value {
        BooleanOrVariable::Boolean(b) => if *b {
            "true".to_owned()
        } else {
            "false".to_owned()
        },
        BooleanOrVariable::Variable(name) => joined("$", name),
    };
    let head = joined3("@", conditional.kind.name(), "(if: ");
    joined3(&head, &value, ")")
}

impl OpGraphPathContext {
    /// A context without conditions.
    pub fn new() -> (r: Self)
        ensures
            r.deep_view() == (ContextView { conditionals: Seq::empty() }),
    {
        let r = OpGraphPathContext { conditionals: Vec::new() };
        assert(r.conditionals.deep_view() =~= Seq::empty());
        r
    }

    /// The context behind an element.
    pub fn with_context_of(&self, operation_element: &OpPathElement) -> (r: Result<
        OpGraphPathContext,
        FederationError,
    >)
        ensures
            result_view(r) == context_with(self.deep_view(), operation_element.deep_view()),
    {
        let mut conditionals = match operation_element.extract_operation_conditionals() {
            Ok(conditionals) => conditionals,
            Err(error) => {
                return Err(error);
            },
        };
        let ghost own = conditionals.deep_view();
        let mut earlier = self.clone().conditionals;
        let ghost before = earlier.deep_view();
        conditionals.append(&mut earlier);
        assert(conditionals.deep_view() =~= own + before);
        Ok(OpGraphPathContext { conditionals })
    }

    /// Whether there is no condition.
    pub fn is_empty(&self) -> (r: bool)
        ensures
            r == (self.deep_view().conditionals.len() == 0),
    {
        self.conditionals.len() == 0
    }

    /// The conditions, the innermost first.
    pub fn iter(&self) -> (r: &Vec<OperationConditional>)
        ensures
            r.deep_view() == self.deep_view().conditionals,
    {
        &self.conditionals
    }

    /// The context as text.
    pub fn to_text(&self) -> (r: String)
        ensures
            r@ == "["@ + conditions_text(
                self.deep_view().conditionals,
                self.deep_view().conditionals.len(),
            ) + "]"@,
    {
        let ghost all = self.conditionals.deep_view();
        let mut text = String::new();
        let mut i: usize = 0;
        while i < self.conditionals.len()
            invariant
                i <= self.conditionals.len(),
                all == self.conditionals.deep_view(),
                text@ == conditions_text(all, i as nat),
            decreases self.conditionals.len() - i,
        {
            assert(all[i as int] == self.conditionals@[i as int].deep_view());
            let condition = write_condition(&self.conditionals[i]);
            text = if i == 0 {
                condition
            } else {
                joined3(&text, ", ", &condition)
            };
            i += 1;
        }
        joined3("[", &text, "]")
    }
}

/// What a step of a graph path was taken for.
pub enum OpGraphPathTrigger {
    OpPathElement(OpPathElement),
    Context(OpGraphPathContext),
}

/// The mathematical content of an [`OpGraphPathTrigger`].
#[verifier::ext_equal]
pub enum TriggerView {
    OpPathElement(ElementView),
    Context(ContextView),
}

impl DeepView for OpGraphPathTrigger {
    type V = TriggerView;

    open spec fn deep_view(&self) -> TriggerView {
        match self {
            OpGraphPathTrigger::OpPathElement(element) => TriggerView::OpPathElement(
                element.deep_view(),
            ),
            OpGraphPathTrigger::Context(context) => TriggerView::Context(context.deep_view()),
        }
    }
}

impl Clone for OpGraphPathTrigger {
    fn clone(&self) -> (r: Self)
        ensures
            r.deep_view() == self.deep_view(),
    {
        match self {
            OpGraphPathTrigger::OpPathElement(element) => {
                OpGraphPathTrigger::OpPathElement(element.clone())
            },
            OpGraphPathTrigger::Context(context) => OpGraphPathTrigger::Context(context.clone()),
        }
    }
}

impl OpGraphPathTrigger {
    /// The type that the field was selected on, for a field.
    pub fn get_field_parent_type(&self) -> (r: Option<&CompositeTypeDefinitionPosition>)
        ensures
            r.deep_view() == (match self.deep_view() {
                TriggerView::OpPathElement(ElementView::Field(field)) => Some(
                    field.field_position.parent,
                ),
                _ => None,
            }),
    {
        match self {
            OpGraphPathTrigger::OpPathElement(OpPathElement::Field(field)) => Some(
                &field.field_position.parent,
            ),
            _ => None,
        }
    }

    /// The field, for changing it, if there is one.
    pub fn get_field_mut(&mut self) -> (r: Option<&mut Field>)
        ensures
            match r {
                Some(field) => *old(self) == OpGraphPathTrigger::OpPathElement(
                    OpPathElement::Field(*field),
                ) && *final(self) == OpGraphPathTrigger::OpPathElement(
                    OpPathElement::Field(*final(field)),
                ),
                None => *final(self) == *old(self) && !(*old(self) matches
                    OpGraphPathTrigger::OpPathElement(OpPathElement::Field(_))),
            },
    {
        match self {
            OpGraphPathTrigger::OpPathElement(OpPathElement::Field(field)) => Some(field),
            _ => None,
        }
    }

    /// The operation element, if there is one.
    pub fn get_op_path_element(&self) -> (r: Option<&OpPathElement>)
        ensures
            r.deep_view() == (match self.deep_view() {
                TriggerView::OpPathElement(element) => Some(element),
                TriggerView::Context(_) => None,
            }),
    {
        match self {
            OpGraphPathTrigger::OpPathElement(element) => Some(element),
            OpGraphPathTrigger::Context(_) => None,
        }
    }

    /// Whether the trigger is to be preferred over another one.
    pub fn preferred_over(&self, other: &Self) -> (r: Option<bool>)
        ensures
            r == (match (self.deep_view(), other.deep_view()) {
                (TriggerView::OpPathElement(x), TriggerView::OpPathElement(y)) => preference(x, y),
                _ => None,
            }),
    {
        match (self, other) {
            (OpGraphPathTrigger::OpPathElement(x), OpGraphPathTrigger::OpPathElement(y)) => {
                x.preferred_over(y)
            },
            _ => None,
        }
    }
}

/// A path of operation elements.
pub struct OpPath(pub Vec<OpPathElement>);

impl DeepView for OpPath {
    type V = Seq<ElementView>;

    open spec fn deep_view(&self) -> Seq<ElementView> {
        self.0.deep_view()
    }
}

impl Clone for OpPath {
    fn clone(&self) -> (r: Self)
        ensures
            r.deep_view() == self.deep_view(),
    {
        let elements = self.0.clone();
        assert(elements.deep_view() =~= self.0.deep_view());
        OpPath(elements)
    }
}

/// Whether a path begins with another one.
pub open spec fn has_prefix(path: Seq<ElementView>, prefix: Seq<ElementView>) -> bool {
    prefix.len() <= path.len() && forall|i: int|
        0 <= i < prefix.len() ==> same_element_spec(#[trigger] path[i], prefix[i])
}

/// Whether a directive is `@skip` or `@include`.
pub open spec fn is_conditional(directive: DirectiveView) -> bool {
    directive.name == "include"@ || directive.name == "skip"@
}

/// The `@skip` and `@include` of the first `n` elements.
pub open spec fn path_conditionals(path: Seq<ElementView>, n: nat) -> Seq<DirectiveView>
    decreases n,
{
    if n == 0 {
        Seq::empty()
    } else {
        path_conditionals(path, (n - 1) as nat) + element_directives(path[n - 1]).filter(
            |d: DirectiveView| is_conditional(d),
        )
    }
}

/// An element on a schema that may lack its type condition: a fragment whose condition is not
/// there is dropped, unless it has directives, which are kept without the condition.
pub open spec fn element_on_schema(element: ElementView, schema: SchemaView) -> Seq<ElementView> {
    match element {
        ElementView::Field(_) => seq![element],
        ElementView::InlineFragment(fragment) => match fragment.type_condition_position {
            None => seq![element],
            Some(condition) => if type_position(schema, composite_name(condition)) is Some {
                seq![element]
            } else if fragment.directives.len() == 0 {
                Seq::empty()
            } else {
                seq![
                    ElementView::InlineFragment(
                        InlineFragmentView { type_condition_position: None, ..fragment },
                    ),
                ]
            },
        },
    }
}

/// The first `n` elements on a schema.
pub open spec fn path_on_schema(path: Seq<ElementView>, schema: SchemaView, n: nat) -> Seq<
    ElementView,
>
    decreases n,
{
    if n == 0 {
        Seq::empty()
    } else {
        path_on_schema(path, schema, (n - 1) as nat) + element_on_schema(path[n - 1], schema)
    }
}

fn push_conditionals(directives: &Vec<Directive>, found: &mut Vec<Directive>)
    ensures
        final(found).deep_view() == old(found).deep_view() + directives.deep_view().filter(
            |d: DirectiveView| is_conditional(d),
        ),
{
    let ghost all = directives.deep_view();
    let ghost kept = |d: DirectiveView| is_conditional(d);
    let mut i: usize = 0;
    assert(old(found).deep_view() =~= old(found).deep_view() + all.take(0).filter(kept)) by {
        reveal(Seq::filter);
    }
    while i < directives.len()
        invariant
            i <= directives.len(),
            all == directives.deep_view(),
            kept == (|d: DirectiveView| is_conditional(d)),
            found.deep_view() == old(found).deep_view() + all.take(i as int).filter(kept),
        decreases directives.len() - i,
    {
        let ghost before = all.take(i as int).filter(kept);
        let ghost now = found.deep_view();
        assert(all.take(i + 1).drop_last() =~= all.take(i as int));
        assert(all.take(i + 1).last() == directives@[i as int].deep_view());
        assert(all.take(i + 1).filter(kept) == (if kept(all[i as int]) {
            before.push(all[i as int])
        } else {
            before
        })) by {
            reveal(Seq::filter);
        }
        if same(&directives[i].name, "include") || same(&directives[i].name, "skip") {
            found.push(directives[i].clone());
            assert(found.deep_view() =~= now.push(all[i as int]));
            assert(found.deep_view() =~= old(found).deep_view() + before.push(all[i as int]));
        }
        i += 1;
    }
    assert(all.take(i as int) =~= all);
}

impl OpPath {
    /// The number of elements.
    pub fn len(&self) -> (r: usize)
        ensures
            r == self.deep_view().len(),
    {
        self.0.len()
    }

    /// Whether there is no element.
    pub fn is_empty(&self) -> (r: bool)
        ensures
            r == (self.deep_view().len() == 0),
    {
        self.0.len() == 0
    }

    /// What follows a prefix, where the path begins with it.
    pub fn strip_prefix(&self, maybe_prefix: &Self) -> (r: Option<Self>)
        ensures
            r.deep_view() == (if has_prefix(self.deep_view(), maybe_prefix.deep_view()) {
                Some(self.deep_view().skip(maybe_prefix.deep_view().len() as int))
            } else {
                None
            }),
    {
        let ghost path = self.deep_view();
        let ghost prefix = maybe_prefix.deep_view();
        if maybe_prefix.0.len() > self.0.len() {
            return None;
        }
        let mut i: usize = 0;
        while i < maybe_prefix.0.len()
            invariant
                i <= maybe_prefix.0.len() <= self.0.len(),
                path == self.deep_view(),
                prefix == maybe_prefix.deep_view(),
                forall|j: int| 0 <= j < i ==> same_element_spec(#[trigger] path[j], prefix[j]),
            decreases maybe_prefix.0.len() - i,
        {
            assert(path[i as int] == self.0@[i as int].deep_view());
            assert(prefix[i as int] == maybe_prefix.0@[i as int].deep_view());
            if !self.0[i].same_as(&maybe_prefix.0[i]) {
                return None;
            }
            i += 1;
        }
        let mut rest: Vec<OpPathElement> = Vec::new();
        while i < self.0.len()
            invariant
                maybe_prefix.0.len() <= i <= self.0.len(),
                path == self.deep_view(),
                prefix == maybe_prefix.deep_view(),
                rest.deep_view() == path.subrange(prefix.len() as int, i as int),
            decreases self.0.len() - i,
        {
            assert(path[i as int] == self.0@[i as int].deep_view());
            let ghost before = rest.deep_view();
            rest.push(self.0[i].clone());
            assert(rest.deep_view() =~= before.push(path[i as int]));
            assert(path.subrange(prefix.len() as int, i + 1) =~= before.push(path[i as int]));
            i += 1;
        }
        assert(path.subrange(prefix.len() as int, i as int) =~= path.skip(prefix.len() as int));
        Some(OpPath(rest))
    }

    /// The path with one more element.
    pub fn with_pushed(&self, element: OpPathElement) -> (r: Self)
        ensures
            r.deep_view() == self.deep_view().push(element.deep_view()),
    {
        let mut r = self.clone();
        let ghost before = r.deep_view();
        r.0.push(element);
        assert(r.deep_view() =~= before.push(element.deep_view()));
        r
    }

    /// The `@skip` and `@include` on the elements.
    pub fn conditional_directives(&self) -> (r: Vec<Directive>)
        ensures
            r.deep_view() == path_conditionals(self.deep_view(), self.deep_view().len()),
    {
        let ghost path = self.deep_view();
        let mut found: Vec<Directive> = Vec::new();
        let mut i: usize = 0;
        assert(found.deep_view() =~= Seq::empty());
        while i < self.0.len()
            invariant
                i <= self.0.len(),
                path == self.deep_view(),
                found.deep_view() == path_conditionals(path, i as nat),
            decreases self.0.len() - i,
        {
            assert(path[i as int] == self.0@[i as int].deep_view());
            push_conditionals(self.0[i].directives(), &mut found);
            i += 1;
        }
        found
    }

    /// The path on a schema that may lack some of its type conditions.
    pub fn filter_on_schema(&self, schema: &Schema) -> (r: OpPath)
        ensures
            r.deep_view() == path_on_schema(
                self.deep_view(),
                schema.deep_view(),
                self.deep_view().len(),
            ),
    {
        let ghost path = self.deep_view();
        let mut filtered: Vec<OpPathElement> = Vec::new();
        let mut i: usize = 0;
        assert(filtered.deep_view() =~= Seq::empty());
        while i < self.0.len()
            invariant
                i <= self.0.len(),
                path == self.deep_view(),
                filtered.deep_view() == path_on_schema(path, schema.deep_view(), i as nat),
            decreases self.0.len() - i,
        {
            let element = &self.0[i];
            assert(path[i as int] == element.deep_view());
            let ghost before = filtered.deep_view();
            match element {
                OpPathElement::InlineFragment(fragment) => {
                    match &fragment.type_condition_position {
                        Some(type_condition) => {
                            if schema.try_get_type(type_condition.name()).is_some() {
                                filtered.push(element.clone());
                            } else if fragment.directives.len() != 0 {
                                filtered.push(
                                    OpPathElement::InlineFragment(
                                        fragment.with_updated_type_condition(None),
                                    ),
                                );
                            }
                        },
                        None => {
                            filtered.push(element.clone());
                        },
                    }
                },
                OpPathElement::Field(_) => {
                    filtered.push(element.clone());
                },
            }
            assert(filtered.deep_view() =~= before + element_on_schema(
                element.deep_view(),
                schema.deep_view(),
            ));
            i += 1;
        }
        OpPath(filtered)
    }

    /// Whether all elements are fragments.
    pub fn has_only_fragments(&self) -> (r: bool)
        ensures
            r == (forall|i: int|
                0 <= i < self.deep_view().len() ==> (#[trigger] self.deep_view()[i])
                    is InlineFragment),
    {
        let ghost path = self.deep_view();
        let mut i: usize = 0;
        while i < self.0.len()
            invariant
                i <= self.0.len(),
                path == self.deep_view(),
                forall|j: int| 0 <= j < i ==> (#[trigger] path[j]) is InlineFragment,
            decreases self.0.len() - i,
        {
            assert(path[i as int] == self.0@[i as int].deep_view());
            match &self.0[i] {
                OpPathElement::Field(_) => {
                    return false;
                },
                OpPathElement::InlineFragment(_) => {},
            }
            i += 1;
        }
        true
    }
}

/// The type behind an element: the type of a field, or the type condition of a fragment.
pub open spec fn type_behind(element: ElementView) -> Result<Option<CompositeView>, ErrorView> {
    match element {
        ElementView::Field(field) => match output_base_type(field) {
            Err(error) => Err(error),
            Ok(position) => match as_composite(position) {
                Some(composite) => Ok(Some(composite)),
                None => Err(internal_error("Type of the field is not composite"@)),
            },
        },
        ElementView::InlineFragment(fragment) => Ok(fragment.type_condition_position),
    }
}

/// Whether a fragment says nothing after `first`: its type condition is that of the first element
/// or a supertype of it, and all its directives are among the given ones.
pub open spec fn useless_followup(
    first: ElementView,
    followup: ElementView,
    conditionals: Seq<DirectiveView>,
) -> Result<bool, ErrorView> {
    match type_behind(first) {
        Err(error) => Err(error),
        Ok(None) => Ok(false),
        Ok(Some(of_first)) => match followup {
            ElementView::Field(_) => Ok(false),
            ElementView::InlineFragment(fragment) => match fragment.type_condition_position {
                None => Ok(false),
                Some(of_second) => Ok(
                    (forall|i: int|
                        0 <= i < fragment.directives.len() ==> conditionals.contains(
                            #[trigger] fragment.directives[i],
                        )) && (composite_name(of_first) == composite_name(of_second) || subtype(
                        match first {
                            ElementView::Field(field) => field.schema,
                            ElementView::InlineFragment(f) => f.schema,
                        },
                        composite_name(of_second),
                        composite_name(of_first),
                    )),
                ),
            },
        },
    }
}

fn contains_directive(directives: &Vec<Directive>, directive: &Directive) -> (r: bool)
    ensures
        r == directives.deep_view().contains(directive.deep_view()),
{
    let ghost all = directives.deep_view();
    let mut i: usize = 0;
    while i < directives.len()
        invariant
            i <= directives.len(),
            all == directives.deep_view(),
            forall|j: int| 0 <= j < i ==> all[j] != directive.deep_view(),
        decreases directives.len() - i,
    {
        assert(all[i as int] == directives@[i as int].deep_view());
        if same_directive(&directives[i], directive) {
            return true;
        }
        i += 1;
    }
    false
}

/// Whether a fragment says nothing after `first`.
pub fn is_useless_followup_element(
    first: &OpPathElement,
    followup: &OpPathElement,
    conditionals: &Vec<Directive>,
) -> (r: Result<bool, FederationError>)
    ensures
        result_view(r) == useless_followup(
            first.deep_view(),
            followup.deep_view(),
            conditionals.deep_view(),
        ),
{
    let type_of_first: CompositeTypeDefinitionPosition = match first {
        OpPathElement::Field(field) => match field.output_base_type() {
            Err(error) => {
                return Err(error);
            },
            Ok(position) => match position.to_composite() {
                Some(composite) => composite,
                None => {
                    return Err(FederationError::internal("Type of the field is not composite"));
                },
            },
        },
        OpPathElement::InlineFragment(fragment) => match &fragment.type_condition_position {
            Some(position) => position.clone(),
            None => {
                return Ok(false);
            },
        },
    };
    match followup {
        OpPathElement::Field(_) => Ok(false),
        OpPathElement::InlineFragment(fragment) => {
            let type_of_second = match &fragment.type_condition_position {
                Some(position) => position,
                None => {
                    return Ok(false);
                },
            };
            let ghost own = fragment.directives.deep_view();
            let mut i: usize = 0;
            let mut are_useless_directives = true;
            while i < fragment.directives.len()
                invariant
                    i <= fragment.directives.len(),
                    own == fragment.directives.deep_view(),
                    are_useless_directives == (forall|j: int|
                        0 <= j < i ==> conditionals.deep_view().contains(#[trigger] own[j])),
                decreases fragment.directives.len() - i,
            {
                assert(own[i as int] == fragment.directives@[i as int].deep_view());
                if !contains_directive(conditionals, &fragment.directives[i]) {
                    are_useless_directives = false;
                }
                i += 1;
            }
            assert(type_behind(first.deep_view()) == Ok::<Option<CompositeView>, ErrorView>(
                Some(type_of_first.deep_view()),
            ));
            assert(followup.deep_view() == ElementView::InlineFragment(fragment.deep_view()));
            assert(own == fragment.deep_view().directives);
            let is_same_type = same(type_of_first.name(), type_of_second.name());
            let is_subtype = first.schema().is_subtype(
                type_of_second.name(),
                type_of_first.name(),
            );
            Ok(are_useless_directives && (is_same_type || is_subtype))
        },
    }
}

/// How many elements at the front of `tail` say nothing after `last`.
pub open spec fn useless_count(
    last: ElementView,
    tail: Seq<ElementView>,
    conditionals: Seq<DirectiveView>,
) -> nat
    decreases tail.len(),
{
    if tail.len() == 0 {
        0
    } else if useless_followup(last, tail[0], conditionals) == Ok::<bool, ErrorView>(true) {
        1 + useless_count(last, tail.drop_first(), conditionals)
    } else {
        0
    }
}

/// The two paths after each other, without the elements at the front of the second that say
/// nothing after the first.
pub open spec fn concatenated(head: Seq<ElementView>, tail: Seq<ElementView>) -> Seq<ElementView> {
    if head.len() == 0 {
        tail
    } else {
        head + tail.skip(
            useless_count(head.last(), tail, path_conditionals(head, head.len())) as int,
        )
    }
}

/// The two paths after each other, without the elements at the front of the second that say
/// nothing after the first.
pub fn concat_op_paths(head: &OpPath, tail: &OpPath) -> (r: OpPath)
    ensures
        r.deep_view() == concatenated(head.deep_view(), tail.deep_view()),
{
    if head.0.len() == 0 {
        return tail.clone();
    }
    let ghost first = head.deep_view();
    let ghost second = tail.deep_view();
    let last_of_head = &head.0[head.0.len() - 1];
    assert(first.last() == last_of_head.deep_view());
    let conditionals = head.conditional_directives();
    let ghost known = conditionals.deep_view();
    let mut i: usize = 0;
    let mut useless = true;
    assert(second.skip(0) =~= second);
    while i < tail.0.len() && useless
        invariant
            i <= tail.0.len(),
            second == tail.deep_view(),
            known == conditionals.deep_view(),
            useless ==> useless_count(last_of_head.deep_view(), second, known) == i
                + useless_count(last_of_head.deep_view(), second.skip(i as int), known),
            !useless ==> useless_count(last_of_head.deep_view(), second, known) == i,
        decreases tail.0.len() - i, (if useless { 1int } else { 0 }),
    {
        assert(second.skip(i as int)[0] == tail.0@[i as int].deep_view());
        assert(second.skip(i as int).drop_first() =~= second.skip(i + 1));
        match is_useless_followup_element(last_of_head, &tail.0[i], &conditionals) {
            Ok(true) => {
                i += 1;
            },
            _ => {
                useless = false;
            },
        }
    }
    proof {
        if useless {
            assert(second.skip(i as int).len() == 0);
        }
    }
    let mut result = head.clone();
    let ghost start: int = i as int;
    assert(first + second.subrange(start, start) =~= first);
    while i < tail.0.len()
        invariant
            0 <= start <= i <= tail.0.len(),
            second == tail.deep_view(),
            result.deep_view() == first + second.subrange(start, i as int),
        decreases tail.0.len() - i,
    {
        assert(second[i as int] == tail.0@[i as int].deep_view());
        let ghost before = result.deep_view();
        result.0.push(tail.0[i].clone());
        assert(result.deep_view() =~= before.push(second[i as int]));
        assert(result.deep_view() =~= first + second.subrange(start, i + 1));
        i += 1;
    }
    assert(second.subrange(start, i as int) =~= second.skip(start));
    result
}

/// The two paths after each other, where there are both.
pub fn concat_paths_in_parents(first: &Option<OpPath>, second: &Option<OpPath>) -> (r: Option<
    OpPath,
>)
    ensures
        r.deep_view() == (match (first.deep_view(), second.deep_view()) {
            (Some(a), Some(b)) => Some(concatenated(a, b)),
            _ => None,
        }),
{
    match (first, second) {
        (Some(first), Some(second)) => Some(concat_op_paths(first, second)),
        _ => None,
    }
}

/// Of two elements at most one is preferred over the other.
pub proof fn law_preference_is_antisymmetric(a: ElementView, b: ElementView)
    ensures
        preference(a, b) == Some(true) <==> preference(b, a) == Some(false),
        preference(a, b) is None <==> preference(b, a) is None,
{
}

/// An element that `@defer` was taken from is not deferred.
pub proof fn law_no_defer_is_left(element: ElementView)
    requires
        element is InlineFragment,
    ensures
        element_without_defer(element) matches Some(after) ==> !has_directive(
            element_directives(after),
            "defer"@,
        ),
{
    broadcast use vstd::seq_lib::group_filter_ensures;

    let kept = element_directives(element).filter(|d: DirectiveView| d.name != "defer"@);
    assert forall|i: int| 0 <= i < kept.len() implies (#[trigger] kept[i]).name != "defer"@ by {
        assert(kept.contains(kept[i]));
    }
}

/// A path begins with any path that it is continued from, and what is behind that one is the rest.
pub proof fn law_prefix_is_stripped(prefix: Seq<ElementView>, rest: Seq<ElementView>)
    ensures
        has_prefix(prefix + rest, prefix),
        (prefix + rest).skip(prefix.len() as int) == rest,
{
    let path = prefix + rest;
    assert forall|i: int| 0 <= i < prefix.len() implies same_element_spec(
        #[trigger] path[i],
        prefix[i],
    ) by {
        assert(path[i] == prefix[i]);
    }
    assert(path.skip(prefix.len() as int) =~= rest);
}

/// Going on with an empty path, or from one, changes nothing.
pub proof fn law_concat_with_empty_path(path: Seq<ElementView>)
    ensures
        concatenated(path, Seq::empty()) == path,
        concatenated(Seq::empty(), path) == path,
{
    if path.len() > 0 {
        assert(concatenated(path, Seq::empty()) =~= path);
    }
}

} // verus!
