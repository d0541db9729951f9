//! Operations and their selections.

pub mod alias_laws;
pub mod aliases;
pub mod answer_laws;
pub mod arguments;
pub mod at_path;
pub mod condition_laws;
pub mod conditions;
pub mod conflicts;
pub mod defer;
pub mod defer_laws;
pub mod equality;
pub mod executable;
pub mod laws;
pub mod mapping;
pub mod merging;
pub mod normalize;
pub mod normalize_laws;
pub mod operations;
pub mod print;
pub mod rebase;
pub mod round_trip;
pub mod route_laws;
pub mod selection;
pub mod texts;
pub mod trees;
pub mod typename_laws;
pub mod typenames;
pub mod updates;

use crate::ast::clone_directives;
use crate::ast::clone_text;
use crate::ast::inner_name;
use crate::ast::Argument;
use crate::ast::ArgumentView;
use crate::ast::Directive;
use crate::ast::DirectiveView;
use crate::ast::Name;
use crate::ast::Value;
use crate::ast::ValueView;
use crate::error::internal_error;
use crate::error::result_view;
use crate::error::ErrorView;
use crate::error::FederationError;
use crate::merge::directives::argument_value;
use crate::merge::directives::directive_arg_value;
use crate::merge::directives::first;
use crate::merge::directives::first_directive;
use crate::merge::directives::has_directive;
use crate::merge::directives::is_applied;
use crate::operation::equality::same_directives;
use crate::schema::position::composite_name;
use crate::schema::position::field_type;
use crate::schema::position::get_type;
use crate::schema::position::is_leaf_position;
use crate::schema::position::CompositeTypeDefinitionPosition;
use crate::schema::position::CompositeView;
use crate::schema::position::FieldDefinitionPosition;
use crate::schema::position::FieldPositionView;
use crate::schema::position::PositionView;
use crate::schema::position::TypeDefinitionPosition;
use crate::schema::Schema;
use crate::schema::SchemaView;
use crate::text::same;
use crate::text::Text;
use std::sync::Arc;
use vstd::multiset::Multiset;
use vstd::prelude::*;

verus! {

/// The name of the field that tells the type of an object.
pub open spec fn typename_field() -> Text {
    "__typename"@
}

/// Hands out the numbers that tell selections apart.
pub struct SelectionIdCounter {
    pub next: usize,
}

/// The number of a selection.
#[derive(Clone, Copy, Debug, PartialEq, Eq, Structural)]
pub struct SelectionId(pub usize);

/// The number after `n`; after the largest one the count starts again.
pub open spec fn next_id(n: usize) -> usize {
    if n == usize::MAX {
        0
    } else {
        (n + 1) as usize
    }
}

/// The number after counting on from `n` some times.
pub open spec fn id_after(n: usize, times: nat) -> usize
    decreases times,
{
    if times == 0 {
        n
    } else {
        next_id(id_after(n, (times - 1) as nat))
    }
}

proof fn lemma_id_after(n: usize, times: nat)
    requires
        times <= usize::MAX,
    ensures
        id_after(n, times) == if n + times <= usize::MAX {
            n + times
        } else {
            n + times - usize::MAX - 1
        },
    decreases times,
{
    if times > 0 {
        lemma_id_after(n, (times - 1) as nat);
    }
}

proof fn lemma_id_after_both(n: usize, a: nat, b: nat)
    ensures
        id_after(n, a + b) == id_after(id_after(n, a), b),
    decreases b,
{
    if b > 0 {
        lemma_id_after_both(n, a, (b - 1) as nat);
    }
}

/// The ids that one counter gives differ, as long as it has not been through all numbers.
pub proof fn law_ids_differ(counter: SelectionIdCounter, i: nat, j: nat)
    requires
        i < j <= i + usize::MAX,
    ensures
        SelectionId(id_after(counter.next, i)) != SelectionId(id_after(counter.next, j)),
{
    let first = id_after(counter.next, i);
    lemma_id_after_both(counter.next, i, (j - i) as nat);
    lemma_id_after(first, (j - i) as nat);
}

impl SelectionIdCounter {
    /// A counter at its start.
    pub fn new() -> (r: Self)
        ensures
            r.next == 1,
    {
        SelectionIdCounter { next: 1 }
    }
}

impl SelectionId {
    /// The next number of the counter, which goes on by one.
    pub fn new(counter: &mut SelectionIdCounter) -> (r: Self)
        ensures
            r == SelectionId(old(counter).next),
            final(counter).next == next_id(old(counter).next),
    {
        let id: usize = counter.next;
        if counter.next == usize::MAX {
            counter.next = 0;
        } else {
            counter.next = counter.next + 1;
        }
        SelectionId(id)
    }
}

/// How the `__typename` beside a field is to be restored.
pub enum SiblingTypename {
    Unaliased,
    /// The `__typename` was aliased.
    Aliased(Name),
}

/// The mathematical content of a [`SiblingTypename`].
#[verifier::ext_equal]
pub enum SiblingView {
    Unaliased,
    Aliased(Text),
}

impl DeepView for SiblingTypename {
    type V = SiblingView;

    open spec fn deep_view(&self) -> SiblingView {
        match self {
            SiblingTypename::Unaliased => SiblingView::Unaliased,
            SiblingTypename::Aliased(name) => SiblingView::Aliased(name@),
        }
    }
}

impl Clone for SiblingTypename {
    fn clone(&self) -> (r: Self)
        ensures
            r.deep_view() == self.deep_view(),
    {
        match self {
            SiblingTypename::Unaliased => SiblingTypename::Unaliased,
            SiblingTypename::Aliased(name) => SiblingTypename::Aliased(name.clone()),
        }
    }
}

/// The alias of a sibling `__typename`.
pub open spec fn sibling_alias(sibling: SiblingView) -> Option<Text> {
    match sibling {
        SiblingView::Unaliased => None,
        SiblingView::Aliased(alias) => Some(alias),
    }
}

impl SiblingTypename {
    /// The alias, if there is one.
    pub fn alias(&self) -> (r: Option<&Name>)
        ensures
            r.deep_view() == sibling_alias(self.deep_view()),
    {
        match self {
            SiblingTypename::Unaliased => None,
            SiblingTypename::Aliased(alias) => Some(alias),
        }
    }
}

/// A field of an operation without its selections.
pub struct Field {
    pub schema: Arc<Schema>,
    pub field_position: FieldDefinitionPosition,
    pub alias: Option<Name>,
    pub arguments: Vec<Argument>,
    pub directives: Vec<Directive>,
    pub sibling_typename: Option<SiblingTypename>,
}

/// The mathematical content of a [`Field`].
#[verifier::ext_equal]
pub struct FieldElementView {
    pub schema: SchemaView,
    pub field_position: FieldPositionView,
    pub alias: Option<Text>,
    pub arguments: Seq<ArgumentView>,
    pub directives: Seq<DirectiveView>,
    pub sibling_typename: Option<SiblingView>,
}

impl DeepView for Field {
    type V = FieldElementView;

    open spec fn deep_view(&self) -> FieldElementView {
        FieldElementView {
            schema: self.schema.deep_view(),
            field_position: self.field_position.deep_view(),
            alias: self.alias.deep_view(),
            arguments: self.arguments.deep_view(),
            directives: self.directives.deep_view(),
            sibling_typename: self.sibling_typename.deep_view(),
        }
    }
}

impl Clone for Field {
    fn clone(&self) -> (r: Self)
        ensures
            r.deep_view() == self.deep_view(),
    {
        let arguments = self.arguments.clone();
        assert(arguments.deep_view() =~= self.arguments.deep_view());
        let sibling_typename = match &self.sibling_typename {
            Some(x) => Some(x.clone()),
            None => None,
        };
        Field {
            schema: self.schema.clone(),
            field_position: self.field_position.clone(),
            alias: clone_text(&self.alias),
            arguments,
            directives: clone_directives(&self.directives),
            sibling_typename,
        }
    }
}

/// An inline fragment of an operation without its selections.
pub struct InlineFragment {
    pub schema: Arc<Schema>,
    pub parent_type_position: CompositeTypeDefinitionPosition,
    pub type_condition_position: Option<CompositeTypeDefinitionPosition>,
    pub directives: Vec<Directive>,
    pub selection_id: SelectionId,
}

/// The mathematical content of an [`InlineFragment`].
#[verifier::ext_equal]
pub struct InlineFragmentView {
    pub schema: SchemaView,
    pub parent_type_position: CompositeView,
    pub type_condition_position: Option<CompositeView>,
    pub directives: Seq<DirectiveView>,
    pub selection_id: SelectionId,
}

impl DeepView for InlineFragment {
    type V = InlineFragmentView;

    open spec fn deep_view(&self) -> InlineFragmentView {
        InlineFragmentView {
            schema: self.schema.deep_view(),
            parent_type_position: self.parent_type_position.deep_view(),
            type_condition_position: self.type_condition_position.deep_view(),
            directives: self.directives.deep_view(),
            selection_id: self.selection_id,
        }
    }
}

impl Clone for InlineFragment {
    fn clone(&self) -> (r: Self)
        ensures
            r.deep_view() == self.deep_view(),
    {
        let type_condition_position = match &self.type_condition_position {
            Some(x) => Some(x.clone()),
            None => None,
        };
        InlineFragment {
            schema: self.schema.clone(),
            parent_type_position: self.parent_type_position.clone(),
            type_condition_position,
            directives: clone_directives(&self.directives),
            selection_id: self.selection_id,
        }
    }
}

/// What tells the selections of a set apart. Directives count without their order.
#[verifier::ext_equal]
pub enum SelectionKeyView {
    Field { response_name: Text, directives: Multiset<DirectiveView> },
    InlineFragment { type_condition: Option<Text>, directives: Multiset<DirectiveView> },
    Defer { deferred_id: SelectionId },
}

/// The name under which the result of a field is returned.
pub open spec fn response_name(field: FieldElementView) -> Text {
    match field.alias {
        Some(alias) => alias,
        None => field.field_position.field_name,
    }
}

/// The key of a field.
pub open spec fn field_key(field: FieldElementView) -> SelectionKeyView {
    SelectionKeyView::Field {
        response_name: response_name(field),
        directives: field.directives.to_multiset(),
    }
}

/// The name of the type condition.
pub open spec fn condition_name(fragment: InlineFragmentView) -> Option<Text> {
    match fragment.type_condition_position {
        Some(position) => Some(composite_name(position)),
        None => None,
    }
}

/// The key of an inline fragment: a deferred one has a key of its own.
pub open spec fn fragment_key(fragment: InlineFragmentView) -> SelectionKeyView {
    if has_directive(fragment.directives, "defer"@) {
        SelectionKeyView::Defer { deferred_id: fragment.selection_id }
    } else {
        SelectionKeyView::InlineFragment {
            type_condition: condition_name(fragment),
            directives: fragment.directives.to_multiset(),
        }
    }
}

/// The type that a field returns, without lists and non-null wrappers.
pub open spec fn output_base_type(field: FieldElementView) -> Result<PositionView, ErrorView> {
    match field_type(field.schema, field.field_position) {
        Ok(ty) => get_type(field.schema, inner_name(ty)),
        Err(error) => Err(error),
    }
}

/// Whether a field has no selections.
pub open spec fn field_is_leaf(field: FieldElementView) -> Result<bool, ErrorView> {
    match output_base_type(field) {
        Ok(position) => Ok(is_leaf_position(position)),
        Err(error) => Err(error),
    }
}

/// Whether a field is `__typename` without alias and directives.
pub open spec fn is_plain_typename(field: FieldElementView) -> bool {
    field.field_position.field_name == typename_field() && field.directives.len() == 0
        && field.alias is None
}

/// `__typename` on a type.
pub open spec fn introspection_typename(
    schema: SchemaView,
    parent: CompositeView,
    alias: Option<Text>,
) -> FieldElementView {
    FieldElementView {
        schema,
        field_position: FieldPositionView { parent, field_name: typename_field() },
        alias,
        arguments: Seq::empty(),
        directives: Seq::empty(),
        sibling_typename: None,
    }
}

impl Field {
    /// The field `__typename` on a type.
    pub fn new_introspection_typename(
        schema: &Arc<Schema>,
        parent_type: &CompositeTypeDefinitionPosition,
        alias: Option<Name>,
    ) -> (r: Self)
        ensures
            r.deep_view() == introspection_typename(
                schema.deep_view(),
                parent_type.deep_view(),
                alias.deep_view(),
            ),
    {
        let r = Field {
            schema: schema.clone(),
            field_position: FieldDefinitionPosition {
                parent: parent_type.clone(),
                field_name: "__typename".to_owned(),
            },
            alias,
            arguments: Vec::new(),
            directives: Vec::new(),
            sibling_typename: None,
        };
        assert(r.arguments.deep_view() =~= Seq::empty());
        assert(r.directives.deep_view() =~= Seq::empty());
        r
    }

    /// The name of the field.
    pub fn name(&self) -> (r: &Name)
        ensures
            r@ == self.deep_view().field_position.field_name,
    {
        &self.field_position.field_name
    }

    /// The name under which the result is returned.
    pub fn response_name(&self) -> (r: &Name)
        ensures
            r@ == response_name(self.deep_view()),
    {
        match &self.alias {
            Some(alias) => alias,
            None => &self.field_position.field_name,
        }
    }

    /// Whether this is `__typename` without alias and directives.
    pub fn is_plain_typename_field(&self) -> (r: bool)
        ensures
            r == is_plain_typename(self.deep_view()),
    {
        same(&self.field_position.field_name, "__typename") && self.directives.len() == 0
            && self.alias.is_none()
    }

    /// Whether two fields have the same key.
    pub fn same_key(&self, other: &Self) -> (r: bool)
        ensures
            r == (field_key(self.deep_view()) == field_key(other.deep_view())),
    {
        same(self.response_name(), other.response_name()) && same_directives(
            &self.directives,
            &other.directives,
        )
    }

    /// The type that the field returns, without lists and non-null wrappers.
    pub fn output_base_type(&self) -> (r: Result<TypeDefinitionPosition, FederationError>)
        ensures
            result_view(r) == output_base_type(self.deep_view()),
    {
        match self.schema.field_type(&self.field_position) {
            Ok(ty) => self.schema.get_type(ty.inner_named_type()),
            Err(error) => Err(error),
        }
    }

    /// Whether the field has no selections.
    pub fn is_leaf(&self) -> (r: Result<bool, FederationError>)
        ensures
            result_view(r) == field_is_leaf(self.deep_view()),
    {
        match self.output_base_type() {
            Ok(position) => Ok(position.is_leaf()),
            Err(error) => Err(error),
        }
    }

    /// The field with other directives.
    pub fn with_updated_directives(&self, directives: Vec<Directive>) -> (r: Self)
        ensures
            r.deep_view() == (FieldElementView {
                directives: directives.deep_view(),
                ..self.deep_view()
            }),
    {
        let mut r = self.clone();
        r.directives = directives;
        r
    }

    /// The field under another name.
    pub fn with_updated_alias(&self, alias: Name) -> (r: Self)
        ensures
            r.deep_view() == (FieldElementView { alias: Some(alias@), ..self.deep_view() }),
    {
        let mut r = self.clone();
        r.alias = Some(alias);
        r
    }

    /// The field at another place.
    pub fn with_updated_position(
        &self,
        schema: Arc<Schema>,
        field_position: FieldDefinitionPosition,
    ) -> (r: Self)
        ensures
            r.deep_view() == (FieldElementView {
                schema: schema.deep_view(),
                field_position: field_position.deep_view(),
                ..self.deep_view()
            }),
    {
        let mut r = self.clone();
        r.schema = schema;
        r.field_position = field_position;
        r
    }
}

/// A boolean, or a variable that holds one.
pub enum BooleanOrVariable {
    Boolean(bool),
    Variable(Name),
}

/// The mathematical content of a [`BooleanOrVariable`].
#[verifier::ext_equal]
pub enum BooleanOrVariableView {
    Boolean(bool),
    Variable(Text),
}

impl DeepView for BooleanOrVariable {
    type V = BooleanOrVariableView;

    open spec fn deep_view(&self) -> BooleanOrVariableView {
        match self {
            BooleanOrVariable::Boolean(b) => BooleanOrVariableView::Boolean(*b),
            BooleanOrVariable::Variable(name) => BooleanOrVariableView::Variable(name@),
        }
    }
}

impl Clone for BooleanOrVariable {
    fn clone(&self) -> (r: Self)
        ensures
            r.deep_view() == self.deep_view(),
    {
        match self {
            BooleanOrVariable::Boolean(b) => BooleanOrVariable::Boolean(*b),
            BooleanOrVariable::Variable(name) => BooleanOrVariable::Variable(name.clone()),
        }
    }
}

/// A value as a boolean or variable.
pub open spec fn boolean_or_variable(value: ValueView) -> Option<BooleanOrVariableView> {
    match value {
        ValueView::Boolean(b) => Some(BooleanOrVariableView::Boolean(b)),
        ValueView::Variable(name) => Some(BooleanOrVariableView::Variable(name)),
        _ => None,
    }
}

pub(crate) fn to_boolean_or_variable(value: &Value) -> (r: Option<BooleanOrVariable>)
    ensures
        r.deep_view() == boolean_or_variable(value.deep_view()),
{
    match value {
        Value::Boolean(b) => Some(BooleanOrVariable::Boolean(*b)),
        Value::Variable(name) => Some(BooleanOrVariable::Variable(name.clone())),
        _ => None,
    }
}

/// The arguments of `@defer`.
pub struct DeferDirectiveArguments {
    pub label: Option<String>,
    pub if_: Option<BooleanOrVariable>,
}

/// The mathematical content of a [`DeferDirectiveArguments`].
#[verifier::ext_equal]
pub struct DeferView {
    pub label: Option<Text>,
    pub if_: Option<BooleanOrVariableView>,
}

impl DeepView for DeferDirectiveArguments {
    type V = DeferView;

    open spec fn deep_view(&self) -> DeferView {
        DeferView {
            label: self.label.deep_view(),
            if_: self.if_.deep_view(),
        }
    }
}

impl Clone for DeferDirectiveArguments {
    fn clone(&self) -> (r: Self)
        ensures
            r.deep_view() == self.deep_view(),
    {
        let if_ = match &self.if_ {
            Some(x) => Some(x.clone()),
            None => None,
        };
        DeferDirectiveArguments {
            label: clone_text(&self.label),
            if_,
        }
    }
}

/// The arguments of an applied `@defer`.
pub open spec fn defer_arguments(directive: DirectiveView) -> Result<DeferView, ErrorView> {
    match argument_value(directive.arguments, "label"@) {
        Some(ValueView::String(label)) => defer_condition(directive, Some(label)),
        Some(ValueView::Null) => defer_condition(directive, None),
        None => defer_condition(directive, None),
        Some(_) => Err(internal_error("Argument \"label\" of directive \"@defer\" must be a string."@)),
    }
}

/// The arguments of an applied `@defer` whose label is known.
pub open spec fn defer_condition(directive: DirectiveView, label: Option<Text>) -> Result<
    DeferView,
    ErrorView,
> {
    match argument_value(directive.arguments, "if"@) {
        None => Ok(DeferView { label, if_: None }),
        Some(value) => match boolean_or_variable(value) {
            Some(condition) => Ok(DeferView { label, if_: Some(condition) }),
            None => Err(
                internal_error(
                    "Argument \"if\" of directive \"@defer\" must be a boolean or variable."@,
                ),
            ),
        },
    }
}

/// The arguments of the first `@defer` of a fragment.
pub open spec fn fragment_defer(fragment: InlineFragmentView) -> Result<
    Option<DeferView>,
    ErrorView,
> {
    match first_directive(fragment.directives, "defer"@) {
        Some(directive) => match defer_arguments(directive) {
            Ok(arguments) => Ok(Some(arguments)),
            Err(error) => Err(error),
        },
        None => Ok(None),
    }
}

fn read_defer_arguments(directive: &Directive) -> (r: Result<
    DeferDirectiveArguments,
    FederationError,
>)
    ensures
        result_view(r) == defer_arguments(directive.deep_view()),
{
    let label = match directive_arg_value(directive, "label") {
        Some(Value::String(label)) => Some(label.clone()),
        Some(Value::Null) | None => None,
        Some(_) => {
            return Err(
                FederationError::internal(
                    "Argument \"label\" of directive \"@defer\" must be a string.",
                ),
            );
        },
    };
    match directive_arg_value(directive, "if") {
        None => Ok(DeferDirectiveArguments { label, if_: None }),
        Some(value) => match to_boolean_or_variable(value) {
            Some(condition) => Ok(DeferDirectiveArguments { label, if_: Some(condition) }),
            None => Err(
                FederationError::internal(
                    "Argument \"if\" of directive \"@defer\" must be a boolean or variable.",
                ),
            ),
        },
    }
}

/// The type that the selections of a fragment are on.
pub open spec fn casted_type(fragment: InlineFragmentView) -> CompositeView {
    match fragment.type_condition_position {
        Some(position) => position,
        None => fragment.parent_type_position,
    }
}

impl InlineFragment {
    /// The fragment with another type condition.
    pub fn with_updated_type_condition(
        &self,
        type_condition_position: Option<CompositeTypeDefinitionPosition>,
    ) -> (r: Self)
        ensures
            r.deep_view() == (InlineFragmentView {
                type_condition_position: type_condition_position.deep_view(),
                ..self.deep_view()
            }),
    {
        let mut r = self.clone();
        r.type_condition_position = type_condition_position;
        r
    }

    /// The fragment with other directives.
    pub fn with_updated_directives(&self, directives: Vec<Directive>) -> (r: Self)
        ensures
            r.deep_view() == (InlineFragmentView {
                directives: directives.deep_view(),
                ..self.deep_view()
            }),
    {
        let mut r = self.clone();
        r.directives = directives;
        r
    }

    /// The arguments of the first `@defer`.
    pub fn defer_directive_arguments(&self) -> (r: Result<
        Option<DeferDirectiveArguments>,
        FederationError,
    >)
        ensures
            result_view(r) == fragment_defer(self.deep_view()),
    {
        match first(&self.directives, "defer") {
            Some(directive) => match read_defer_arguments(directive) {
                Ok(arguments) => Ok(Some(arguments)),
                Err(error) => Err(error),
            },
            None => Ok(None),
        }
    }

    /// The type that the selections are on.
    pub fn casted_type(&self) -> (r: &CompositeTypeDefinitionPosition)
        ensures
            r.deep_view() == casted_type(self.deep_view()),
    {
        match &self.type_condition_position {
            Some(position) => position,
            None => &self.parent_type_position,
        }
    }

    /// Whether two fragments have the same key.
    pub fn same_key(&self, other: &Self) -> (r: bool)
        ensures
            r == (fragment_key(self.deep_view()) == fragment_key(other.deep_view())),
    {
        let deferred = is_applied(&self.directives, "defer");
        if deferred != is_applied(&other.directives, "defer") {
            return false;
        }
        if deferred {
            return self.selection_id == other.selection_id;
        }
        let same_condition = match (
            &self.type_condition_position,
            &other.type_condition_position,
        ) {
            (Some(a), Some(b)) => same(a.name(), b.name()),
            (None, None) => true,
            _ => false,
        };
        same_condition && same_directives(&self.directives, &other.directives)
    }
}

} // verus!
