//! The pieces of GraphQL documents: values, types, directives and definitions.

use crate::text::joined3;
use crate::text::joined;
use crate::text::Text;
use vstd::prelude::*;

verus! {

/// A GraphQL name.
pub type Name = String;

/// A character with which a name may begin.
pub open spec fn name_start(c: char) -> bool {
    'a' <= c <= 'z' || 'A' <= c <= 'Z' || c == '_'
}

/// A character with which a name may go on.
pub open spec fn name_continue(c: char) -> bool {
    name_start(c) || '0' <= c <= '9'
}

/// The texts that are GraphQL names.
pub open spec fn valid_name(text: Text) -> bool {
    &&& text.len() > 0
    &&& name_start(text[0])
    &&& forall|i: int| 0 <= i < text.len() ==> name_continue(#[trigger] text[i])
}

/// `apollo_compiler::Name::is_valid_syntax`: a name begins with an ASCII letter or an underscore
/// and goes on with ASCII letters, digits and underscores.
#[verifier::external_body]
pub(crate) fn is_valid_name(value: &str) -> (r: bool)
    ensures
        r == valid_name(value@),
{
    apollo_compiler::Name::is_valid_syntax(value)
}

/// A GraphQL value. Numbers are kept as they are written.
pub enum Value {
    Null,
    Enum(Name),
    Variable(Name),
    String(String),
    Float(String),
    Int(String),
    Boolean(bool),
    List(Vec<Value>),
    Object(Vec<(Name, Value)>),
}

/// The mathematical content of a [`Value`].
#[verifier::ext_equal]
pub enum ValueView {
    Null,
    Enum(Text),
    Variable(Text),
    String(Text),
    Float(Text),
    Int(Text),
    Boolean(bool),
    List(Seq<ValueView>),
    Object(Seq<(Text, ValueView)>),
}

/// The content of a value.
pub open spec fn value_view(value: Value) -> ValueView
    decreases value,
{
    match value {
        Value::Null => ValueView::Null,
        Value::Enum(name) => ValueView::Enum(name@),
        Value::Variable(name) => ValueView::Variable(name@),
        Value::String(text) => ValueView::String(text@),
        Value::Float(text) => ValueView::Float(text@),
        Value::Int(text) => ValueView::Int(text@),
        Value::Boolean(b) => ValueView::Boolean(b),
        Value::List(items) => ValueView::List(
            Seq::new(
                items@.len(),
                |i: int|
                    if 0 <= i < items@.len() {
                        value_view(items@[i])
                    } else {
                        ValueView::Null
                    },
            ),
        ),
        Value::Object(fields) => ValueView::Object(
            Seq::new(
                fields@.len(),
                |i: int|
                    if 0 <= i < fields@.len() {
                        (fields@[i].0@, value_view(fields@[i].1))
                    } else {
                        (Seq::empty(), ValueView::Null)
                    },
            ),
        ),
    }
}

impl DeepView for Value {
    type V = ValueView;

    open spec fn deep_view(&self) -> ValueView {
        value_view(*self)
    }
}

impl Clone for Value {
    fn clone(&self) -> (r: Self)
        ensures
            r.deep_view() == self.deep_view(),
        decreases self,
    {
        match self {
            Value::Null => Value::Null,
            Value::Enum(name) => Value::Enum(name.clone()),
            Value::Variable(name) => Value::Variable(name.clone()),
            Value::String(text) => Value::String(text.clone()),
            Value::Float(text) => Value::Float(text.clone()),
            Value::Int(text) => Value::Int(text.clone()),
            Value::Boolean(b) => Value::Boolean(*b),
            Value::List(items) => {
                let mut copied: Vec<Value> = Vec::new();
                let mut i: usize = 0;
                while i < items.len()
                    invariant
                        *self == Value::List(*items),
                        i <= items.len(),
                        copied@.len() == i,
                        forall|j: int|
                            0 <= j < i ==> value_view(#[trigger] copied@[j]) == value_view(
                                items@[j],
                            ),
                    decreases items.len() - i,
                {
                    assert(decreases_to!(*self => self->List_0));
                    assert(decreases_to!(items@ => items@[i as int]));
                    copied.push(items[i].clone());
                    i += 1;
                }
                let r = Value::List(copied);
                assert(value_view(r)->List_0 =~= value_view(*self)->List_0);
                r
            },
            Value::Object(fields) => {
                let mut copied: Vec<(Name, Value)> = Vec::new();
                let mut i: usize = 0;
                while i < fields.len()
                    invariant
                        *self == Value::Object(*fields),
                        i <= fields.len(),
                        copied@.len() == i,
                        forall|j: int|
                            #![trigger copied@[j]]
                            0 <= j < i ==> copied@[j].0@ == fields@[j].0@ && value_view(
                                copied@[j].1,
                            ) == value_view(fields@[j].1),
                    decreases fields.len() - i,
                {
                    assert(decreases_to!(*self => self->Object_0));
                    assert(decreases_to!(fields@ => fields@[i as int]));
                    assert(decreases_to!(fields@[i as int] => fields@[i as int].1));
                    copied.push((fields[i].0.clone(), fields[i].1.clone()));
                    i += 1;
                }
                let r = Value::Object(copied);
                assert(value_view(r)->Object_0 =~= value_view(*self)->Object_0);
                r
            },
        }
    }
}

/// A reference to a type, with its list and non-null wrappers.
pub enum Type {
    Named(Name),
    NonNullNamed(Name),
    List(Box<Type>),
    NonNullList(Box<Type>),
}

/// The mathematical content of a [`Type`].
#[verifier::ext_equal]
pub enum TypeView {
    Named(Text),
    NonNullNamed(Text),
    List(Box<TypeView>),
    NonNullList(Box<TypeView>),
}

/// The content of a type reference.
pub open spec fn type_view(ty: Type) -> TypeView
    decreases ty,
{
    match ty {
        Type::Named(name) => TypeView::Named(name@),
        Type::NonNullNamed(name) => TypeView::NonNullNamed(name@),
        Type::List(inner) => TypeView::List(Box::new(type_view(*inner))),
        Type::NonNullList(inner) => TypeView::NonNullList(Box::new(type_view(*inner))),
    }
}

/// A type reference as it is written in a document.
pub open spec fn type_text(ty: TypeView) -> Text
    decreases ty,
{
    match ty {
        TypeView::Named(name) => name,
        TypeView::NonNullNamed(name) => name + "!"@,
        TypeView::List(inner) => "["@ + type_text(*inner) + "]"@,
        TypeView::NonNullList(inner) => "["@ + type_text(*inner) + "]!"@,
    }
}

/// The name inside the wrappers.
pub open spec fn inner_name(ty: TypeView) -> Text
    decreases ty,
{
    match ty {
        TypeView::Named(name) => name,
        TypeView::NonNullNamed(name) => name,
        TypeView::List(inner) => inner_name(*inner),
        TypeView::NonNullList(inner) => inner_name(*inner),
    }
}

impl DeepView for Type {
    type V = TypeView;

    open spec fn deep_view(&self) -> TypeView {
        type_view(*self)
    }
}

impl Clone for Type {
    fn clone(&self) -> (r: Self)
        ensures
            r.deep_view() == self.deep_view(),
        decreases self,
    {
        match self {
            Type::Named(name) => Type::Named(name.clone()),
            Type::NonNullNamed(name) => Type::NonNullNamed(name.clone()),
            Type::List(inner) => Type::List(Box::new((&**inner).clone())),
            Type::NonNullList(inner) => Type::NonNullList(Box::new((&**inner).clone())),
        }
    }
}

impl Type {
    /// The reference as it is written in a document.
    pub fn to_text(&self) -> (r: String)
        ensures
            r@ == type_text(self.deep_view()),
        decreases self,
    {
        match self {
            Type::Named(name) => name.clone(),
            Type::NonNullNamed(name) => joined(name, "!"),
            Type::List(inner) => joined3("[", &inner.to_text(), "]"),
            Type::NonNullList(inner) => joined3("[", &inner.to_text(), "]!"),
        }
    }

    /// Whether null is no value of the type.
    pub fn is_non_null(&self) -> (r: bool)
        ensures
            r == (self.deep_view() is NonNullNamed || self.deep_view() is NonNullList),
    {
        match self {
            Type::NonNullNamed(_) | Type::NonNullList(_) => true,
            Type::Named(_) | Type::List(_) => false,
        }
    }

    /// Whether the values of the type are lists.
    pub fn is_list(&self) -> (r: bool)
        ensures
            r == (self.deep_view() is List || self.deep_view() is NonNullList),
    {
        match self {
            Type::List(_) | Type::NonNullList(_) => true,
            Type::Named(_) | Type::NonNullNamed(_) => false,
        }
    }

    /// The name inside the wrappers.
    pub fn inner_named_type(&self) -> (r: &Name)
        ensures
            r@ == inner_name(self.deep_view()),
        decreases self,
    {
        match self {
            Type::Named(name) => name,
            Type::NonNullNamed(name) => name,
            Type::List(inner) => inner.inner_named_type(),
            Type::NonNullList(inner) => inner.inner_named_type(),
        }
    }
}

/// A named argument of a field or directive.
pub struct Argument {
    pub name: Name,
    pub value: Value,
}

/// The mathematical content of an [`Argument`].
#[verifier::ext_equal]
pub struct ArgumentView {
    pub name: Text,
    pub value: ValueView,
}

impl DeepView for Argument {
    type V = ArgumentView;

    open spec fn deep_view(&self) -> ArgumentView {
        ArgumentView { name: self.name@, value: self.value.deep_view() }
    }
}

impl Clone for Argument {
    fn clone(&self) -> (r: Self)
        ensures
            r.deep_view() == self.deep_view(),
    {
        Argument { name: self.name.clone(), value: self.value.clone() }
    }
}

/// An applied directive.
pub struct Directive {
    pub name: Name,
    pub arguments: Vec<Argument>,
}

/// The mathematical content of a [`Directive`].
#[verifier::ext_equal]
pub struct DirectiveView {
    pub name: Text,
    pub arguments: Seq<ArgumentView>,
}

impl DeepView for Directive {
    type V = DirectiveView;

    open spec fn deep_view(&self) -> DirectiveView {
        DirectiveView { name: self.name@, arguments: self.arguments.deep_view() }
    }
}

impl Clone for Directive {
    fn clone(&self) -> (r: Self)
        ensures
            r.deep_view() == self.deep_view(),
    {
        let arguments = self.arguments.clone();
        assert(arguments.deep_view() =~= self.arguments.deep_view());
        Directive { name: self.name.clone(), arguments }
    }
}

/// Where a directive may be applied.
#[derive(Clone, Copy, Debug, PartialEq, Eq, Structural)]
pub enum DirectiveLocation {
    Query,
    Mutation,
    Subscription,
    Field,
    FragmentDefinition,
    FragmentSpread,
    InlineFragment,
    VariableDefinition,
    Schema,
    Scalar,
    Object,
    FieldDefinition,
    ArgumentDefinition,
    Interface,
    Union,
    Enum,
    EnumValue,
    InputObject,
    InputFieldDefinition,
}

/// The definition of an argument or of a field of an input object.
pub struct InputValueDefinition {
    pub name: Name,
    pub description: Option<String>,
    pub ty: Type,
    pub default_value: Option<Value>,
    pub directives: Vec<Directive>,
}

/// The mathematical content of an [`InputValueDefinition`].
#[verifier::ext_equal]
pub struct InputValueView {
    pub name: Text,
    pub description: Option<Text>,
    pub ty: TypeView,
    pub default_value: Option<ValueView>,
    pub directives: Seq<DirectiveView>,
}

impl DeepView for InputValueDefinition {
    type V = InputValueView;

    open spec fn deep_view(&self) -> InputValueView {
        InputValueView {
            name: self.name@,
            description: self.description.deep_view(),
            ty: self.ty.deep_view(),
            default_value: self.default_value.deep_view(),
            directives: self.directives.deep_view(),
        }
    }
}

/// The same text, or nothing.
pub fn clone_text(text: &Option<String>) -> (r: Option<String>)
    ensures
        r.deep_view() == text.deep_view(),
{
    match text {
        Some(t) => Some(t.clone()),
        None => None,
    }
}

/// The same value, or nothing.
pub fn clone_value(value: &Option<Value>) -> (r: Option<Value>)
    ensures
        r.deep_view() == value.deep_view(),
{
    match value {
        Some(v) => Some(v.clone()),
        None => None,
    }
}

/// The same directives.
pub fn clone_directives(directives: &Vec<Directive>) -> (r: Vec<Directive>)
    ensures
        r.deep_view() == directives.deep_view(),
{
    let r = directives.clone();
    assert(r.deep_view() =~= directives.deep_view());
    r
}

impl Clone for InputValueDefinition {
    fn clone(&self) -> (r: Self)
        ensures
            r.deep_view() == self.deep_view(),
    {
        InputValueDefinition {
            name: self.name.clone(),
            description: clone_text(&self.description),
            ty: self.ty.clone(),
            default_value: clone_value(&self.default_value),
            directives: clone_directives(&self.directives),
        }
    }
}

/// The definition of a field of an object or interface.
pub struct FieldDefinition {
    pub name: Name,
    pub description: Option<String>,
    pub arguments: Vec<InputValueDefinition>,
    pub ty: Type,
    pub directives: Vec<Directive>,
}

/// The mathematical content of a [`FieldDefinition`].
#[verifier::ext_equal]
pub struct FieldView {
    pub name: Text,
    pub description: Option<Text>,
    pub arguments: Seq<InputValueView>,
    pub ty: TypeView,
    pub directives: Seq<DirectiveView>,
}

impl DeepView for FieldDefinition {
    type V = FieldView;

    open spec fn deep_view(&self) -> FieldView {
        FieldView {
            name: self.name@,
            description: self.description.deep_view(),
            arguments: self.arguments.deep_view(),
            ty: self.ty.deep_view(),
            directives: self.directives.deep_view(),
        }
    }
}

impl Clone for FieldDefinition {
    fn clone(&self) -> (r: Self)
        ensures
            r.deep_view() == self.deep_view(),
    {
        let arguments = self.arguments.clone();
        assert(arguments.deep_view() =~= self.arguments.deep_view());
        FieldDefinition {
            name: self.name.clone(),
            description: clone_text(&self.description),
            arguments,
            ty: self.ty.clone(),
            directives: clone_directives(&self.directives),
        }
    }
}

/// The definition of a value of an enum.
pub struct EnumValueDefinition {
    pub value: Name,
    pub description: Option<String>,
    pub directives: Vec<Directive>,
}

/// The mathematical content of an [`EnumValueDefinition`].
#[verifier::ext_equal]
pub struct EnumValueDefinitionView {
    pub value: Text,
    pub description: Option<Text>,
    pub directives: Seq<DirectiveView>,
}

impl DeepView for EnumValueDefinition {
    type V = EnumValueDefinitionView;

    open spec fn deep_view(&self) -> EnumValueDefinitionView {
        EnumValueDefinitionView {
            value: self.value@,
            description: self.description.deep_view(),
            directives: self.directives.deep_view(),
        }
    }
}

impl Clone for EnumValueDefinition {
    fn clone(&self) -> (r: Self)
        ensures
            r.deep_view() == self.deep_view(),
    {
        EnumValueDefinition {
            value: self.value.clone(),
            description: clone_text(&self.description),
            directives: clone_directives(&self.directives),
        }
    }
}

/// The definition of a directive.
pub struct DirectiveDefinition {
    pub name: Name,
    pub description: Option<String>,
    pub arguments: Vec<InputValueDefinition>,
    pub repeatable: bool,
    pub locations: Vec<DirectiveLocation>,
}

/// The mathematical content of a [`DirectiveDefinition`].
#[verifier::ext_equal]
pub struct DirectiveDefinitionView {
    pub name: Text,
    pub description: Option<Text>,
    pub arguments: Seq<InputValueView>,
    pub repeatable: bool,
    pub locations: Seq<DirectiveLocation>,
}

impl DeepView for DirectiveDefinition {
    type V = DirectiveDefinitionView;

    open spec fn deep_view(&self) -> DirectiveDefinitionView {
        DirectiveDefinitionView {
            name: self.name@,
            description: self.description.deep_view(),
            arguments: self.arguments.deep_view(),
            repeatable: self.repeatable,
            locations: self.locations@,
        }
    }
}

impl Clone for DirectiveDefinition {
    fn clone(&self) -> (r: Self)
        ensures
            r.deep_view() == self.deep_view(),
    {
        let arguments = self.arguments.clone();
        assert(arguments.deep_view() =~= self.arguments.deep_view());
        let locations = self.locations.clone();
        assert(locations@ =~= self.locations@);
        DirectiveDefinition {
            name: self.name.clone(),
            description: clone_text(&self.description),
            arguments,
            repeatable: self.repeatable,
            locations,
        }
    }
}

} // verus!
