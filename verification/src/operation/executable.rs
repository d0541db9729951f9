//! Operations as they are written in a document.

use crate::ast::clone_directives;
use crate::ast::Argument;
use crate::ast::ArgumentView;
use crate::ast::Directive;
use crate::ast::DirectiveView;
use crate::ast::Name;
use crate::ast::Type;
use crate::ast::TypeView;
use crate::ast::Value;
use crate::ast::ValueView;
use crate::query_graph::SchemaRootDefinitionKind;
use crate::text::Text;
use vstd::prelude::*;

verus! {

/// A variable of an operation.
pub struct VariableDefinition {
    pub name: Name,
    pub ty: Type,
    pub default_value: Option<Value>,
    pub directives: Vec<Directive>,
}

/// The mathematical content of a [`VariableDefinition`].
#[verifier::ext_equal]
pub struct VariableView {
    pub name: Text,
    pub ty: TypeView,
    pub default_value: Option<ValueView>,
    pub directives: Seq<DirectiveView>,
}

impl DeepView for VariableDefinition {
    type V = VariableView;

    open spec fn deep_view(&self) -> VariableView {
        VariableView {
            name: self.name@,
            ty: self.ty.deep_view(),
            default_value: self.default_value.deep_view(),
            directives: self.directives.deep_view(),
        }
    }
}

impl Clone for VariableDefinition {
    fn clone(&self) -> (r: Self)
        ensures
            r.deep_view() == self.deep_view(),
    {
        let default_value = match &self.default_value {
            Some(x) => Some(x.clone()),
            None => None,
        };
        VariableDefinition {
            name: self.name.clone(),
            ty: self.ty.clone(),
            default_value,
            directives: clone_directives(&self.directives),
        }
    }
}

/// Selections on a type.
pub struct ExecutableSet {
    pub ty: Name,
    pub selections: Vec<ExecutableSelection>,
}

/// A field, a fragment, or the name of a fragment.
pub enum ExecutableSelection {
    Field(ExecutableField),
    FragmentSpread(FragmentSpread),
    InlineFragment(ExecutableFragment),
}

/// A field with its selections.
pub struct ExecutableField {
    pub alias: Option<Name>,
    pub name: Name,
    pub arguments: Vec<Argument>,
    pub directives: Vec<Directive>,
    pub selection_set: ExecutableSet,
}

/// A fragment with its selections.
pub struct ExecutableFragment {
    pub type_condition: Option<Name>,
    pub directives: Vec<Directive>,
    pub selection_set: ExecutableSet,
}

/// The name of a fragment in place of its selections.
pub struct FragmentSpread {
    pub fragment_name: Name,
    pub directives: Vec<Directive>,
}

/// The mathematical content of a [`FragmentSpread`].
#[verifier::ext_equal]
pub struct SpreadView {
    pub fragment_name: Text,
    pub directives: Seq<DirectiveView>,
}

impl DeepView for FragmentSpread {
    type V = SpreadView;

    open spec fn deep_view(&self) -> SpreadView {
        SpreadView {
            fragment_name: self.fragment_name@,
            directives: self.directives.deep_view(),
        }
    }
}

impl Clone for FragmentSpread {
    fn clone(&self) -> (r: Self)
        ensures
            r.deep_view() == self.deep_view(),
    {
        FragmentSpread {
            fragment_name: self.fragment_name.clone(),
            directives: clone_directives(&self.directives),
        }
    }
}

/// The mathematical content of an [`ExecutableSet`].
#[verifier::ext_equal]
pub struct ExecutableSetView {
    pub ty: Text,
    pub selections: Seq<ExecutableView>,
}

/// The mathematical content of an [`ExecutableSelection`].
#[verifier::ext_equal]
pub enum ExecutableView {
    Field(ExecutableFieldView),
    FragmentSpread(SpreadView),
    InlineFragment(ExecutableFragmentView),
}

/// The mathematical content of an [`ExecutableField`].
#[verifier::ext_equal]
pub struct ExecutableFieldView {
    pub alias: Option<Text>,
    pub name: Text,
    pub arguments: Seq<ArgumentView>,
    pub directives: Seq<DirectiveView>,
    pub selection_set: ExecutableSetView,
}

/// The mathematical content of an [`ExecutableFragment`].
#[verifier::ext_equal]
pub struct ExecutableFragmentView {
    pub type_condition: Option<Text>,
    pub directives: Seq<DirectiveView>,
    pub selection_set: ExecutableSetView,
}

/// The content of selections.
pub open spec fn executable_set_view(set: ExecutableSet) -> ExecutableSetView
    decreases set,
{
    ExecutableSetView {
        ty: set.ty@,
        selections: Seq::new(
            set.selections@.len(),
            |i: int|
                if 0 <= i < set.selections@.len() {
                    executable_view(set.selections@[i])
                } else {
                    arbitrary()
                },
        ),
    }
}

/// The content of a selection.
pub open spec fn executable_view(selection: ExecutableSelection) -> ExecutableView
    decreases selection,
{
    match selection {
        ExecutableSelection::Field(f) => ExecutableView::Field(
            ExecutableFieldView {
                alias: f.alias.deep_view(),
                name: f.name@,
                arguments: f.arguments.deep_view(),
                directives: f.directives.deep_view(),
                selection_set: executable_set_view(f.selection_set),
            },
        ),
        ExecutableSelection::FragmentSpread(spread) => ExecutableView::FragmentSpread(
            spread.deep_view(),
        ),
        ExecutableSelection::InlineFragment(f) => ExecutableView::InlineFragment(
            ExecutableFragmentView {
                type_condition: f.type_condition.deep_view(),
                directives: f.directives.deep_view(),
                selection_set: executable_set_view(f.selection_set),
            },
        ),
    }
}

impl DeepView for ExecutableSet {
    type V = ExecutableSetView;

    open spec fn deep_view(&self) -> ExecutableSetView {
        executable_set_view(*self)
    }
}

impl DeepView for ExecutableSelection {
    type V = ExecutableView;

    open spec fn deep_view(&self) -> ExecutableView {
        executable_view(*self)
    }
}

/// The content of a list of selections.
pub open spec fn executables_view(selections: Seq<ExecutableSelection>) -> Seq<ExecutableView> {
    Seq::new(selections.len(), |i: int| executable_view(selections[i]))
}

/// The content of selections, one by one.
pub proof fn lemma_executable_set(set: ExecutableSet)
    ensures
        set.deep_view() == (ExecutableSetView {
            ty: set.ty@,
            selections: executables_view(set.selections@),
        }),
{
    assert(executable_set_view(set).selections =~= executables_view(set.selections@));
}

/// A fragment that has a name; its selections are on the type of its condition.
pub struct Fragment {
    pub name: Name,
    pub selection_set: ExecutableSet,
}

/// The mathematical content of a [`Fragment`].
#[verifier::ext_equal]
pub struct FragmentView {
    pub name: Text,
    pub selection_set: ExecutableSetView,
}

impl DeepView for Fragment {
    type V = FragmentView;

    open spec fn deep_view(&self) -> FragmentView {
        FragmentView { name: self.name@, selection_set: self.selection_set.deep_view() }
    }
}

/// An operation of a document.
pub struct ExecutableOperation {
    pub operation_type: SchemaRootDefinitionKind,
    pub name: Option<Name>,
    pub variables: Vec<VariableDefinition>,
    pub directives: Vec<Directive>,
    pub selection_set: ExecutableSet,
}

/// The mathematical content of an [`ExecutableOperation`].
#[verifier::ext_equal]
pub struct ExecutableOperationView {
    pub operation_type: SchemaRootDefinitionKind,
    pub name: Option<Text>,
    pub variables: Seq<VariableView>,
    pub directives: Seq<DirectiveView>,
    pub selection_set: ExecutableSetView,
}

impl DeepView for ExecutableOperation {
    type V = ExecutableOperationView;

    open spec fn deep_view(&self) -> ExecutableOperationView {
        ExecutableOperationView {
            operation_type: self.operation_type,
            name: self.name.deep_view(),
            variables: self.variables.deep_view(),
            directives: self.directives.deep_view(),
            selection_set: self.selection_set.deep_view(),
        }
    }
}

/// A document: its operations and its fragments, in order.
pub struct ExecutableDocument {
    pub operations: Vec<ExecutableOperation>,
    pub fragments: Vec<Fragment>,
}

/// The mathematical content of an [`ExecutableDocument`].
#[verifier::ext_equal]
pub struct DocumentView {
    pub operations: Seq<ExecutableOperationView>,
    pub fragments: Seq<FragmentView>,
}

impl DeepView for ExecutableDocument {
    type V = DocumentView;

    open spec fn deep_view(&self) -> DocumentView {
        DocumentView {
            operations: self.operations.deep_view(),
            fragments: self.fragments.deep_view(),
        }
    }
}

} // verus!
