//! Operations as they are sent: as a document again, and the variables that they use.

use crate::ast::clone_directives;
use crate::ast::clone_text;
use crate::ast::inner_name;
use crate::ast::value_view;
use crate::ast::Argument;
use crate::ast::ArgumentView;
use crate::ast::Directive;
use crate::ast::DirectiveView;
use crate::ast::Value;
use crate::ast::ValueView;
use crate::collections::set_with;
use crate::collections::NameSet;
use crate::error::result_view;
use crate::error::ErrorView;
use crate::error::FederationError;
use crate::operation::condition_name;
use crate::operation::executable::executables_view;
use crate::operation::executable::lemma_executable_set;
use crate::operation::executable::ExecutableField;
use crate::operation::executable::ExecutableFieldView;
use crate::operation::executable::ExecutableFragment;
use crate::operation::executable::ExecutableFragmentView;
use crate::operation::executable::ExecutableOperation;
use crate::operation::executable::ExecutableOperationView;
use crate::operation::executable::ExecutableSelection;
use crate::operation::executable::ExecutableSet;
use crate::operation::executable::ExecutableSetView;
use crate::operation::executable::ExecutableView;
use crate::operation::is_plain_typename;
use crate::operation::operations::Operation;
use crate::operation::operations::OperationView;
use crate::operation::selection::lemma_set_view;
use crate::operation::selection::selections_view;
use crate::operation::selection::Selection;
use crate::operation::selection::SelectionSet;
use crate::operation::selection::SelectionSetView;
use crate::operation::selection::SelectionView;
use crate::operation::Field;
use crate::operation::FieldElementView;
use crate::schema::position::composite_name;
use crate::schema::position::field_type;
use crate::text::Text;
use vstd::prelude::*;

verus! {

// As a document.

/// The field that stands for selections that are not there.
pub open spec fn ellipsis() -> ExecutableView {
    ExecutableView::Field(
        ExecutableFieldView {
            alias: None,
            name: "..."@,
            arguments: Seq::empty(),
            directives: Seq::empty(),
            selection_set: ExecutableSetView { ty: "String"@, selections: Seq::empty() },
        },
    )
}

/// Whether a selection is printed first.
pub open spec fn comes_first(selection: SelectionView) -> bool {
    match selection {
        SelectionView::Field { field, sub } => is_plain_typename(field),
        SelectionView::InlineFragment { fragment, set } => false,
    }
}

/// A set as it is written. A plain `__typename` comes first, and a set without selections is
/// written as an ellipsis.
pub open spec fn printed_set(set: SelectionSetView) -> Result<ExecutableSetView, ErrorView>
    decreases set, 1nat, 0nat,
{
    match printed_selections(set, set.selections.len()) {
        Err(error) => Err(error),
        Ok(selections) => Ok(
            ExecutableSetView {
                ty: composite_name(set.type_position),
                selections: if selections.len() == 0 {
                    seq![ellipsis()]
                } else {
                    selections
                },
            },
        ),
    }
}

/// The first `n` selections of a set as they are written.
pub open spec fn printed_selections(set: SelectionSetView, n: nat) -> Result<
    Seq<ExecutableView>,
    ErrorView,
>
    decreases set, 0nat, n,
{
    if n == 0 || n > set.selections.len() {
        Ok(Seq::empty())
    } else {
        match printed_selections(set, (n - 1) as nat) {
            Err(error) => Err(error),
            Ok(before) => match printed_selection(set.selections[n - 1]) {
                Err(error) => Err(error),
                Ok(new) => Ok(
                    if comes_first(set.selections[n - 1]) {
                        before.insert(0, new)
                    } else {
                        before.push(new)
                    },
                ),
            },
        }
    }
}

/// A selection as it is written.
pub open spec fn printed_selection(selection: SelectionView) -> Result<ExecutableView, ErrorView>
    decreases selection, 2nat, 0nat,
{
    match selection {
        SelectionView::Field { field, sub } => match field_type(field.schema, field.field_position) {
            Err(error) => Err(error),
            Ok(ty) => match sub {
                None => Ok(
                    printed_field(
                        field,
                        ExecutableSetView { ty: inner_name(ty), selections: Seq::empty() },
                    ),
                ),
                Some(set) => match printed_set(set) {
                    Err(error) => Err(error),
                    Ok(below) => Ok(printed_field(field, below)),
                },
            },
        },
        SelectionView::InlineFragment { fragment, set } => match printed_set(set) {
            Err(error) => Err(error),
            Ok(below) => Ok(
                ExecutableView::InlineFragment(
                    ExecutableFragmentView {
                        type_condition: condition_name(fragment),
                        directives: fragment.directives,
                        selection_set: below,
                    },
                ),
            ),
        },
    }
}

/// A field as it is written, with what is written below it.
pub open spec fn printed_field(field: FieldElementView, below: ExecutableSetView) -> ExecutableView {
    ExecutableView::Field(
        ExecutableFieldView {
            alias: field.alias,
            name: field.field_position.field_name,
            arguments: field.arguments,
            directives: field.directives,
            selection_set: below,
        },
    )
}

proof fn lemma_printed_error(set: SelectionSetView, n: nat, m: nat)
    requires
        n <= m <= set.selections.len(),
        printed_selections(set, n) is Err,
    ensures
        printed_selections(set, m) == printed_selections(set, n),
    decreases m,
{
    if n < m {
        lemma_printed_error(set, n, (m - 1) as nat);
    }
}

/// The field that stands for selections that are not there.
pub fn ellipsis_field() -> (r: ExecutableSelection)
    ensures
        r.deep_view() == ellipsis(),
{
    let r = ExecutableSelection::Field(
        ExecutableField {
            alias: None,
            name: "...".to_owned(),
            arguments: Vec::new(),
            directives: Vec::new(),
            selection_set: ExecutableSet { ty: "String".to_owned(), selections: Vec::new() },
        },
    );
    proof {
        lemma_executable_set(r->Field_0.selection_set);
        assert(r->Field_0.arguments.deep_view() =~= Seq::empty());
        assert(r->Field_0.directives.deep_view() =~= Seq::empty());
        assert(r->Field_0.selection_set.deep_view().selections =~= Seq::empty());
    }
    r
}

fn clone_arguments(arguments: &Vec<Argument>) -> (r: Vec<Argument>)
    ensures
        r.deep_view() == arguments.deep_view(),
{
    let r = arguments.clone();
    assert(r.deep_view() =~= arguments.deep_view());
    r
}

impl SelectionSet {
    /// The set as it is written.
    pub fn to_executable(&self) -> (r: Result<ExecutableSet, FederationError>)
        ensures
            result_view(r) == printed_set(self.deep_view()),
        decreases self, 1int,
    {
        proof {
            lemma_set_view(*self);
        }
        let ghost all = self.deep_view();
        let mut flattened: Vec<ExecutableSelection> = Vec::new();
        assert(executables_view(flattened@) =~= Seq::empty());
        let mut i: usize = 0;
        while i < self.selections.len()
            invariant
                i <= self.selections@.len(),
                all == self.deep_view(),
                all.selections == selections_view(self.selections@),
                printed_selections(all, i as nat) == Ok::<Seq<ExecutableView>, ErrorView>(
                    executables_view(flattened@),
                ),
            decreases self.selections@.len() - i,
        {
            assert(decreases_to!(*self => self.selections));
            assert(decreases_to!(self.selections@ => self.selections@[i as int]));
            let selection = &self.selections[i];
            assert(all.selections[i as int] == selection.deep_view());
            let ghost before = executables_view(flattened@);
            let new = match selection.to_executable() {
                Ok(new) => new,
                Err(error) => {
                    proof {
                        lemma_printed_error(all, i as nat + 1, all.selections.len());
                    }
                    return Err(error);
                },
            };
            let ghost view = new.deep_view();
            let first = match selection {
                Selection::Field(f) => f.field.is_plain_typename_field(),
                Selection::InlineFragment(_) => false,
            };
            if first {
                flattened.insert(0, new);
                assert(executables_view(flattened@) =~= before.insert(0, view));
            } else {
                flattened.push(new);
                assert(executables_view(flattened@) =~= before.push(view));
            }
            i += 1;
        }
        if flattened.len() == 0 {
            flattened.push(ellipsis_field());
            assert(executables_view(flattened@) =~= seq![ellipsis()]);
        }
        let r = ExecutableSet {
            ty: self.type_position.name().clone(),
            selections: flattened,
        };
        proof {
            lemma_executable_set(r);
        }
        Ok(r)
    }
}

impl Selection {
    /// The selection as it is written.
    pub fn to_executable(&self) -> (r: Result<ExecutableSelection, FederationError>)
        ensures
            result_view(r) == printed_selection(self.deep_view()),
        decreases self, 2int,
    {
        match self {
            Selection::Field(f) => {
                let ty = match f.field.schema.field_type(&f.field.field_position) {
                    Ok(ty) => ty,
                    Err(error) => {
                        return Err(error);
                    },
                };
                let below = match &f.selection_set {
                    None => {
                        let set = ExecutableSet {
                            ty: ty.inner_named_type().clone(),
                            selections: Vec::new(),
                        };
                        proof {
                            lemma_executable_set(set);
                            assert(set.deep_view().selections =~= Seq::empty());
                        }
                        set
                    },
                    Some(set) => match set.to_executable() {
                        Ok(below) => below,
                        Err(error) => {
                            return Err(error);
                        },
                    },
                };
                Ok(
                    ExecutableSelection::Field(
                        ExecutableField {
                            alias: clone_text(&f.field.alias),
                            name: f.field.name().clone(),
                            arguments: clone_arguments(&f.field.arguments),
                            directives: clone_directives(&f.field.directives),
                            selection_set: below,
                        },
                    ),
                )
            },
            Selection::InlineFragment(f) => {
                let below = match f.selection_set.to_executable() {
                    Ok(below) => below,
                    Err(error) => {
                        return Err(error);
                    },
                };
                let type_condition = match &f.inline_fragment.type_condition_position {
                    Some(position) => Some(position.name().clone()),
                    None => None,
                };
                Ok(
                    ExecutableSelection::InlineFragment(
                        ExecutableFragment {
                            type_condition,
                            directives: clone_directives(&f.inline_fragment.directives),
                            selection_set: below,
                        },
                    ),
                )
            },
        }
    }
}

/// An operation as it is written.
pub open spec fn printed_operation(operation: OperationView) -> Result<
    ExecutableOperationView,
    ErrorView,
> {
    match printed_set(operation.selection_set) {
        Err(error) => Err(error),
        Ok(selection_set) => Ok(
            ExecutableOperationView {
                operation_type: operation.root_kind,
                name: operation.name,
                variables: operation.variables,
                directives: operation.directives,
                selection_set,
            },
        ),
    }
}

impl Operation {
    /// The operation as it is written.
    pub fn to_executable(&self) -> (r: Result<ExecutableOperation, FederationError>)
        ensures
            result_view(r) == printed_operation(self.deep_view()),
    {
        let selection_set = match self.selection_set.to_executable() {
            Ok(selection_set) => selection_set,
            Err(error) => {
                return Err(error);
            },
        };
        let variables = self.variables.clone();
        assert(variables.deep_view() =~= self.variables.deep_view());
        Ok(
            ExecutableOperation {
                operation_type: self.root_kind,
                name: clone_text(&self.name),
                variables,
                directives: clone_directives(&self.directives),
                selection_set,
            },
        )
    }
}

// The variables in use.

/// The variables of a value, added to the given ones.
pub open spec fn value_variables(value: ValueView, names: Seq<Text>) -> Seq<Text>
    decreases value, 1nat, 0nat,
{
    match value {
        ValueView::Variable(name) => set_with(names, name),
        ValueView::List(items) => list_variables(items, names, items.len()),
        ValueView::Object(fields) => object_variables(fields, names, fields.len()),
        _ => names,
    }
}

/// The variables of the first `n` values of a list, added to the given ones.
pub open spec fn list_variables(items: Seq<ValueView>, names: Seq<Text>, n: nat) -> Seq<Text>
    decreases items, 0nat, n,
{
    if n == 0 || n > items.len() {
        names
    } else {
        value_variables(items[n - 1], list_variables(items, names, (n - 1) as nat))
    }
}

/// The variables of the first `n` fields of an object, added to the given ones.
pub open spec fn object_variables(fields: Seq<(Text, ValueView)>, names: Seq<Text>, n: nat) -> Seq<
    Text,
>
    decreases fields, 0nat, n,
{
    if n == 0 || n > fields.len() {
        names
    } else {
        value_variables(fields[n - 1].1, object_variables(fields, names, (n - 1) as nat))
    }
}

/// The variables of the first `n` arguments, added to the given ones.
pub open spec fn argument_variables(arguments: Seq<ArgumentView>, names: Seq<Text>, n: nat) -> Seq<
    Text,
>
    decreases n,
{
    if n == 0 {
        names
    } else {
        value_variables(
            arguments[n - 1].value,
            argument_variables(arguments, names, (n - 1) as nat),
        )
    }
}

/// The variables of the first `n` directives, added to the given ones.
pub open spec fn directive_list_variables(
    directives: Seq<DirectiveView>,
    names: Seq<Text>,
    n: nat,
) -> Seq<Text>
    decreases n,
{
    if n == 0 {
        names
    } else {
        argument_variables(
            directives[n - 1].arguments,
            directive_list_variables(directives, names, (n - 1) as nat),
            directives[n - 1].arguments.len(),
        )
    }
}

/// The variables of a field without what is below it, added to the given ones.
pub open spec fn field_variables(field: FieldElementView, names: Seq<Text>) -> Seq<Text> {
    directive_list_variables(
        field.directives,
        argument_variables(field.arguments, names, field.arguments.len()),
        field.directives.len(),
    )
}

/// The variables of the first `n` selections of a set, added to the given ones.
pub open spec fn set_variables(set: SelectionSetView, names: Seq<Text>, n: nat) -> Seq<Text>
    decreases set, n,
{
    if n == 0 || n > set.selections.len() {
        names
    } else {
        selection_variables(
            set.selections[n - 1],
            set_variables(set, names, (n - 1) as nat),
        )
    }
}

/// The variables of a selection, added to the given ones.
pub open spec fn selection_variables(selection: SelectionView, names: Seq<Text>) -> Seq<Text>
    decreases selection, 0nat,
{
    match selection {
        SelectionView::Field { field, sub } => match sub {
            Some(set) => set_variables(set, field_variables(field, names), set.selections.len()),
            None => field_variables(field, names),
        },
        SelectionView::InlineFragment { fragment, set } => set_variables(
            set,
            directive_list_variables(fragment.directives, names, fragment.directives.len()),
            set.selections.len(),
        ),
    }
}

/// Collects the variables that are in use.
pub struct VariableCollector {
    pub variables: NameSet,
}

impl VariableCollector {
    /// A collector without variables.
    pub fn new() -> (r: Self)
        ensures
            r.variables.deep_view() == Seq::<Text>::empty(),
    {
        VariableCollector { variables: NameSet::new() }
    }

    fn visit_value(&mut self, value: &Value)
        ensures
            final(self).variables.deep_view() == value_variables(
                value.deep_view(),
                old(self).variables.deep_view(),
            ),
        decreases value,
    {
        let ghost start = self.variables.deep_view();
        match value {
            Value::Variable(name) => {
                self.variables.insert(name.clone());
            },
            Value::List(items) => {
                let ghost all = value_view(*value)->List_0;
                let mut i: usize = 0;
                while i < items.len()
                    invariant
                        *value == Value::List(*items),
                        i <= items.len(),
                        all == value_view(*value)->List_0,
                        all.len() == items@.len(),
                        start == old(self).variables.deep_view(),
                        self.variables.deep_view() == list_variables(all, start, i as nat),
                    decreases items.len() - i,
                {
                    assert(decreases_to!(*value => value->List_0));
                    assert(decreases_to!(items@ => items@[i as int]));
                    assert(all[i as int] == value_view(items@[i as int]));
                    self.visit_value(&items[i]);
                    i += 1;
                }
            },
            Value::Object(fields) => {
                let ghost all = value_view(*value)->Object_0;
                let mut i: usize = 0;
                while i < fields.len()
                    invariant
                        *value == Value::Object(*fields),
                        i <= fields.len(),
                        all == value_view(*value)->Object_0,
                        all.len() == fields@.len(),
                        start == old(self).variables.deep_view(),
                        self.variables.deep_view() == object_variables(all, start, i as nat),
                    decreases fields.len() - i,
                {
                    assert(decreases_to!(*value => value->Object_0));
                    assert(decreases_to!(fields@ => fields@[i as int]));
                    assert(decreases_to!(fields@[i as int] => fields@[i as int].1));
                    assert(all[i as int].1 == value_view(fields@[i as int].1));
                    self.visit_value(&fields[i].1);
                    i += 1;
                }
            },
            _ => {},
        }
    }

    fn visit_arguments(&mut self, arguments: &Vec<Argument>)
        ensures
            final(self).variables.deep_view() == argument_variables(
                arguments.deep_view(),
                old(self).variables.deep_view(),
                arguments.deep_view().len(),
            ),
    {
        let ghost all = arguments.deep_view();
        let ghost start = self.variables.deep_view();
        let mut i: usize = 0;
        while i < arguments.len()
            invariant
                i <= arguments@.len(),
                all == arguments.deep_view(),
                start == old(self).variables.deep_view(),
                self.variables.deep_view() == argument_variables(all, start, i as nat),
            decreases arguments@.len() - i,
        {
            assert(all[i as int] == arguments@[i as int].deep_view());
            self.visit_value(&arguments[i].value);
            i += 1;
        }
    }

    /// Collects the variables of directives.
    pub fn visit_directive_list(&mut self, directives: &Vec<Directive>)
        ensures
            final(self).variables.deep_view() == directive_list_variables(
                directives.deep_view(),
                old(self).variables.deep_view(),
                directives.deep_view().len(),
            ),
    {
        let ghost all = directives.deep_view();
        let ghost start = self.variables.deep_view();
        let mut i: usize = 0;
        while i < directives.len()
            invariant
                i <= directives@.len(),
                all == directives.deep_view(),
                start == old(self).variables.deep_view(),
                self.variables.deep_view() == directive_list_variables(all, start, i as nat),
            decreases directives@.len() - i,
        {
            assert(all[i as int] == directives@[i as int].deep_view());
            self.visit_arguments(&directives[i].arguments);
            i += 1;
        }
    }

    fn visit_selection(&mut self, selection: &Selection)
        ensures
            final(self).variables.deep_view() == selection_variables(
                selection.deep_view(),
                old(self).variables.deep_view(),
            ),
        decreases selection,
    {
        match selection {
            Selection::Field(f) => {
                self.visit_arguments(&f.field.arguments);
                self.visit_directive_list(&f.field.directives);
                if let Some(set) = &f.selection_set {
                    self.visit_selection_set(set);
                }
            },
            Selection::InlineFragment(f) => {
                self.visit_directive_list(&f.inline_fragment.directives);
                self.visit_selection_set(&f.selection_set);
            },
        }
    }

    /// Collects the variables of a set.
    pub fn visit_selection_set(&mut self, selection_set: &SelectionSet)
        ensures
            final(self).variables.deep_view() == set_variables(
                selection_set.deep_view(),
                old(self).variables.deep_view(),
                selection_set.deep_view().selections.len(),
            ),
        decreases selection_set,
    {
        proof {
            lemma_set_view(*selection_set);
        }
        let ghost all = selection_set.deep_view();
        let ghost start = self.variables.deep_view();
        let mut i: usize = 0;
        while i < selection_set.selections.len()
            invariant
                i <= selection_set.selections@.len(),
                all == selection_set.deep_view(),
                all.selections == selections_view(selection_set.selections@),
                start == old(self).variables.deep_view(),
                self.variables.deep_view() == set_variables(all, start, i as nat),
            decreases selection_set.selections@.len() - i,
        {
            assert(decreases_to!(*selection_set => selection_set.selections));
            assert(decreases_to!(selection_set.selections@ => selection_set.selections@[i as int]));
            assert(all.selections[i as int] == selection_set.selections@[i as int].deep_view());
            self.visit_selection(&selection_set.selections[i]);
            i += 1;
        }
    }

    /// The variables that were collected, in the order in which they were found.
    pub fn into_inner(self) -> (r: NameSet)
        ensures
            r.deep_view() == self.variables.deep_view(),
    {
        self.variables
    }
}

} // verus!
