//! `@defer` in operations: giving it a label, and taking it out.

use crate::ast::Argument;
use crate::ast::ArgumentView;
use crate::ast::Directive;
use crate::ast::DirectiveView;
use crate::ast::Name;
use crate::ast::Value;
use crate::ast::ValueView;
use crate::collections::put;
use crate::collections::set_with;
use crate::collections::value_or;
use crate::collections::Entries;
use crate::collections::NameMap;
use crate::collections::NameSet;
use crate::error::result_view;
use crate::error::ErrorView;
use crate::error::FederationError;
use crate::merge::directives::argument_value;
use crate::merge::directives::directive_arg_value;
use crate::merge::directives::has_directive;
use crate::merge::directives::is_applied;
use crate::operation::fragment_defer;
use crate::operation::merging::add_selection;
use crate::operation::merging::with_selection;
use crate::operation::selection::insert_selection;
use crate::operation::selection::lemma_set_view;
use crate::operation::selection::put_selection;
use crate::operation::selection::selections_view;
use crate::operation::selection::FieldSelection;
use crate::operation::selection::InlineFragmentSelection;
use crate::operation::selection::Selection;
use crate::operation::selection::SelectionSet;
use crate::operation::selection::SelectionSetView;
use crate::operation::selection::SelectionView;
use crate::operation::BooleanOrVariable;
use crate::operation::BooleanOrVariableView;
use crate::operation::DeferView;
use crate::operation::InlineFragment;
use crate::operation::InlineFragmentView;
use crate::query_graph::elements::directives_without;
use crate::text::decimal;
use crate::text::decimal_string;
use crate::text::joined;
use crate::text::same;
use crate::text::Text;
use vstd::prelude::*;

verus! {

// Whether there is any.

/// Whether one of the first `n` selections of a set is deferred, at any depth.
pub open spec fn set_defers(set: SelectionSetView, n: nat) -> bool
    decreases set, n,
{
    if n == 0 || n > set.selections.len() {
        false
    } else {
        set_defers(set, (n - 1) as nat) || selection_defers(set.selections[n - 1])
    }
}

/// Whether a selection is deferred, or one below it.
pub open spec fn selection_defers(selection: SelectionView) -> bool
    decreases selection, 0nat,
{
    match selection {
        SelectionView::Field { field, sub } => match sub {
            Some(set) => set_defers(set, set.selections.len()),
            None => false,
        },
        SelectionView::InlineFragment { fragment, set } => has_directive(
            fragment.directives,
            "defer"@,
        ) || set_defers(set, set.selections.len()),
    }
}

proof fn lemma_set_defers(set: SelectionSetView, n: nat, m: nat)
    requires
        n <= m <= set.selections.len(),
        set_defers(set, n),
    ensures
        set_defers(set, m),
    decreases m,
{
    if n < m {
        lemma_set_defers(set, n, (m - 1) as nat);
    }
}

impl SelectionSet {
    /// Whether something in the set is deferred, at any depth.
    pub fn has_defer(&self) -> (r: bool)
        ensures
            r == set_defers(self.deep_view(), self.deep_view().selections.len()),
        decreases self,
    {
        proof {
            lemma_set_view(*self);
        }
        let ghost all = self.deep_view();
        let mut i: usize = 0;
        while i < self.selections.len()
            invariant
                i <= self.selections@.len(),
                all == self.deep_view(),
                all.selections == selections_view(self.selections@),
                !set_defers(all, i as nat),
            decreases self.selections@.len() - i,
        {
            assert(decreases_to!(*self => self.selections));
            assert(decreases_to!(self.selections@ => self.selections@[i as int]));
            assert(all.selections[i as int] == self.selections@[i as int].deep_view());
            if self.selections[i].has_defer() {
                proof {
                    lemma_set_defers(all, i as nat + 1, all.selections.len());
                }
                return true;
            }
            i += 1;
        }
        false
    }
}

impl Selection {
    /// Whether the selection is deferred, or one below it.
    pub fn has_defer(&self) -> (r: bool)
        ensures
            r == selection_defers(self.deep_view()),
        decreases self,
    {
        match self {
            Selection::Field(f) => match &f.selection_set {
                Some(set) => set.has_defer(),
                None => false,
            },
            Selection::InlineFragment(f) => is_applied(&f.inline_fragment.directives, "defer")
                || f.selection_set.has_defer(),
        }
    }
}

// The labels in use.

/// The labels in use after the first `n` selections of a set, which are looked at from the last
/// one.
pub open spec fn labels_of_set(set: SelectionSetView, used: Seq<Text>, n: nat) -> Result<
    Seq<Text>,
    ErrorView,
>
    decreases set, n,
{
    if n == 0 || n > set.selections.len() {
        Ok(used)
    } else {
        match labels_of_selection(set.selections[n - 1], used) {
            Err(error) => Err(error),
            Ok(after) => labels_of_set(set, after, (n - 1) as nat),
        }
    }
}

/// The labels in use after a selection and everything below it.
pub open spec fn labels_of_selection(selection: SelectionView, used: Seq<Text>) -> Result<
    Seq<Text>,
    ErrorView,
>
    decreases selection, 0nat,
{
    match selection {
        SelectionView::Field { field, sub } => match sub {
            Some(set) => labels_of_set(set, used, set.selections.len()),
            None => Ok(used),
        },
        SelectionView::InlineFragment { fragment, set } => match fragment_defer(fragment) {
            Err(error) => Err(error),
            Ok(arguments) => labels_of_set(
                set,
                match arguments {
                    Some(DeferView { label: Some(label), if_ }) => set_with(used, label),
                    _ => used,
                },
                set.selections.len(),
            ),
        },
    }
}

fn collect_labels_of_set(set: &SelectionSet, used: &mut NameSet) -> (r: Result<(), FederationError>)
    ensures
        ({
            let expected = labels_of_set(
                set.deep_view(),
                old(used).deep_view(),
                set.deep_view().selections.len(),
            );
            match r {
                Ok(_) => expected == Ok::<Seq<Text>, ErrorView>(final(used).deep_view()),
                Err(error) => expected == Err::<Seq<Text>, ErrorView>(error.deep_view()),
            }
        }),
    decreases set,
{
    proof {
        lemma_set_view(*set);
    }
    let ghost all = set.deep_view();
    let ghost start = used.deep_view();
    let mut n: usize = set.selections.len();
    while n > 0
        invariant
            n <= set.selections@.len(),
            all == set.deep_view(),
            all.selections == selections_view(set.selections@),
            start == old(used).deep_view(),
            labels_of_set(all, start, all.selections.len()) == labels_of_set(
                all,
                used.deep_view(),
                n as nat,
            ),
        decreases n,
    {
        assert(decreases_to!(*set => set.selections));
        assert(decreases_to!(set.selections@ => set.selections@[n - 1]));
        assert(all.selections[n - 1] == set.selections@[n - 1].deep_view());
        match collect_labels_of_selection(&set.selections[n - 1], used) {
            Ok(_) => {},
            Err(error) => {
                return Err(error);
            },
        }
        n = n - 1;
    }
    Ok(())
}

fn collect_labels_of_selection(selection: &Selection, used: &mut NameSet) -> (r: Result<
    (),
    FederationError,
>)
    ensures
        ({
            let expected = labels_of_selection(selection.deep_view(), old(used).deep_view());
            match r {
                Ok(_) => expected == Ok::<Seq<Text>, ErrorView>(final(used).deep_view()),
                Err(error) => expected == Err::<Seq<Text>, ErrorView>(error.deep_view()),
            }
        }),
    decreases selection,
{
    match selection {
        Selection::Field(f) => match &f.selection_set {
            Some(set) => collect_labels_of_set(set, used),
            None => Ok(()),
        },
        Selection::InlineFragment(f) => {
            match f.inline_fragment.defer_directive_arguments() {
                Err(error) => {
                    return Err(error);
                },
                Ok(None) => {},
                Ok(Some(arguments)) => {
                    if let Some(label) = arguments.label {
                        used.insert(label);
                    }
                },
            }
            collect_labels_of_set(&f.selection_set, used)
        },
    }
}

// Giving labels.

/// What is known while `@defer` is normalized: the labels in use, those that were made up, the
/// labels that depend on a variable, and the number of the next label.
pub struct DeferNormalizer {
    pub used_labels: NameSet,
    pub assigned_labels: NameSet,
    pub conditions: NameMap<NameSet>,
    pub label_offset: usize,
}

/// The mathematical content of a [`DeferNormalizer`].
#[verifier::ext_equal]
pub struct DeferNormalizerView {
    pub used_labels: Seq<Text>,
    pub assigned_labels: Seq<Text>,
    pub conditions: Entries<Seq<Text>>,
    pub label_offset: usize,
}

impl DeepView for DeferNormalizer {
    type V = DeferNormalizerView;

    open spec fn deep_view(&self) -> DeferNormalizerView {
        DeferNormalizerView {
            used_labels: self.used_labels.deep_view(),
            assigned_labels: self.assigned_labels.deep_view(),
            conditions: self.conditions.deep_view(),
            label_offset: self.label_offset,
        }
    }
}

/// The made-up label with the given number.
pub open spec fn label_name(k: nat) -> Text {
    "qp__"@ + decimal(k)
}

/// The first number from `k` on whose label is not in use.
pub open spec fn free_label(used: Seq<Text>, k: nat) -> nat
    decreases usize::MAX - k,
{
    if k >= usize::MAX || !used.contains(label_name(k)) {
        k
    } else {
        free_label(used, k + 1)
    }
}

/// What is known after a label was made up.
pub open spec fn after_label(state: DeferNormalizerView) -> DeferNormalizerView {
    let k = free_label(state.used_labels, state.label_offset as nat);
    DeferNormalizerView {
        assigned_labels: set_with(state.assigned_labels, label_name(k)),
        label_offset: if k >= usize::MAX {
            usize::MAX
        } else {
            (k + 1) as usize
        },
        ..state
    }
}

/// The label that is made up next.
pub open spec fn next_label(state: DeferNormalizerView) -> Text {
    label_name(free_label(state.used_labels, state.label_offset as nat))
}

/// What is known after a label was found to depend on a variable.
pub open spec fn after_condition(state: DeferNormalizerView, label: Text, variable: Text) -> DeferNormalizerView {
    DeferNormalizerView {
        conditions: put(
            state.conditions,
            variable,
            set_with(value_or(state.conditions, variable, Seq::empty()), label),
        ),
        ..state
    }
}

impl DeferNormalizer {
    /// What is known of the selections before they are normalized.
    pub fn new(selection_set: &SelectionSet) -> (r: Result<Self, FederationError>)
        ensures
            result_view(r) == (match labels_of_set(
                selection_set.deep_view(),
                Seq::empty(),
                selection_set.deep_view().selections.len(),
            ) {
                Ok(used_labels) => Ok(
                    DeferNormalizerView {
                        used_labels,
                        assigned_labels: Seq::empty(),
                        conditions: Seq::empty(),
                        label_offset: 0,
                    },
                ),
                Err(error) => Err(error),
            }),
    {
        let mut used_labels = NameSet::new();
        match collect_labels_of_set(selection_set, &mut used_labels) {
            Ok(_) => {},
            Err(error) => {
                return Err(error);
            },
        }
        Ok(
            DeferNormalizer {
                used_labels,
                assigned_labels: NameSet::new(),
                conditions: NameMap::new(),
                label_offset: 0,
            },
        )
    }

    /// Makes up a label that is not in use.
    pub fn get_label(&mut self) -> (r: String)
        ensures
            r@ == next_label(old(self).deep_view()),
            final(self).deep_view() == after_label(old(self).deep_view()),
    {
        let ghost start = self.deep_view();
        let mut k: usize = self.label_offset;
        loop
            invariant
                start == self.deep_view(),
                start == old(self).deep_view(),
                free_label(start.used_labels, start.label_offset as nat) == free_label(
                    start.used_labels,
                    k as nat,
                ),
            decreases usize::MAX - k,
        {
            let label = joined("qp__", &decimal_string(k as u128));
            if k == usize::MAX || !self.used_labels.contains(&label) {
                if k < usize::MAX {
                    self.label_offset = k + 1;
                } else {
                    self.label_offset = k;
                }
                self.assigned_labels.insert(label.clone());
                return label;
            }
            k += 1;
        }
    }

    /// Notes that a label depends on a variable.
    pub fn register_condition(&mut self, label: String, cond: Name)
        ensures
            final(self).deep_view() == after_condition(old(self).deep_view(), label@, cond@),
    {
        let mut labels = match self.conditions.get(&cond) {
            Some(labels) => labels.clone(),
            None => NameSet::new(),
        };
        labels.insert(label);
        self.conditions.insert(cond, labels);
    }
}

/// The arguments of `@defer` after normalizing; none where it is taken out.
pub open spec fn normalized_arguments(arguments: DeferView, made_up: Text) -> Option<DeferView> {
    let label = match arguments.label {
        Some(label) => label,
        None => made_up,
    };
    match arguments.if_ {
        Some(BooleanOrVariableView::Boolean(true)) => Some(
            DeferView { label: Some(label), if_: None },
        ),
        Some(BooleanOrVariableView::Boolean(false)) => None,
        condition => Some(DeferView { label: Some(label), if_: condition }),
    }
}

/// What is known after a `@defer` was normalized.
pub open spec fn after_defer(state: DeferNormalizerView, arguments: DeferView) -> DeferNormalizerView {
    let labelled = if arguments.label is None {
        after_label(state)
    } else {
        state
    };
    match normalized_arguments(arguments, next_label(state)) {
        Some(DeferView {
            label: Some(label),
            if_: Some(BooleanOrVariableView::Variable(variable)),
        }) => after_condition(labelled, label, variable),
        _ => labelled,
    }
}

/// The arguments among the first `n` that are neither the label nor the condition.
pub open spec fn other_arguments(arguments: Seq<ArgumentView>, n: nat) -> Seq<ArgumentView>
    decreases n,
{
    if n == 0 {
        Seq::empty()
    } else {
        let before = other_arguments(arguments, (n - 1) as nat);
        if arguments[n - 1].name == "label"@ || arguments[n - 1].name == "if"@ {
            before
        } else {
            before.push(arguments[n - 1])
        }
    }
}

/// The arguments of a directive that say the same as the given ones.
pub open spec fn written_arguments(others: Seq<ArgumentView>, arguments: DeferView) -> Seq<
    ArgumentView,
> {
    let labelled = others.push(
        ArgumentView { name: "label"@, value: ValueView::String(arguments.label->0) },
    );
    match arguments.if_ {
        Some(BooleanOrVariableView::Variable(variable)) => labelled.push(
            ArgumentView { name: "if"@, value: ValueView::Variable(variable) },
        ),
        Some(BooleanOrVariableView::Boolean(b)) => labelled.push(
            ArgumentView { name: "if"@, value: ValueView::Boolean(b) },
        ),
        None => labelled,
    }
}

/// A directive with the given arguments if it is `@defer`.
pub open spec fn rewritten(directive: DirectiveView, arguments: DeferView) -> DirectiveView {
    if directive.name == "defer"@ {
        DirectiveView {
            name: directive.name,
            arguments: written_arguments(
                other_arguments(directive.arguments, directive.arguments.len()),
                arguments,
            ),
        }
    } else {
        directive
    }
}

/// A fragment after its `@defer` was normalized.
pub open spec fn normalized_defer(fragment: InlineFragmentView, state: DeferNormalizerView) -> Result<
    (InlineFragmentView, DeferNormalizerView),
    ErrorView,
> {
    match fragment_defer(fragment) {
        Err(error) => Err(error),
        Ok(None) => Ok((fragment, state)),
        Ok(Some(arguments)) => {
            let after = after_defer(state, arguments);
            match normalized_arguments(arguments, next_label(state)) {
                None => Ok(
                    (
                        InlineFragmentView {
                            directives: fragment.directives.filter(
                                |d: DirectiveView| d.name != "defer"@,
                            ),
                            ..fragment
                        },
                        after,
                    ),
                ),
                Some(new) => Ok(
                    (
                        if new == arguments {
                            fragment
                        } else {
                            InlineFragmentView {
                                directives: fragment.directives.map_values(
                                    |d: DirectiveView| rewritten(d, new),
                                ),
                                ..fragment
                            }
                        },
                        after,
                    ),
                ),
            }
        },
    }
}

/// The first `n` selections of a set after normalizing, and what is known then.
pub open spec fn defers_of_set(set: SelectionSetView, state: DeferNormalizerView, n: nat) -> Result<
    (Seq<SelectionView>, DeferNormalizerView),
    ErrorView,
>
    decreases set, n,
{
    if n == 0 || n > set.selections.len() {
        Ok((Seq::empty(), state))
    } else {
        match defers_of_set(set, state, (n - 1) as nat) {
            Err(error) => Err(error),
            Ok((before, next)) => match defers_of_selection(set.selections[n - 1], next) {
                Err(error) => Err(error),
                Ok((new, after)) => Ok((put_selection(before, new), after)),
            },
        }
    }
}

/// A selection after normalizing, and what is known then. What is below it comes first.
pub open spec fn defers_of_selection(selection: SelectionView, state: DeferNormalizerView) -> Result<
    (SelectionView, DeferNormalizerView),
    ErrorView,
>
    decreases selection, 0nat,
{
    match selection {
        SelectionView::Field { field, sub } => match sub {
            None => Ok((selection, state)),
            Some(set) => match defers_of_set(set, state, set.selections.len()) {
                Err(error) => Err(error),
                Ok((selections, after)) => Ok(
                    (
                        SelectionView::Field {
                            field,
                            sub: Some(SelectionSetView { selections, ..set }),
                        },
                        after,
                    ),
                ),
            },
        },
        SelectionView::InlineFragment { fragment, set } => match defers_of_set(
            set,
            state,
            set.selections.len(),
        ) {
            Err(error) => Err(error),
            Ok((selections, next)) => match normalized_defer(fragment, next) {
                Err(error) => Err(error),
                Ok((new, after)) => Ok(
                    (
                        SelectionView::InlineFragment {
                            fragment: new,
                            set: SelectionSetView { selections, ..set },
                        },
                        after,
                    ),
                ),
            },
        },
    }
}

proof fn lemma_defers_error(
    set: SelectionSetView,
    state: DeferNormalizerView,
    n: nat,
    m: nat,
)
    requires
        n <= m <= set.selections.len(),
        defers_of_set(set, state, n) is Err,
    ensures
        defers_of_set(set, state, m) == defers_of_set(set, state, n),
    decreases m,
{
    if n < m {
        lemma_defers_error(set, state, n, (m - 1) as nat);
    }
}

fn keep_other_arguments(arguments: &Vec<Argument>) -> (r: Vec<Argument>)
    ensures
        r.deep_view() == other_arguments(arguments.deep_view(), arguments.deep_view().len()),
{
    let ghost all = arguments.deep_view();
    let mut r: Vec<Argument> = Vec::new();
    assert(r.deep_view() =~= Seq::empty());
    let mut i: usize = 0;
    while i < arguments.len()
        invariant
            i <= arguments@.len(),
            all == arguments.deep_view(),
            r.deep_view() == other_arguments(all, i as nat),
        decreases arguments@.len() - i,
    {
        let ghost before = r.deep_view();
        assert(all[i as int] == arguments@[i as int].deep_view());
        if !same(&arguments[i].name, "label") && !same(&arguments[i].name, "if") {
            r.push(arguments[i].clone());
            assert(r.deep_view() =~= before.push(all[i as int]));
        }
        i += 1;
    }
    r
}

fn write_arguments(others: Vec<Argument>, label: &String, condition: &Option<BooleanOrVariable>) -> (r:
    Vec<Argument>)
    ensures
        r.deep_view() == written_arguments(
            others.deep_view(),
            (DeferView { label: Some(label@), if_: condition.deep_view() }),
        ),
{
    let ghost start = others.deep_view();
    let mut r = others;
    r.push(Argument { name: "label".to_owned(), value: Value::String(label.clone()) });
    let ghost labelled = start.push(
        ArgumentView { name: "label"@, value: ValueView::String(label@) },
    );
    assert(r.deep_view() =~= labelled);
    match condition {
        None => {},
        Some(BooleanOrVariable::Variable(variable)) => {
            r.push(Argument { name: "if".to_owned(), value: Value::Variable(variable.clone()) });
            assert(r.deep_view() =~= labelled.push(
                ArgumentView { name: "if"@, value: ValueView::Variable(variable@) },
            ));
        },
        Some(BooleanOrVariable::Boolean(b)) => {
            r.push(Argument { name: "if".to_owned(), value: Value::Boolean(*b) });
            assert(r.deep_view() =~= labelled.push(
                ArgumentView { name: "if"@, value: ValueView::Boolean(*b) },
            ));
        },
    }
    r
}

fn rewrite_directives(
    directives: &Vec<Directive>,
    label: &String,
    condition: &Option<BooleanOrVariable>,
) -> (r: Vec<Directive>)
    ensures
        r.deep_view() == directives.deep_view().map_values(
            |d: DirectiveView|
                rewritten(d, DeferView { label: Some(label@), if_: condition.deep_view() }),
        ),
{
    let ghost new = DeferView { label: Some(label@), if_: condition.deep_view() };
    let mut r: Vec<Directive> = Vec::new();
    let mut i: usize = 0;
    while i < directives.len()
        invariant
            i <= directives@.len(),
            new == (DeferView { label: Some(label@), if_: condition.deep_view() }),
            r@.len() == i,
            forall|j: int|
                0 <= j < i ==> (#[trigger] r@[j]).deep_view() == rewritten(
                    directives@[j].deep_view(),
                    new,
                ),
        decreases directives@.len() - i,
    {
        if same(&directives[i].name, "defer") {
            let others = keep_other_arguments(&directives[i].arguments);
            r.push(
                Directive {
                    name: directives[i].name.clone(),
                    arguments: write_arguments(others, label, condition),
                },
            );
        } else {
            r.push(directives[i].clone());
        }
        i += 1;
    }
    assert(r.deep_view() =~= directives.deep_view().map_values(
        |d: DirectiveView| rewritten(d, new),
    ));
    r
}

/// Whether a result is the expected one, with the expected knowledge behind it.
pub open spec fn defer_outcome<T: DeepView>(
    r: Result<T, FederationError>,
    normalizer: DeferNormalizer,
    expected: Result<(T::V, DeferNormalizerView), ErrorView>,
) -> bool {
    match r {
        Ok(value) => expected == Ok::<(T::V, DeferNormalizerView), ErrorView>(
            (value.deep_view(), normalizer.deep_view()),
        ),
        Err(error) => expected == Err::<(T::V, DeferNormalizerView), ErrorView>(
            error.deep_view(),
        ),
    }
}

impl InlineFragment {
    /// The fragment with its `@defer` normalized: it has a label and no condition that is known,
    /// and one that is never taken is left out.
    pub fn normalize_defer(&self, normalizer: &mut DeferNormalizer) -> (r: Result<
        InlineFragment,
        FederationError,
    >)
        ensures
            defer_outcome(
                r,
                *final(normalizer),
                normalized_defer(self.deep_view(), old(normalizer).deep_view()),
            ),
    {
        let arguments = match self.defer_directive_arguments() {
            Err(error) => {
                return Err(error);
            },
            Ok(None) => {
                return Ok(self.clone());
            },
            Ok(Some(arguments)) => arguments,
        };
        let ghost start = normalizer.deep_view();
        let ghost given = arguments.deep_view();
        let unlabelled = arguments.label.is_none();
        let label = match arguments.label {
            Some(label) => label,
            None => normalizer.get_label(),
        };
        let mut always = false;
        let mut condition: Option<BooleanOrVariable> = None;
        match arguments.if_ {
            None => {},
            Some(BooleanOrVariable::Boolean(true)) => {
                always = true;
            },
            Some(BooleanOrVariable::Boolean(false)) => {
                return Ok(
                    self.with_updated_directives(
                        directives_without(
                            &self.directives,
                            "defer",
                        ),
                    ),
                );
            },
            Some(BooleanOrVariable::Variable(variable)) => {
                normalizer.register_condition(label.clone(), variable.clone());
                condition = Some(BooleanOrVariable::Variable(variable));
            },
        }
        let ghost new = DeferView { label: Some(label@), if_: condition.deep_view() };
        assert(normalized_arguments(given, next_label(start)) == Some(new));
        assert((new == given) == (!unlabelled && !always));
        if !unlabelled && !always {
            Ok(self.clone())
        } else {
            Ok(
                self.with_updated_directives(
                    rewrite_directives(&self.directives, &label, &condition),
                ),
            )
        }
    }
}

impl Selection {
    /// The selection with every `@defer` normalized.
    pub fn normalize_defer(&self, normalizer: &mut DeferNormalizer) -> (r: Result<
        Selection,
        FederationError,
    >)
        ensures
            defer_outcome(
                r,
                *final(normalizer),
                defers_of_selection(self.deep_view(), old(normalizer).deep_view()),
            ),
        decreases self,
    {
        match self {
            Selection::Field(f) => match &f.selection_set {
                None => Ok(self.clone()),
                Some(set) => match set.normalize_defer(normalizer) {
                    Err(error) => Err(error),
                    Ok(new) => Ok(
                        Selection::Field(
                            FieldSelection { field: f.field.clone(), selection_set: Some(new) },
                        ),
                    ),
                },
            },
            Selection::InlineFragment(f) => {
                let selection_set = match f.selection_set.normalize_defer(normalizer) {
                    Ok(set) => set,
                    Err(error) => {
                        return Err(error);
                    },
                };
                match f.inline_fragment.normalize_defer(normalizer) {
                    Ok(inline_fragment) => Ok(
                        Selection::InlineFragment(
                            InlineFragmentSelection { inline_fragment, selection_set },
                        ),
                    ),
                    Err(error) => Err(error),
                }
            },
        }
    }
}

/// A set after normalizing, and what is known then.
pub open spec fn normalized_defers(set: SelectionSetView, state: DeferNormalizerView) -> Result<
    (SelectionSetView, DeferNormalizerView),
    ErrorView,
> {
    match defers_of_set(set, state, set.selections.len()) {
        Ok((selections, after)) => Ok((SelectionSetView { selections, ..set }, after)),
        Err(error) => Err(error),
    }
}

impl SelectionSet {
    /// The set with every `@defer` normalized.
    pub fn normalize_defer(&self, normalizer: &mut DeferNormalizer) -> (r: Result<
        SelectionSet,
        FederationError,
    >)
        ensures
            defer_outcome(
                r,
                *final(normalizer),
                normalized_defers(self.deep_view(), old(normalizer).deep_view()),
            ),
        decreases self,
    {
        proof {
            lemma_set_view(*self);
        }
        let ghost all = self.deep_view();
        let ghost start = normalizer.deep_view();
        let mut selections: Vec<Selection> = Vec::new();
        assert(selections_view(selections@) =~= Seq::empty());
        let mut i: usize = 0;
        while i < self.selections.len()
            invariant
                i <= self.selections@.len(),
                all == self.deep_view(),
                all.selections == selections_view(self.selections@),
                start == old(normalizer).deep_view(),
                defers_of_set(all, start, i as nat) == Ok::<
                    (Seq<SelectionView>, DeferNormalizerView),
                    ErrorView,
                >((selections_view(selections@), normalizer.deep_view())),
            decreases self.selections@.len() - i,
        {
            assert(decreases_to!(*self => self.selections));
            assert(decreases_to!(self.selections@ => self.selections@[i as int]));
            assert(all.selections[i as int] == self.selections@[i as int].deep_view());
            match self.selections[i].normalize_defer(normalizer) {
                Ok(new) => {
                    insert_selection(&mut selections, new);
                },
                Err(error) => {
                    proof {
                        lemma_defers_error(all, start, i as nat + 1, all.selections.len());
                    }
                    return Err(error);
                },
            }
            i += 1;
        }
        let r = SelectionSet {
            schema: self.schema.clone(),
            type_position: self.type_position.clone(),
            selections,
        };
        proof {
            lemma_set_view(r);
        }
        Ok(r)
    }
}

// Taking `@defer` with given labels out.

/// Whether a directive stays when `@defer` with the given labels is taken out.
pub open spec fn stays(directive: DirectiveView, labels: Seq<Text>) -> bool {
    directive.name != "defer"@ || match argument_value(directive.arguments, "label"@) {
        Some(ValueView::String(label)) => !labels.contains(label),
        _ => true,
    }
}

/// The directives among the first `n` that stay.
pub open spec fn staying(directives: Seq<DirectiveView>, labels: Seq<Text>, n: nat) -> Seq<
    DirectiveView,
>
    decreases n,
{
    if n == 0 {
        Seq::empty()
    } else {
        let before = staying(directives, labels, (n - 1) as nat);
        if stays(directives[n - 1], labels) {
            before.push(directives[n - 1])
        } else {
            before
        }
    }
}

fn remove_defer(directives: &Vec<Directive>, labels: &NameSet) -> (r: Vec<Directive>)
    ensures
        r.deep_view() == staying(
            directives.deep_view(),
            labels.deep_view(),
            directives.deep_view().len(),
        ),
{
    let ghost all = directives.deep_view();
    let mut r: Vec<Directive> = Vec::new();
    assert(r.deep_view() =~= Seq::empty());
    let mut i: usize = 0;
    while i < directives.len()
        invariant
            i <= directives@.len(),
            all == directives.deep_view(),
            r.deep_view() == staying(all, labels.deep_view(), i as nat),
        decreases directives@.len() - i,
    {
        let ghost before = r.deep_view();
        let directive = &directives[i];
        assert(all[i as int] == directive.deep_view());
        let goes = same(&directive.name, "defer") && match directive_arg_value(directive, "label") {
            Some(Value::String(label)) => labels.contains(label),
            _ => false,
        };
        if !goes {
            r.push(directive.clone());
            assert(r.deep_view() =~= before.push(all[i as int]));
        }
        i += 1;
    }
    r
}

/// A set without the `@defer` of the given labels.
pub open spec fn reduced_set(set: SelectionSetView, labels: Seq<Text>) -> Result<
    SelectionSetView,
    ErrorView,
>
    decreases set, 1nat, 0nat,
{
    match reduced_selections(set, labels, set.selections.len()) {
        Ok(selections) => Ok(SelectionSetView { selections, ..set }),
        Err(error) => Err(error),
    }
}

/// The first `n` selections of a set without the `@defer` of the given labels.
pub open spec fn reduced_selections(set: SelectionSetView, labels: Seq<Text>, n: nat) -> Result<
    Seq<SelectionView>,
    ErrorView,
>
    decreases set, 0nat, n,
{
    if n == 0 || n > set.selections.len() {
        Ok(Seq::empty())
    } else {
        match reduced_selections(set, labels, (n - 1) as nat) {
            Err(error) => Err(error),
            Ok(before) => match reduced_selection(set.selections[n - 1], labels) {
                Err(error) => Err(error),
                Ok(new) => with_selection(before, new),
            },
        }
    }
}

/// A selection without the `@defer` of the given labels.
pub open spec fn reduced_selection(selection: SelectionView, labels: Seq<Text>) -> Result<
    SelectionView,
    ErrorView,
>
    decreases selection, 2nat, 0nat,
{
    match selection {
        SelectionView::Field { field, sub } => match sub {
            None => Ok(selection),
            Some(set) => if !set_defers(set, set.selections.len()) {
                Ok(selection)
            } else {
                match reduced_set(set, labels) {
                    Err(error) => Err(error),
                    Ok(new) => Ok(SelectionView::Field { field, sub: Some(new) }),
                }
            },
        },
        SelectionView::InlineFragment { fragment, set } => match reduced_set(set, labels) {
            Err(error) => Err(error),
            Ok(new) => Ok(
                SelectionView::InlineFragment {
                    fragment: InlineFragmentView {
                        directives: staying(
                            fragment.directives,
                            labels,
                            fragment.directives.len(),
                        ),
                        ..fragment
                    },
                    set: new,
                },
            ),
        },
    }
}

proof fn lemma_reduced_error(set: SelectionSetView, labels: Seq<Text>, n: nat, m: nat)
    requires
        n <= m <= set.selections.len(),
        reduced_selections(set, labels, n) is Err,
    ensures
        reduced_selections(set, labels, m) == reduced_selections(set, labels, n),
    decreases m,
{
    if n < m {
        lemma_reduced_error(set, labels, n, (m - 1) as nat);
    }
}

impl SelectionSet {
    /// The set without the `@defer` of the given labels.
    pub fn reduce_defer(&self, defer_labels: &NameSet) -> (r: Result<SelectionSet, FederationError>)
        ensures
            result_view(r) == reduced_set(self.deep_view(), defer_labels.deep_view()),
        decreases self, 1int,
    {
        proof {
            lemma_set_view(*self);
        }
        let ghost all = self.deep_view();
        let ghost labels = defer_labels.deep_view();
        let mut selections: Vec<Selection> = Vec::new();
        assert(selections_view(selections@) =~= Seq::empty());
        let mut i: usize = 0;
        while i < self.selections.len()
            invariant
                i <= self.selections@.len(),
                all == self.deep_view(),
                all.selections == selections_view(self.selections@),
                labels == defer_labels.deep_view(),
                reduced_selections(all, labels, i as nat) == Ok::<Seq<SelectionView>, ErrorView>(
                    selections_view(selections@),
                ),
            decreases self.selections@.len() - i,
        {
            assert(decreases_to!(*self => self.selections));
            assert(decreases_to!(self.selections@ => self.selections@[i as int]));
            assert(all.selections[i as int] == self.selections@[i as int].deep_view());
            let new = match self.selections[i].reduce_defer(defer_labels) {
                Ok(new) => new,
                Err(error) => {
                    proof {
                        lemma_reduced_error(all, labels, i as nat + 1, all.selections.len());
                    }
                    return Err(error);
                },
            };
            match add_selection(&mut selections, &new) {
                Ok(_) => {},
                Err(error) => {
                    proof {
                        lemma_reduced_error(all, labels, i as nat + 1, all.selections.len());
                    }
                    return Err(error);
                },
            }
            i += 1;
        }
        let r = SelectionSet {
            schema: self.schema.clone(),
            type_position: self.type_position.clone(),
            selections,
        };
        proof {
            lemma_set_view(r);
        }
        Ok(r)
    }
}

impl Selection {
    /// The selection without the `@defer` of the given labels.
    pub fn reduce_defer(&self, defer_labels: &NameSet) -> (r: Result<Selection, FederationError>)
        ensures
            result_view(r) == reduced_selection(self.deep_view(), defer_labels.deep_view()),
        decreases self, 2int,
    {
        match self {
            Selection::Field(f) => match &f.selection_set {
                None => Ok(self.clone()),
                Some(set) => {
                    if !set.has_defer() {
                        return Ok(self.clone());
                    }
                    match set.reduce_defer(defer_labels) {
                        Ok(new) => Ok(
                            Selection::Field(
                                FieldSelection { field: f.field.clone(), selection_set: Some(new) },
                            ),
                        ),
                        Err(error) => Err(error),
                    }
                },
            },
            Selection::InlineFragment(f) => match f.selection_set.reduce_defer(defer_labels) {
                Ok(new) => {
                    let directives = remove_defer(&f.inline_fragment.directives, defer_labels);
                    Ok(
                        Selection::InlineFragment(
                            InlineFragmentSelection {
                                inline_fragment: f.inline_fragment.with_updated_directives(
                                    directives,
                                ),
                                selection_set: new,
                            },
                        ),
                    )
                },
                Err(error) => Err(error),
            },
        }
    }
}

} // verus!
