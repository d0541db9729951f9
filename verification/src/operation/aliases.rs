//! Aliases for fields that ask for different things under one name.

use crate::ast::type_view;
use crate::ast::Name;
use crate::ast::Type;
use crate::ast::TypeView;
use crate::operation::response_name;
use crate::operation::selection::insert_selection;
use crate::operation::selection::lemma_set_view;
use crate::operation::selection::put_selection;
use crate::operation::selection::selections_view;
use crate::operation::selection::sets_match;
use crate::operation::selection::FieldSelection;
use crate::operation::selection::InlineFragmentSelection;
use crate::operation::selection::Selection;
use crate::operation::selection::SelectionSet;
use crate::operation::selection::SelectionSetView;
use crate::operation::selection::SelectionView;
use crate::operation::FieldElementView;
use crate::operation::InlineFragmentView;
use crate::query_graph::elements::DataPathView;
use crate::query_graph::elements::FetchDataPathElement;
use crate::schema::position::composite_name;
use crate::schema::position::field_type;
use crate::text::same;
use crate::text::Text;
use vstd::prelude::*;

verus! {

/// A field that gets an alias: where it is, the name it is asked under, and its new name.
pub struct FieldToAlias {
    pub path: Vec<FetchDataPathElement>,
    pub response_name: Name,
    pub alias: Name,
}

/// The mathematical content of a [`FieldToAlias`].
#[verifier::ext_equal]
pub struct AliasView {
    pub path: Seq<DataPathView>,
    pub response_name: Text,
    pub alias: Text,
}

impl DeepView for FieldToAlias {
    type V = AliasView;

    open spec fn deep_view(&self) -> AliasView {
        AliasView {
            path: self.path.deep_view(),
            response_name: self.response_name@,
            alias: self.alias@,
        }
    }
}

/// A field of a set or of the fragments in it, and where its parent is.
pub struct CollectedFieldInSet {
    pub path: Vec<FetchDataPathElement>,
    pub field: FieldSelection,
}

/// The mathematical content of a [`CollectedFieldInSet`].
#[verifier::ext_equal]
pub struct CollectedView {
    pub path: Seq<DataPathView>,
    pub field: FieldElementView,
    pub sub: Option<SelectionSetView>,
}

impl DeepView for CollectedFieldInSet {
    type V = CollectedView;

    open spec fn deep_view(&self) -> CollectedView {
        CollectedView {
            path: self.path.deep_view(),
            field: self.field.field.deep_view(),
            sub: self.field.selection_set.deep_view(),
        }
    }
}

/// Selections and where they are.
pub struct SelectionSetAtPath {
    pub path: Vec<FetchDataPathElement>,
    pub selections: Option<SelectionSet>,
}

/// The mathematical content of a [`SelectionSetAtPath`].
#[verifier::ext_equal]
pub struct AtPathView {
    pub path: Seq<DataPathView>,
    pub set: Option<SelectionSetView>,
}

impl DeepView for SelectionSetAtPath {
    type V = AtPathView;

    open spec fn deep_view(&self) -> AtPathView {
        AtPathView { path: self.path.deep_view(), set: self.selections.deep_view() }
    }
}

/// What was first asked for under a name, and all the selections below it.
pub struct SeenResponseName {
    pub field_name: Name,
    pub field_type: Type,
    pub selections: Option<Vec<SelectionSetAtPath>>,
}

/// The mathematical content of a [`SeenResponseName`].
#[verifier::ext_equal]
pub struct SeenView {
    pub field_name: Text,
    pub field_type: TypeView,
    pub selections: Option<Seq<AtPathView>>,
}

impl DeepView for SeenResponseName {
    type V = SeenView;

    open spec fn deep_view(&self) -> SeenView {
        SeenView {
            field_name: self.field_name@,
            field_type: type_view(self.field_type),
            selections: self.selections.deep_view(),
        }
    }
}

pub(crate) fn clone_path(path: &Vec<FetchDataPathElement>) -> (r: Vec<FetchDataPathElement>)
    ensures
        r.deep_view() == path.deep_view(),
{
    let r = path.clone();
    assert(r.deep_view() =~= path.deep_view());
    r
}

pub(crate) fn path_with(path: &Vec<FetchDataPathElement>, name: &Name) -> (r: Vec<FetchDataPathElement>)
    ensures
        r.deep_view() == path.deep_view().push(DataPathView::Key(name@)),
{
    let mut r = clone_path(path);
    r.push(FetchDataPathElement::Key(name.clone()));
    assert(r.deep_view() =~= path.deep_view().push(DataPathView::Key(name@)));
    r
}

pub(crate) fn clone_set(set: &Option<SelectionSet>) -> (r: Option<SelectionSet>)
    ensures
        r.deep_view() == set.deep_view(),
{
    match set {
        Some(set) => Some(set.clone()),
        None => None,
    }
}

// The fields of a set.

/// The step into the objects that a fragment is about.
pub open spec fn fragment_step(fragment: InlineFragmentView) -> Seq<DataPathView> {
    match fragment.type_condition_position {
        Some(position) => seq![DataPathView::TypenameEquals(composite_name(position))],
        None => Seq::empty(),
    }
}

/// Fields below a path.
pub open spec fn below(path: Seq<DataPathView>, fields: Seq<CollectedView>) -> Seq<CollectedView> {
    fields.map_values(|f: CollectedView| CollectedView { path: path + f.path, ..f })
}

/// The fields of the first `n` selections of a set, and of the fragments among them.
pub open spec fn fields_in_set(set: SelectionSetView, n: nat) -> Seq<CollectedView>
    decreases set, n,
{
    if n == 0 || n > set.selections.len() {
        Seq::empty()
    } else {
        fields_in_set(set, (n - 1) as nat) + fields_in_selection(set.selections[n - 1])
    }
}

/// The field of a selection, or the fields of the fragment that it is.
pub open spec fn fields_in_selection(selection: SelectionView) -> Seq<CollectedView>
    decreases selection, 0nat,
{
    match selection {
        SelectionView::Field { field, sub } => seq![
            CollectedView { path: Seq::empty(), field, sub },
        ],
        SelectionView::InlineFragment { fragment, set } => below(
            fragment_step(fragment),
            fields_in_set(set, set.selections.len()),
        ),
    }
}

pub(crate) fn put_below(path: &Vec<FetchDataPathElement>, fields: Vec<CollectedFieldInSet>) -> (r: Vec<
    CollectedFieldInSet,
>)
    ensures
        r.deep_view() == below(path.deep_view(), fields.deep_view()),
{
    let mut r: Vec<CollectedFieldInSet> = Vec::new();
    let mut i: usize = 0;
    while i < fields.len()
        invariant
            i <= fields@.len(),
            r@.len() == i,
            forall|j: int|
                0 <= j < i ==> (#[trigger] r@[j]).deep_view() == (CollectedView {
                    path: path.deep_view() + fields@[j].deep_view().path,
                    ..fields@[j].deep_view()
                }),
        decreases fields@.len() - i,
    {
        let mut new_path = clone_path(path);
        let mut rest = clone_path(&fields[i].path);
        let ghost tail = rest.deep_view();
        new_path.append(&mut rest);
        assert(new_path.deep_view() =~= path.deep_view() + tail);
        r.push(
            CollectedFieldInSet {
                path: new_path,
                field: FieldSelection {
                    field: fields[i].field.field.clone(),
                    selection_set: clone_set(&fields[i].field.selection_set),
                },
            },
        );
        i += 1;
    }
    assert(r.deep_view() =~= below(path.deep_view(), fields.deep_view()));
    r
}

impl SelectionSet {
    /// The fields of the set and of the fragments in it, and where their parents are.
    pub fn fields_in_set(&self) -> (r: Vec<CollectedFieldInSet>)
        ensures
            r.deep_view() == fields_in_set(self.deep_view(), self.deep_view().selections.len()),
        decreases self,
    {
        proof {
            lemma_set_view(*self);
        }
        let ghost all = self.deep_view();
        let mut fields: Vec<CollectedFieldInSet> = Vec::new();
        assert(fields.deep_view() =~= Seq::empty());
        let mut i: usize = 0;
        while i < self.selections.len()
            invariant
                i <= self.selections@.len(),
                all == self.deep_view(),
                all.selections == selections_view(self.selections@),
                fields.deep_view() == fields_in_set(all, i as nat),
            decreases self.selections@.len() - i,
        {
            assert(decreases_to!(*self => self.selections));
            assert(decreases_to!(self.selections@ => self.selections@[i as int]));
            assert(all.selections[i as int] == self.selections@[i as int].deep_view());
            let ghost before = fields.deep_view();
            match &self.selections[i] {
                Selection::Field(field) => {
                    let new = CollectedFieldInSet {
                        path: Vec::new(),
                        field: FieldSelection {
                            field: field.field.clone(),
                            selection_set: clone_set(&field.selection_set),
                        },
                    };
                    assert(new.path.deep_view() =~= Seq::empty());
                    let ghost added = new.deep_view();
                    fields.push(new);
                    assert(fields.deep_view() =~= before + seq![added]);
                },
                Selection::InlineFragment(fragment) => {
                    let mut header: Vec<FetchDataPathElement> = Vec::new();
                    if let Some(condition) = &fragment.inline_fragment.type_condition_position {
                        header.push(
                            FetchDataPathElement::TypenameEquals(condition.name().clone()),
                        );
                    }
                    assert(header.deep_view() =~= fragment_step(
                        fragment.inline_fragment.deep_view(),
                    ));
                    let mut found = put_below(&header, fragment.selection_set.fields_in_set());
                    let ghost added = found.deep_view();
                    fields.append(&mut found);
                    assert(fields.deep_view() =~= before + added);
                },
            }
            assert(fields.deep_view() == before + fields_in_selection(all.selections[i as int]));
            i += 1;
        }
        fields
    }
}

// Renaming.

/// The last alias for a name at the current level, among the first `n`.
pub open spec fn alias_at(aliases: Seq<AliasView>, name: Text, n: nat) -> Option<Text>
    decreases n,
{
    if n == 0 {
        None
    } else if aliases[n - 1].path.len() == 0 && aliases[n - 1].response_name == name {
        Some(aliases[n - 1].alias)
    } else {
        alias_at(aliases, name, (n - 1) as nat)
    }
}

/// The aliases among the first `n` that are below a step.
pub open spec fn aliases_below(aliases: Seq<AliasView>, step: Option<DataPathView>, n: nat) -> Seq<
    AliasView,
>
    decreases n,
{
    if n == 0 {
        Seq::empty()
    } else {
        let before = aliases_below(aliases, step, (n - 1) as nat);
        let last = aliases[n - 1];
        if last.path.len() > 0 && step == Some(last.path[0]) {
            before.push(AliasView { path: last.path.drop_first(), ..last })
        } else {
            before
        }
    }
}

/// A set with its fields renamed.
pub open spec fn aliased(set: SelectionSetView, aliases: Seq<AliasView>) -> SelectionSetView
    decreases set, 1nat, 0nat,
{
    if aliases.len() == 0 {
        set
    } else {
        SelectionSetView {
            selections: aliased_selections(set, aliases, set.selections.len()),
            ..set
        }
    }
}

/// The first `n` selections of a set with its fields renamed.
pub open spec fn aliased_selections(set: SelectionSetView, aliases: Seq<AliasView>, n: nat) -> Seq<
    SelectionView,
>
    decreases set, 0nat, n,
{
    if n == 0 || n > set.selections.len() {
        Seq::empty()
    } else {
        put_selection(
            aliased_selections(set, aliases, (n - 1) as nat),
            aliased_selection(set.selections[n - 1], aliases),
        )
    }
}

/// Whether renaming below changed nothing.
pub open spec fn unchanged(a: Option<SelectionSetView>, b: Option<SelectionSetView>) -> bool {
    match (a, b) {
        (Some(x), Some(y)) => sets_match(x, y),
        (None, None) => true,
        _ => false,
    }
}

/// A field under an alias, if there is one for it.
pub open spec fn renamed(field: FieldElementView, alias: Option<Text>) -> FieldElementView {
    match alias {
        Some(name) => FieldElementView { alias: Some(name), ..field },
        None => field,
    }
}

/// A selection with its fields renamed.
pub open spec fn aliased_selection(selection: SelectionView, aliases: Seq<AliasView>) -> SelectionView
    decreases selection, 2nat, 0nat,
{
    match selection {
        SelectionView::Field { field, sub } => {
            let name = response_name(field);
            let inner = aliases_below(aliases, Some(DataPathView::Key(name)), aliases.len());
            let updated = match sub {
                Some(set) => Some(aliased(set, inner)),
                None => None,
            };
            let alias = alias_at(aliases, name, aliases.len());
            if alias is None && unchanged(sub, updated) {
                selection
            } else {
                SelectionView::Field { field: renamed(field, alias), sub: updated }
            }
        },
        SelectionView::InlineFragment { fragment, set } => {
            let step = match fragment.type_condition_position {
                Some(position) => Some(DataPathView::TypenameEquals(composite_name(position))),
                None => None,
            };
            let updated = aliased(set, aliases_below(aliases, step, aliases.len()));
            if sets_match(set, updated) {
                selection
            } else {
                SelectionView::InlineFragment { fragment, set: updated }
            }
        },
    }
}

fn find_alias(aliases: &Vec<FieldToAlias>, name: &str) -> (r: Option<Name>)
    ensures
        r.deep_view() == alias_at(aliases.deep_view(), name@, aliases.deep_view().len()),
{
    let ghost all = aliases.deep_view();
    let mut n: usize = aliases.len();
    while n > 0
        invariant
            n <= aliases@.len(),
            all == aliases.deep_view(),
            alias_at(all, name@, all.len()) == alias_at(all, name@, n as nat),
        decreases n,
    {
        let alias = &aliases[n - 1];
        assert(all[n - 1] == alias.deep_view());
        if alias.path.len() == 0 && same(&alias.response_name, name) {
            return Some(alias.alias.clone());
        }
        n = n - 1;
    }
    None
}

fn same_step(a: &FetchDataPathElement, b: &FetchDataPathElement) -> (r: bool)
    ensures
        r == (a.deep_view() == b.deep_view()),
{
    match (a, b) {
        (FetchDataPathElement::Key(x), FetchDataPathElement::Key(y)) => same(x, y),
        (FetchDataPathElement::TypenameEquals(x), FetchDataPathElement::TypenameEquals(y)) => {
            same(x, y)
        },
        _ => false,
    }
}

fn find_aliases_below(aliases: &Vec<FieldToAlias>, step: &Option<FetchDataPathElement>) -> (r: Vec<
    FieldToAlias,
>)
    ensures
        r.deep_view() == aliases_below(
            aliases.deep_view(),
            step.deep_view(),
            aliases.deep_view().len(),
        ),
{
    let ghost all = aliases.deep_view();
    let mut r: Vec<FieldToAlias> = Vec::new();
    assert(r.deep_view() =~= Seq::empty());
    let mut i: usize = 0;
    while i < aliases.len()
        invariant
            i <= aliases@.len(),
            all == aliases.deep_view(),
            r.deep_view() == aliases_below(all, step.deep_view(), i as nat),
        decreases aliases@.len() - i,
    {
        let alias = &aliases[i];
        assert(all[i as int] == alias.deep_view());
        let ghost before = r.deep_view();
        let matches = match step {
            Some(wanted) => if alias.path.len() > 0 {
                assert(alias.deep_view().path[0] == alias.path@[0].deep_view());
                same_step(wanted, &alias.path[0])
            } else {
                false
            },
            None => false,
        };
        if matches {
            let mut path = clone_path(&alias.path);
            let ghost whole = path.deep_view();
            assert(path@.len() == whole.len() && whole.len() == alias.path.deep_view().len());
            path.remove(0);
            assert(path.deep_view() =~= whole.drop_first());
            let new = FieldToAlias {
                path,
                response_name: alias.response_name.clone(),
                alias: alias.alias.clone(),
            };
            let ghost added = new.deep_view();
            r.push(new);
            assert(r.deep_view() =~= before.push(added));
        }
        i += 1;
    }
    r
}

fn same_sets(a: &Option<SelectionSet>, b: &Option<SelectionSet>) -> (r: bool)
    ensures
        r == unchanged(a.deep_view(), b.deep_view()),
{
    match (a, b) {
        (Some(x), Some(y)) => x.same_as(y),
        (None, None) => true,
        _ => false,
    }
}

impl SelectionSet {
    /// The set with its fields renamed.
    pub fn with_field_aliased(&self, aliases: &Vec<FieldToAlias>) -> (r: SelectionSet)
        ensures
            r.deep_view() == aliased(self.deep_view(), aliases.deep_view()),
        decreases self,
    {
        if aliases.len() == 0 {
            return self.clone();
        }
        proof {
            lemma_set_view(*self);
        }
        let ghost all = self.deep_view();
        let mut selections: Vec<Selection> = Vec::new();
        assert(selections_view(selections@) =~= Seq::empty());
        let mut i: usize = 0;
        while i < self.selections.len()
            invariant
                i <= self.selections@.len(),
                all == self.deep_view(),
                all.selections == selections_view(self.selections@),
                selections_view(selections@) == aliased_selections(
                    all,
                    aliases.deep_view(),
                    i as nat,
                ),
            decreases self.selections@.len() - i,
        {
            assert(decreases_to!(*self => self.selections));
            assert(decreases_to!(self.selections@ => self.selections@[i as int]));
            assert(all.selections[i as int] == self.selections@[i as int].deep_view());
            let new = match &self.selections[i] {
                Selection::Field(field) => {
                    let name = field.field.response_name();
                    let inner = find_aliases_below(
                        aliases,
                        &Some(FetchDataPathElement::Key(name.clone())),
                    );
                    let updated = match &field.selection_set {
                        Some(set) => Some(set.with_field_aliased(&inner)),
                        None => None,
                    };
                    let alias = find_alias(aliases, name);
                    if alias.is_none() && same_sets(&field.selection_set, &updated) {
                        self.selections[i].clone()
                    } else {
                        let renamed = match alias {
                            Some(alias) => field.field.with_updated_alias(alias),
                            None => field.field.clone(),
                        };
                        Selection::Field(FieldSelection { field: renamed, selection_set: updated })
                    }
                },
                Selection::InlineFragment(fragment) => {
                    let step = match &fragment.inline_fragment.type_condition_position {
                        Some(condition) => Some(
                            FetchDataPathElement::TypenameEquals(condition.name().clone()),
                        ),
                        None => None,
                    };
                    let inner = find_aliases_below(aliases, &step);
                    let updated = fragment.selection_set.with_field_aliased(&inner);
                    if fragment.selection_set.same_as(&updated) {
                        self.selections[i].clone()
                    } else {
                        Selection::InlineFragment(
                            InlineFragmentSelection {
                                inline_fragment: fragment.inline_fragment.clone(),
                                selection_set: updated,
                            },
                        )
                    }
                },
            };
            assert(new.deep_view() == aliased_selection(
                all.selections[i as int],
                aliases.deep_view(),
            ));
            insert_selection(&mut selections, new);
            i += 1;
        }
        let r = SelectionSet {
            schema: self.schema.clone(),
            type_position: self.type_position.clone(),
            selections,
        };
        proof {
            lemma_set_view(r);
        }
        r
    }
}

} // verus!
