//! Finding the fields that ask for different things under one name.

use crate::ast::inner_name;
use crate::ast::is_valid_name;
use crate::ast::name_continue;
use crate::ast::type_view;
use crate::ast::valid_name;
use crate::ast::Name;
use crate::ast::Type;
use crate::ast::TypeView;
use crate::collections::has_key;
use crate::collections::lemma_key_index;
use crate::collections::put;
use crate::collections::value_of;
use crate::collections::Entries;
use crate::collections::NameMap;
use crate::error::internal_error;
use crate::error::result_view;
use crate::error::ErrorView;
use crate::error::FederationError;
use crate::operation::aliases::aliased;
use crate::operation::aliases::below;
use crate::operation::aliases::clone_path;
use crate::operation::aliases::clone_set;
use crate::operation::aliases::fields_in_selection;
use crate::operation::aliases::fields_in_set;
use crate::operation::aliases::fragment_step;
use crate::operation::aliases::path_with;
use crate::operation::aliases::put_below;
use crate::operation::aliases::AliasView;
use crate::operation::aliases::AtPathView;
use crate::operation::aliases::CollectedFieldInSet;
use crate::operation::aliases::CollectedView;
use crate::operation::aliases::FieldToAlias;
use crate::operation::aliases::SeenResponseName;
use crate::operation::aliases::SeenView;
use crate::operation::aliases::SelectionSetAtPath;
use crate::operation::response_name;
use crate::operation::selection::lemma_set_view;
use crate::operation::selection::selections_view;
use crate::operation::selection::Selection;
use crate::operation::selection::SelectionSet;
use crate::operation::selection::SelectionSetView;
use crate::operation::selection::SelectionView;
use crate::query_graph::elements::DataPathView;
use crate::query_graph::elements::FetchDataPathElement;
use crate::schema::argument_composition_strategies::digits_of;
use crate::schema::argument_composition_strategies::int_text;
use crate::schema::argument_composition_strategies::is_digit;
use crate::schema::argument_composition_strategies::law_numbers_are_read_back;
use crate::schema::position::as_composite;
use crate::schema::position::field_type;
use crate::schema::position::get_type;
use crate::schema::Schema;
use crate::schema::SchemaView;
use crate::text::decimal;
use crate::text::decimal_string;
use crate::text::joined3;
use crate::text::same;
use crate::text::Text;
use vstd::prelude::*;

verus! {

/// Whether the type of the given name has fields or members.
pub open spec fn is_composite_name(schema: SchemaView, name: Text) -> Result<bool, ErrorView> {
    match get_type(schema, name) {
        Ok(position) => Ok(as_composite(position) is Some),
        Err(error) => Err(error),
    }
}

/// Whether values of two types can stand under one name: the wrappers are the same, and the types
/// inside are the same or both composite.
pub open spec fn can_be_merged(a: TypeView, b: TypeView, schema: SchemaView) -> Result<bool, ErrorView>
    decreases a,
{
    match (a, b) {
        (TypeView::Named(x), TypeView::Named(y)) => names_can_be_merged(x, y, schema),
        (TypeView::NonNullNamed(x), TypeView::NonNullNamed(y)) => names_can_be_merged(x, y, schema),
        (TypeView::List(x), TypeView::List(y)) => can_be_merged(*x, *y, schema),
        (TypeView::NonNullList(x), TypeView::NonNullList(y)) => can_be_merged(*x, *y, schema),
        _ => Ok(false),
    }
}

/// Whether two types without wrappers are the same or both composite.
pub open spec fn names_can_be_merged(a: Text, b: Text, schema: SchemaView) -> Result<bool, ErrorView> {
    if a == b {
        Ok(true)
    } else {
        match is_composite_name(schema, a) {
            Err(error) => Err(error),
            Ok(false) => Ok(false),
            Ok(true) => is_composite_name(schema, b),
        }
    }
}

fn has_composite_name(schema: &Schema, name: &str) -> (r: Result<bool, FederationError>)
    ensures
        result_view(r) == is_composite_name(schema.deep_view(), name@),
{
    match schema.get_type(name) {
        Ok(position) => Ok(position.to_composite().is_some()),
        Err(error) => Err(error),
    }
}

fn same_or_composite(a: &str, b: &str, schema: &Schema) -> (r: Result<bool, FederationError>)
    ensures
        result_view(r) == names_can_be_merged(a@, b@, schema.deep_view()),
{
    if same(a, b) {
        return Ok(true);
    }
    match has_composite_name(schema, a) {
        Err(error) => Err(error),
        Ok(false) => Ok(false),
        Ok(true) => has_composite_name(schema, b),
    }
}

/// Whether values of two types can stand under one name.
pub fn types_can_be_merged(a: &Type, b: &Type, schema: &Schema) -> (r: Result<bool, FederationError>)
    ensures
        result_view(r) == can_be_merged(type_view(*a), type_view(*b), schema.deep_view()),
    decreases a,
{
    match (a, b) {
        (Type::Named(x), Type::Named(y)) => same_or_composite(x, y, schema),
        (Type::NonNullNamed(x), Type::NonNullNamed(y)) => same_or_composite(x, y, schema),
        (Type::List(x), Type::List(y)) => types_can_be_merged(x, y, schema),
        (Type::NonNullList(x), Type::NonNullList(y)) => types_can_be_merged(x, y, schema),
        _ => Ok(false),
    }
}

/// The kind of a reference with the name in it, as it is written for debugging.
pub open spec fn type_variant_text(ty: TypeView) -> Text
    decreases ty,
{
    match ty {
        TypeView::Named(name) => "Named(\""@ + name + "\")"@,
        TypeView::NonNullNamed(name) => "NonNullNamed(\""@ + name + "\")"@,
        TypeView::List(inner) => "List("@ + type_variant_text(*inner) + ")"@,
        TypeView::NonNullList(inner) => "NonNullList("@ + type_variant_text(*inner) + ")"@,
    }
}

fn type_variant(ty: &Type) -> (r: String)
    ensures
        r@ == type_variant_text(type_view(*ty)),
    decreases ty,
{
    match ty {
        Type::Named(name) => joined3("Named(\"", name, "\")"),
        Type::NonNullNamed(name) => joined3("NonNullNamed(\"", name, "\")"),
        Type::List(inner) => joined3("List(", &type_variant(inner), ")"),
        Type::NonNullList(inner) => joined3("NonNullList(", &type_variant(inner), ")"),
    }
}

/// The alias with the given number for a name.
pub open spec fn alias_name(base: Text, k: nat) -> Text {
    base + "__alias_"@ + decimal(k)
}

/// The first alias from the given number on that is a name and not in use.
pub open spec fn free_alias(base: Text, seen: Entries<SeenView>, k: nat) -> Text
    decreases usize::MAX - k,
{
    let name = alias_name(base, k);
    if k >= usize::MAX || (valid_name(name) && !has_key(seen, name)) {
        name
    } else {
        free_alias(base, seen, k + 1)
    }
}

proof fn lemma_alias_is_valid(base: Text, k: nat)
    requires
        valid_name(base),
    ensures
        valid_name(alias_name(base, k)),
{
    reveal_strlit("__alias_");
    law_numbers_are_read_back(k as int);
    let number = decimal(k);
    assert(int_text(k as int) == number);
    assert(digits_of(number) =~= number);
    let name = alias_name(base, k);
    assert forall|i: int| 0 <= i < name.len() implies name_continue(#[trigger] name[i]) by {
        if i < base.len() {
            assert(name[i] == base[i]);
        } else if i >= base.len() + 8 {
            assert(is_digit(number[i - base.len() - 8]));
        }
    }
    assert(name[0] == base[0]);
}

proof fn lemma_aliases_differ(base: Text, j: nat, k: nat)
    requires
        alias_name(base, j) == alias_name(base, k),
    ensures
        j == k,
{
    law_numbers_are_read_back(j as int);
    law_numbers_are_read_back(k as int);
    let start = base + "__alias_"@;
    assert(alias_name(base, j).skip(start.len() as int) =~= decimal(j));
    assert(alias_name(base, k).skip(start.len() as int) =~= decimal(k));
}

/// Aliases that are all in use are no more than the names in use.
proof fn lemma_used_aliases(base: Text, seen: Entries<SeenView>, k: nat)
    requires
        forall|j: nat| j < k ==> has_key(seen, #[trigger] alias_name(base, j)),
    ensures
        k <= seen.len(),
{
    let keys = Seq::new(seen.len(), |i: int| seen[i].0);
    let names = Seq::new(k, |i: int| alias_name(base, i as nat));
    assert(names.no_duplicates()) by {
        assert forall|i: int, j: int|
            0 <= i < k && 0 <= j < k && i != j implies names[i] != names[j] by {
            if names[i] == names[j] {
                lemma_aliases_differ(base, i as nat, j as nat);
            }
        }
    }
    names.unique_seq_to_set();
    keys.lemma_cardinality_of_set();
    vstd::seq_lib::seq_to_set_is_finite(keys);
    assert(names.to_set().subset_of(keys.to_set())) by {
        assert forall|name: Text| names.to_set().contains(name) implies keys.to_set().contains(
            name,
        ) by {
            let i = choose|i: int| 0 <= i < names.len() && names[i] == name;
            assert(has_key(seen, alias_name(base, i as nat)));
            let w = choose|w: int| 0 <= w < seen.len() && (#[trigger] seen[w]).0 == name;
            assert(keys[w] == name);
        }
    }
    vstd::set_lib::lemma_len_subset(names.to_set(), keys.to_set());
}

/// An alias for a name: itself a name, and not in use.
pub fn gen_alias_name(base_name: &str, unavailable_names: &NameMap<SeenResponseName>) -> (r: Name)
    requires
        valid_name(base_name@),
    ensures
        r@ == free_alias(base_name@, unavailable_names.deep_view(), 0),
        valid_name(r@),
        !has_key(unavailable_names.deep_view(), r@),
{
    let in_use: usize = unavailable_names.len();
    let mut counter: usize = 0;
    loop
        invariant
            free_alias(base_name@, unavailable_names.deep_view(), 0) == free_alias(
                base_name@,
                unavailable_names.deep_view(),
                counter as nat,
            ),
            valid_name(base_name@),
            in_use == unavailable_names.deep_view().len(),
            forall|j: nat|
                j < counter ==> has_key(
                    unavailable_names.deep_view(),
                    #[trigger] alias_name(base_name@, j),
                ),
        decreases usize::MAX - counter,
    {
        proof {
            lemma_alias_is_valid(base_name@, counter as nat);
            if has_key(unavailable_names.deep_view(), alias_name(base_name@, counter as nat)) {
                lemma_used_aliases(base_name@, unavailable_names.deep_view(), counter as nat + 1);
            }
        }
        let name = joined3(base_name, "__alias_", &decimal_string(counter as u128));
        if counter == usize::MAX || (is_valid_name(&name) && !unavailable_names.contains_key(&name)) {
            return name;
        }
        counter += 1;
    }
}

/// The names that were seen, and the fields that get an alias.
#[verifier::ext_equal]
pub struct Found {
    pub seen: Entries<SeenView>,
    pub aliases: Seq<AliasView>,
}

/// What is remembered of a field under the given name.
pub open spec fn remembered(field: CollectedView, ty: TypeView, name: Text) -> SeenView {
    SeenView {
        field_name: field.field.field_position.field_name,
        field_type: ty,
        selections: match field.sub {
            Some(set) => Some(
                seq![AtPathView { path: field.path.push(DataPathView::Key(name)), set: Some(set) }],
            ),
            None => None,
        },
    }
}

/// A field under a name that stands for something else already.
pub open spec fn with_alias(found: Found, field: CollectedView, ty: TypeView) -> Found {
    let name = response_name(field.field);
    let alias = free_alias(name, found.seen, 0);
    Found {
        seen: put(found.seen, alias, remembered(field, ty, alias)),
        aliases: found.aliases.push(AliasView { path: field.path, response_name: name, alias }),
    }
}

/// A field under a name that stands for the same already: its selections are looked at together
/// with the others.
pub open spec fn with_same(
    found: Found,
    field: CollectedView,
    ty: TypeView,
    previous: SeenView,
    schema: SchemaView,
) -> Result<Found, ErrorView> {
    match is_composite_name(schema, inner_name(ty)) {
        Err(error) => Err(error),
        Ok(false) => Ok(found),
        Ok(true) => match previous.selections {
            None => Err(
                internal_error(
                    "Should have added selections for `'"@ + type_variant_text(previous.field_type)
                        + "'"@,
                ),
            ),
            Some(selections) => {
                let name = response_name(field.field);
                let more = selections.push(
                    AtPathView { path: field.path.push(DataPathView::Key(name)), set: field.sub },
                );
                Ok(
                    Found {
                        seen: put(
                            found.seen,
                            name,
                            SeenView { selections: Some(more), ..previous },
                        ),
                        ..found
                    },
                )
            },
        },
    }
}

/// What is known after one more field.
pub open spec fn found_with(found: Found, field: CollectedView, schema: SchemaView) -> Result<
    Found,
    ErrorView,
> {
    let name = response_name(field.field);
    match field_type(field.field.schema, field.field.field_position) {
        Err(error) => Err(error),
        Ok(ty) => match value_of(found.seen, name) {
            None => Ok(
                Found { seen: put(found.seen, name, remembered(field, ty, name)), ..found },
            ),
            Some(previous) => if previous.field_name != field.field.field_position.field_name {
                Ok(with_alias(found, field, ty))
            } else {
                match can_be_merged(previous.field_type, ty, schema) {
                    Err(error) => Err(error),
                    Ok(false) => Ok(with_alias(found, field, ty)),
                    Ok(true) => with_same(found, field, ty, previous, schema),
                }
            },
        },
    }
}

/// What is known after the first `n` fields.
pub open spec fn found_in(
    fields: Seq<CollectedView>,
    aliases: Seq<AliasView>,
    schema: SchemaView,
    n: nat,
) -> Result<Found, ErrorView>
    decreases n,
{
    if n == 0 {
        Ok(Found { seen: Seq::empty(), aliases })
    } else {
        match found_in(fields, aliases, schema, (n - 1) as nat) {
            Err(error) => Err(error),
            Ok(found) => found_with(found, fields[n - 1], schema),
        }
    }
}

/// The fields of selections at a path.
pub open spec fn fields_at(at: AtPathView) -> Seq<CollectedView> {
    match at.set {
        Some(set) => below(at.path, fields_in_set(set, set.selections.len())),
        None => Seq::empty(),
    }
}

/// The fields of the first `n` of some selections.
pub open spec fn all_fields(selections: Seq<AtPathView>, n: nat) -> Seq<CollectedView>
    decreases n,
{
    if n == 0 {
        Seq::empty()
    } else {
        all_fields(selections, (n - 1) as nat) + fields_at(selections[n - 1])
    }
}

/// The fields that get an alias, at any depth up to the given one.
pub open spec fn conflicts(
    selections: Seq<AtPathView>,
    aliases: Seq<AliasView>,
    schema: SchemaView,
    depth: nat,
) -> Result<Seq<AliasView>, ErrorView>
    decreases depth, 1nat, 0nat,
{
    if depth == 0 {
        Ok(aliases)
    } else {
        let fields = all_fields(selections, selections.len());
        match found_in(fields, aliases, schema, fields.len()) {
            Err(error) => Err(error),
            Ok(found) => conflicts_below(
                found.seen,
                found.aliases,
                schema,
                depth,
                found.seen.len(),
            ),
        }
    }
}

/// The fields that get an alias below the first `n` names.
pub open spec fn conflicts_below(
    seen: Entries<SeenView>,
    aliases: Seq<AliasView>,
    schema: SchemaView,
    depth: nat,
    n: nat,
) -> Result<Seq<AliasView>, ErrorView>
    decreases depth, 0nat, n,
{
    if n == 0 || depth == 0 {
        Ok(aliases)
    } else {
        match conflicts_below(seen, aliases, schema, depth, (n - 1) as nat) {
            Err(error) => Err(error),
            Ok(before) => match seen[n - 1].1.selections {
                None => Ok(before),
                Some(selections) => conflicts(selections, before, schema, (depth - 1) as nat),
            },
        }
    }
}

// How deep selections go.

/// How deep a set goes.
pub open spec fn set_depth(set: SelectionSetView) -> nat
    decreases set, 1nat, 0nat,
{
    1 + selections_depth(set, set.selections.len())
}

/// How deep the first `n` selections of a set go.
pub open spec fn selections_depth(set: SelectionSetView, n: nat) -> nat
    decreases set, 0nat, n,
{
    if n == 0 || n > set.selections.len() {
        0
    } else {
        let before = selections_depth(set, (n - 1) as nat);
        let last = selection_depth(set.selections[n - 1]);
        if before < last {
            last
        } else {
            before
        }
    }
}

/// How deep a selection goes below itself.
pub open spec fn selection_depth(selection: SelectionView) -> nat
    decreases selection, 2nat, 0nat,
{
    match selection {
        SelectionView::Field { field, sub } => match sub {
            Some(set) => set_depth(set),
            None => 0,
        },
        SelectionView::InlineFragment { fragment, set } => set_depth(set),
    }
}

/// Whether the fields of a set stand under names, at any depth.
pub open spec fn names_are_valid(set: SelectionSetView) -> bool
    decreases set, 1nat, 0nat,
{
    first_names_are_valid(set, set.selections.len())
}

/// Whether the fields of the first `n` selections of a set stand under names, at any depth.
pub open spec fn first_names_are_valid(set: SelectionSetView, n: nat) -> bool
    decreases set, 0nat, n,
{
    n == 0 || n > set.selections.len() || (first_names_are_valid(set, (n - 1) as nat)
        && has_valid_names(set.selections[n - 1]))
}

/// Whether the fields of a selection stand under names, at any depth.
pub open spec fn has_valid_names(selection: SelectionView) -> bool
    decreases selection, 2nat, 0nat,
{
    match selection {
        SelectionView::Field { field, sub } => valid_name(response_name(field)) && match sub {
            Some(set) => names_are_valid(set),
            None => true,
        },
        SelectionView::InlineFragment { fragment, set } => names_are_valid(set),
    }
}

/// Whether selections go no deeper than the given depth, and their fields stand under names.
pub open spec fn within(sub: Option<SelectionSetView>, depth: nat) -> bool {
    sub matches Some(set) ==> set_depth(set) <= depth && names_are_valid(set)
}

/// Whether a field stands under a name, and goes no deeper than the given depth.
pub open spec fn field_within(field: CollectedView, depth: nat) -> bool {
    valid_name(response_name(field.field)) && within(field.sub, depth)
}

/// Whether all selections go no deeper than the given depth.
pub open spec fn all_within(selections: Seq<AtPathView>, depth: nat) -> bool {
    forall|i: int| 0 <= i < selections.len() ==> within((#[trigger] selections[i]).set, depth)
}

/// Whether all fields go no deeper than the given depth.
pub open spec fn fields_within(fields: Seq<CollectedView>, depth: nat) -> bool {
    forall|i: int| 0 <= i < fields.len() ==> field_within(#[trigger] fields[i], depth)
}

/// Whether what was seen goes no deeper than the given depth.
pub open spec fn seen_within(seen: Entries<SeenView>, depth: nat) -> bool {
    forall|i: int|
        0 <= i < seen.len() ==> ((#[trigger] seen[i]).1.selections matches Some(selections)
            ==> all_within(selections, depth))
}

proof fn lemma_fields_of_set(set: SelectionSetView, n: nat, depth: nat)
    requires
        n <= set.selections.len(),
        selections_depth(set, n) <= depth,
        first_names_are_valid(set, n),
    ensures
        fields_within(fields_in_set(set, n), depth),
    decreases set, n,
{
    if n > 0 {
        lemma_fields_of_set(set, (n - 1) as nat, depth);
        lemma_fields_of_selection(set.selections[n - 1], depth);
        let a = fields_in_set(set, (n - 1) as nat);
        let b = fields_in_selection(set.selections[n - 1]);
        assert forall|i: int| 0 <= i < (a + b).len() implies field_within(
            #[trigger] (a + b)[i],
            depth,
        ) by {
            if i >= a.len() {
                assert((a + b)[i] == b[i - a.len()]);
            }
        }
    }
}

proof fn lemma_fields_of_selection(selection: SelectionView, depth: nat)
    requires
        selection_depth(selection) <= depth,
        has_valid_names(selection),
    ensures
        fields_within(fields_in_selection(selection), depth),
    decreases selection, 0nat,
{
    match selection {
        SelectionView::Field { field, sub } => {},
        SelectionView::InlineFragment { fragment, set } => {
            lemma_fields_of_set(set, set.selections.len(), depth);
            let inner = fields_in_set(set, set.selections.len());
            let all = below(fragment_step(fragment), inner);
            assert forall|i: int| 0 <= i < all.len() implies field_within(
                #[trigger] all[i],
                depth,
            ) by {
                assert(field_within(inner[i], depth));
            }
        },
    }
}

proof fn lemma_all_fields(selections: Seq<AtPathView>, n: nat, depth: nat)
    requires
        n <= selections.len(),
        all_within(selections, depth + 1),
    ensures
        fields_within(all_fields(selections, n), depth),
    decreases n,
{
    if n > 0 {
        lemma_all_fields(selections, (n - 1) as nat, depth);
        let a = all_fields(selections, (n - 1) as nat);
        let at = selections[n - 1];
        let b = fields_at(at);
        assert(within(at.set, depth + 1));
        if let Some(set) = at.set {
            lemma_fields_of_set(set, set.selections.len(), depth);
            let inner = fields_in_set(set, set.selections.len());
            assert forall|i: int| 0 <= i < b.len() implies field_within(
                #[trigger] b[i],
                depth,
            ) by {
                assert(field_within(inner[i], depth));
            }
        }
        assert forall|i: int| 0 <= i < (a + b).len() implies field_within(
            #[trigger] (a + b)[i],
            depth,
        ) by {
            if i >= a.len() {
                assert((a + b)[i] == b[i - a.len()]);
            }
        }
    }
}

proof fn lemma_put_within(seen: Entries<SeenView>, name: Text, new: SeenView, depth: nat)
    requires
        seen_within(seen, depth),
        new.selections matches Some(selections) ==> all_within(selections, depth),
    ensures
        seen_within(put(seen, name, new), depth),
{
    if has_key(seen, name) {
        lemma_key_index(seen, name);
    }
    let after = put(seen, name, new);
    assert forall|i: int| 0 <= i < after.len() implies ((
    #[trigger] after[i]).1.selections matches Some(selections) ==> all_within(selections, depth)) by {
        if i < seen.len() && after[i] == seen[i] {
            assert(seen[i].1.selections matches Some(selections) ==> all_within(selections, depth));
        }
    }
}

proof fn lemma_found_within(
    fields: Seq<CollectedView>,
    aliases: Seq<AliasView>,
    schema: SchemaView,
    n: nat,
    depth: nat,
)
    requires
        n <= fields.len(),
        fields_within(fields, depth),
    ensures
        found_in(fields, aliases, schema, n) matches Ok(found) ==> seen_within(found.seen, depth),
    decreases n,
{
    if n > 0 {
        lemma_found_within(fields, aliases, schema, (n - 1) as nat, depth);
        if let Ok(found) = found_in(fields, aliases, schema, (n - 1) as nat) {
            let field = fields[n - 1];
            assert(field_within(field, depth));
            let name = response_name(field.field);
            if let Ok(ty) = field_type(field.field.schema, field.field.field_position) {
                let alias = free_alias(name, found.seen, 0);
                lemma_put_within(found.seen, name, remembered(field, ty, name), depth);
                lemma_put_within(found.seen, alias, remembered(field, ty, alias), depth);
                if let Some(previous) = value_of(found.seen, name) {
                    lemma_key_index(found.seen, name);
                    if let Some(selections) = previous.selections {
                        let more = selections.push(
                            AtPathView {
                                path: field.path.push(DataPathView::Key(name)),
                                set: field.sub,
                            },
                        );
                        assert(all_within(selections, depth));
                        assert(all_within(more, depth));
                        lemma_put_within(
                            found.seen,
                            name,
                            SeenView { selections: Some(more), ..previous },
                            depth,
                        );
                    }
                }
            }
        }
    }
}

proof fn lemma_found_error(
    fields: Seq<CollectedView>,
    aliases: Seq<AliasView>,
    schema: SchemaView,
    n: nat,
    m: nat,
)
    requires
        n <= m,
        found_in(fields, aliases, schema, n) is Err,
    ensures
        found_in(fields, aliases, schema, m) == found_in(fields, aliases, schema, n),
    decreases m,
{
    if n < m {
        lemma_found_error(fields, aliases, schema, n, (m - 1) as nat);
    }
}

proof fn lemma_conflicts_error(
    seen: Entries<SeenView>,
    aliases: Seq<AliasView>,
    schema: SchemaView,
    depth: nat,
    n: nat,
    m: nat,
)
    requires
        n <= m,
        conflicts_below(seen, aliases, schema, depth, n) is Err,
    ensures
        conflicts_below(seen, aliases, schema, depth, m) == conflicts_below(
            seen,
            aliases,
            schema,
            depth,
            n,
        ),
    decreases m,
{
    if n < m {
        lemma_conflicts_error(seen, aliases, schema, depth, n, (m - 1) as nat);
    }
}

fn gather_fields(selections: &Vec<SelectionSetAtPath>) -> (r: Vec<CollectedFieldInSet>)
    ensures
        r.deep_view() == all_fields(selections.deep_view(), selections.deep_view().len()),
{
    let ghost all = selections.deep_view();
    let mut fields: Vec<CollectedFieldInSet> = Vec::new();
    assert(fields.deep_view() =~= Seq::empty());
    let mut i: usize = 0;
    while i < selections.len()
        invariant
            i <= selections@.len(),
            all == selections.deep_view(),
            fields.deep_view() == all_fields(all, i as nat),
        decreases selections@.len() - i,
    {
        let ghost before = fields.deep_view();
        assert(all[i as int] == selections@[i as int].deep_view());
        match &selections[i].selections {
            Some(set) => {
                let mut found = put_below(&selections[i].path, set.fields_in_set());
                let ghost added = found.deep_view();
                fields.append(&mut found);
                assert(fields.deep_view() =~= before + added);
            },
            None => {
                assert(before + Seq::<CollectedView>::empty() =~= before);
            },
        }
        i += 1;
    }
    fields
}

fn remember(field: &CollectedFieldInSet, ty: Type, name: &Name) -> (r: SeenResponseName)
    ensures
        r.deep_view() == remembered(field.deep_view(), type_view(ty), name@),
{
    let selections = match &field.field.selection_set {
        Some(set) => {
            let at = SelectionSetAtPath {
                path: path_with(&field.path, name),
                selections: Some(set.clone()),
            };
            let ghost view = at.deep_view();
            let list: Vec<SelectionSetAtPath> = vec![at];
            assert(list.deep_view() =~= seq![view]);
            Some(list)
        },
        None => None,
    };
    SeenResponseName { field_name: field.field.field.name().clone(), field_type: ty, selections }
}

fn clone_at_paths(selections: &Vec<SelectionSetAtPath>) -> (r: Vec<SelectionSetAtPath>)
    ensures
        r.deep_view() == selections.deep_view(),
{
    let mut r: Vec<SelectionSetAtPath> = Vec::new();
    let mut i: usize = 0;
    while i < selections.len()
        invariant
            i <= selections@.len(),
            r@.len() == i,
            forall|j: int| 0 <= j < i ==> (#[trigger] r@[j]).deep_view() == selections@[j].deep_view(),
        decreases selections@.len() - i,
    {
        r.push(
            SelectionSetAtPath {
                path: clone_path(&selections[i].path),
                selections: clone_set(&selections[i].selections),
            },
        );
        i += 1;
    }
    assert(r.deep_view() =~= selections.deep_view());
    r
}

fn add_field(
    seen: &mut NameMap<SeenResponseName>,
    aliases: &mut Vec<FieldToAlias>,
    field: &CollectedFieldInSet,
    schema: &Schema,
) -> (r: Result<(), FederationError>)
    requires
        valid_name(response_name(field.deep_view().field)),
    ensures
        ({
            let expected = found_with(
                Found { seen: old(seen).deep_view(), aliases: old(aliases).deep_view() },
                field.deep_view(),
                schema.deep_view(),
            );
            match r {
                Ok(_) => expected == Ok::<Found, ErrorView>(
                    Found { seen: final(seen).deep_view(), aliases: final(aliases).deep_view() },
                ),
                Err(error) => expected == Err::<Found, ErrorView>(error.deep_view()),
            }
        }),
{
    let ghost before = aliases.deep_view();
    let name = field.field.field.response_name();
    let ty = match field.field.field.schema.field_type(&field.field.field.field_position) {
        Ok(ty) => ty,
        Err(error) => {
            return Err(error);
        },
    };
    let mut needs_alias = false;
    let mut merged: Option<SeenResponseName> = None;
    match seen.get(name) {
        None => {
            seen.insert(name.clone(), remember(field, ty, name));
            return Ok(());
        },
        Some(previous) => {
            let mut mergeable = same(&previous.field_name, field.field.field.name());
            if mergeable {
                mergeable =
                match types_can_be_merged(&previous.field_type, &ty, schema) {
                    Ok(mergeable) => mergeable,
                    Err(error) => {
                        return Err(error);
                    },
                };
            }
            if mergeable {
                match has_composite_name(schema, ty.inner_named_type()) {
                    Err(error) => {
                        return Err(error);
                    },
                    Ok(false) => {
                        return Ok(());
                    },
                    Ok(true) => {},
                }
                match &previous.selections {
                    None => {
                        return Err(
                            FederationError::internal(
                                &joined3(
                                    "Should have added selections for `'",
                                    &type_variant(&previous.field_type),
                                    "'",
                                ),
                            ),
                        );
                    },
                    Some(selections) => {
                        let mut more = clone_at_paths(selections);
                        let ghost earlier = more.deep_view();
                        let at = SelectionSetAtPath {
                            path: path_with(&field.path, name),
                            selections: clone_set(&field.field.selection_set),
                        };
                        let ghost added = at.deep_view();
                        more.push(at);
                        assert(more.deep_view() =~= earlier.push(added));
                        merged =
                        Some(
                            SeenResponseName {
                                field_name: previous.field_name.clone(),
                                field_type: previous.field_type.clone(),
                                selections: Some(more),
                            },
                        );
                    },
                }
            } else {
                needs_alias = true;
            }
        },
    }
    if needs_alias {
        let alias = gen_alias_name(name, seen);
        seen.insert(alias.clone(), remember(field, ty, &alias));
        let new = FieldToAlias {
            path: clone_path(&field.path),
            response_name: name.clone(),
            alias,
        };
        let ghost added = new.deep_view();
        aliases.push(new);
        assert(aliases.deep_view() =~= before.push(added));
        return Ok(());
    }
    if let Some(seen_again) = merged {
        seen.insert(name.clone(), seen_again);
    }
    Ok(())
}

/// Finds the fields that get an alias, at any depth, and adds them.
fn compute_aliases_for_non_merging_fields(
    selections: &Vec<SelectionSetAtPath>,
    alias_collector: &mut Vec<FieldToAlias>,
    schema: &Schema,
    Ghost(depth): Ghost<nat>,
) -> (r: Result<(), FederationError>)
    requires
        all_within(selections.deep_view(), depth),
    ensures
        ({
            let expected = conflicts(
                selections.deep_view(),
                old(alias_collector).deep_view(),
                schema.deep_view(),
                depth,
            );
            match r {
                Ok(_) => expected == Ok::<Seq<AliasView>, ErrorView>(
                    final(alias_collector).deep_view(),
                ),
                Err(error) => expected == Err::<Seq<AliasView>, ErrorView>(error.deep_view()),
            }
        }),
    decreases depth,
{
    let ghost start = alias_collector.deep_view();
    let ghost all = selections.deep_view();
    let fields = gather_fields(selections);
    let ghost collected = fields.deep_view();
    proof {
        if depth == 0 {
            lemma_no_fields(all, all.len());
        } else {
            lemma_all_fields(all, all.len(), (depth - 1) as nat);
            lemma_found_within(
                collected,
                start,
                schema.deep_view(),
                collected.len(),
                (depth - 1) as nat,
            );
        }
    }
    let mut seen: NameMap<SeenResponseName> = NameMap::new();
    let mut i: usize = 0;
    while i < fields.len()
        invariant
            i <= fields@.len(),
            depth > 0 || fields@.len() == 0,
            depth > 0 ==> fields_within(collected, (depth - 1) as nat),
            all == selections.deep_view(),
            collected == fields.deep_view(),
            collected == all_fields(all, all.len()),
            start == old(alias_collector).deep_view(),
            found_in(collected, start, schema.deep_view(), i as nat) == Ok::<Found, ErrorView>(
                Found { seen: seen.deep_view(), aliases: alias_collector.deep_view() },
            ),
        decreases fields@.len() - i,
    {
        assert(collected[i as int] == fields@[i as int].deep_view());
        assert(field_within(collected[i as int], (depth - 1) as nat));
        match add_field(&mut seen, alias_collector, &fields[i], schema) {
            Ok(_) => {},
            Err(error) => {
                proof {
                    lemma_found_error(
                        collected,
                        start,
                        schema.deep_view(),
                        i as nat + 1,
                        collected.len(),
                    );
                }
                return Err(error);
            },
        }
        i += 1;
    }
    let ghost names = seen.deep_view();
    let ghost first = alias_collector.deep_view();
    let mut k: usize = 0;
    while k < seen.len()
        invariant
            k <= names.len(),
            depth > 0 || names.len() == 0,
            names == seen.deep_view(),
            depth > 0 ==> seen_within(names, (depth - 1) as nat),
            depth > 0 ==> conflicts(
                selections.deep_view(),
                old(alias_collector).deep_view(),
                schema.deep_view(),
                depth,
            ) == conflicts_below(names, first, schema.deep_view(), depth, names.len()),
            conflicts_below(names, first, schema.deep_view(), depth, k as nat) == Ok::<
                Seq<AliasView>,
                ErrorView,
            >(alias_collector.deep_view()),
        decreases names.len() - k,
    {
        let known = seen.value_at(k);
        assert(names[k as int].1 == known.deep_view());
        if let Some(inner) = &known.selections {
            match compute_aliases_for_non_merging_fields(
                inner,
                alias_collector,
                schema,
                Ghost((depth - 1) as nat),
            ) {
                Ok(_) => {},
                Err(error) => {
                    proof {
                        lemma_conflicts_error(
                            names,
                            first,
                            schema.deep_view(),
                            depth,
                            k as nat + 1,
                            names.len(),
                        );
                    }
                    return Err(error);
                },
            }
        }
        k += 1;
    }
    Ok(())
}

proof fn lemma_no_fields(selections: Seq<AtPathView>, n: nat)
    requires
        n <= selections.len(),
        all_within(selections, 0),
    ensures
        all_fields(selections, n).len() == 0,
    decreases n,
{
    if n > 0 {
        lemma_no_fields(selections, (n - 1) as nat);
        assert(within(selections[n - 1].set, 0));
    }
}

/// A rename that undoes an alias in a response.
pub struct FetchDataKeyRenamer {
    pub path: Vec<FetchDataPathElement>,
    pub rename_key_to: Name,
}

/// The mathematical content of a [`FetchDataKeyRenamer`].
#[verifier::ext_equal]
pub struct RenamerView {
    pub path: Seq<DataPathView>,
    pub rename_key_to: Text,
}

impl DeepView for FetchDataKeyRenamer {
    type V = RenamerView;

    open spec fn deep_view(&self) -> RenamerView {
        RenamerView { path: self.path.deep_view(), rename_key_to: self.rename_key_to@ }
    }
}

/// The renames that undo aliases.
pub open spec fn renamers(aliases: Seq<AliasView>) -> Seq<RenamerView> {
    aliases.map_values(
        |a: AliasView|
            RenamerView {
                path: a.path.push(DataPathView::Key(a.alias)),
                rename_key_to: a.response_name,
            },
    )
}

/// A set in which no two fields ask for different things under one name, and the renames that
/// undo the aliases that this took.
pub open spec fn without_conflicts(set: SelectionSetView) -> Result<
    (SelectionSetView, Seq<RenamerView>),
    ErrorView,
> {
    match conflicts(
        seq![AtPathView { path: Seq::empty(), set: Some(set) }],
        Seq::empty(),
        set.schema,
        set_depth(set),
    ) {
        Err(error) => Err(error),
        Ok(aliases) => Ok((aliased(set, aliases), renamers(aliases))),
    }
}

proof fn lemma_invalid_name(set: SelectionSetView, n: nat, m: nat)
    requires
        n <= m <= set.selections.len(),
        !first_names_are_valid(set, n),
    ensures
        !first_names_are_valid(set, m),
    decreases m,
{
    if n < m {
        lemma_invalid_name(set, n, (m - 1) as nat);
    }
}

impl SelectionSet {
    /// Whether the fields of the set stand under names, at any depth.
    pub fn has_valid_names(&self) -> (r: bool)
        ensures
            r == names_are_valid(self.deep_view()),
        decreases self,
    {
        proof {
            lemma_set_view(*self);
        }
        let ghost all = self.deep_view();
        let mut i: usize = 0;
        while i < self.selections.len()
            invariant
                i <= self.selections@.len(),
                all == self.deep_view(),
                all.selections == selections_view(self.selections@),
                first_names_are_valid(all, i as nat),
            decreases self.selections@.len() - i,
        {
            assert(decreases_to!(*self => self.selections));
            assert(decreases_to!(self.selections@ => self.selections@[i as int]));
            assert(all.selections[i as int] == self.selections@[i as int].deep_view());
            let valid = match &self.selections[i] {
                Selection::Field(f) => is_valid_name(f.field.response_name())
                    && match &f.selection_set {
                    Some(set) => set.has_valid_names(),
                    None => true,
                },
                Selection::InlineFragment(f) => f.selection_set.has_valid_names(),
            };
            assert(valid == has_valid_names(all.selections[i as int])) by {
                reveal_with_fuel(has_valid_names, 2);
            }
            assert(first_names_are_valid(all, i as nat + 1) == valid) by {
                reveal_with_fuel(first_names_are_valid, 2);
            }
            if !valid {
                proof {
                    lemma_invalid_name(all, i as nat + 1, all.selections.len());
                }
                return false;
            }
            i += 1;
        }
        true
    }

    /// The set in which no two fields ask for different things under one name, and the renames
    /// that undo the aliases that this took.
    pub fn add_aliases_for_non_merging_fields(&self) -> (r: Result<
        (SelectionSet, Vec<FetchDataKeyRenamer>),
        FederationError,
    >)
        requires
            names_are_valid(self.deep_view()),
        ensures
            result_view(r) == without_conflicts(self.deep_view()),
    {
        let ghost set = self.deep_view();
        let root = SelectionSetAtPath { path: Vec::new(), selections: Some(self.clone()) };
        assert(root.path.deep_view() =~= Seq::empty());
        let ghost at = root.deep_view();
        let selections: Vec<SelectionSetAtPath> = vec![root];
        assert(selections.deep_view() =~= seq![at]);
        let mut aliases: Vec<FieldToAlias> = Vec::new();
        assert(aliases.deep_view() =~= Seq::empty());
        match compute_aliases_for_non_merging_fields(
            &selections,
            &mut aliases,
            &self.schema,
            Ghost(set_depth(set)),
        ) {
            Ok(_) => {},
            Err(error) => {
                return Err(error);
            },
        }
        let updated = self.with_field_aliased(&aliases);
        let mut output_rewrites: Vec<FetchDataKeyRenamer> = Vec::new();
        let mut i: usize = 0;
        while i < aliases.len()
            invariant
                i <= aliases@.len(),
                output_rewrites@.len() == i,
                forall|j: int|
                    0 <= j < i ==> (#[trigger] output_rewrites@[j]).deep_view() == (RenamerView {
                        path: aliases@[j].deep_view().path.push(
                            DataPathView::Key(aliases@[j].deep_view().alias),
                        ),
                        rename_key_to: aliases@[j].deep_view().response_name,
                    }),
            decreases aliases@.len() - i,
        {
            output_rewrites.push(
                FetchDataKeyRenamer {
                    path: path_with(&aliases[i].path, &aliases[i].alias),
                    rename_key_to: aliases[i].response_name.clone(),
                },
            );
            i += 1;
        }
        assert(output_rewrites.deep_view() =~= renamers(aliases.deep_view()));
        Ok((updated, output_rewrites))
    }
}

} // verus!
