//! What holds of aliases for fields that cannot be merged.

use crate::ast::valid_name;
use crate::ast::TypeView;
use crate::collections::has_key;
use crate::collections::lemma_value_of_put;
use crate::collections::value_of;
use crate::collections::Entries;
use crate::error::ErrorView;
use crate::operation::aliases::aliased_selection;
use crate::operation::aliases::alias_at;
use crate::operation::aliases::AliasView;
use crate::operation::aliases::AtPathView;
use crate::operation::aliases::CollectedView;
use crate::operation::aliases::SeenView;
use crate::operation::conflicts::alias_name;
use crate::operation::conflicts::can_be_merged;
use crate::operation::conflicts::found_in;
use crate::operation::conflicts::found_with;
use crate::operation::conflicts::free_alias;
use crate::operation::conflicts::remembered;
use crate::operation::conflicts::renamers;
use crate::operation::conflicts::Found;
use crate::operation::response_name;
use crate::operation::selection::SelectionView;
use crate::operation::FieldElementView;
use crate::query_graph::elements::DataPathView;
use crate::schema::position::field_type;
use crate::schema::SchemaView;
use crate::text::Text;
use vstd::prelude::*;

verus! {

/// An alias that is made up is a name that is not in use, unless numbers run out.
pub proof fn law_made_up_alias_is_free(base: Text, seen: Entries<SeenView>, k: nat)
    requires
        k <= usize::MAX,
    ensures
        free_alias(base, seen, k) == alias_name(base, usize::MAX as nat) || (valid_name(
            free_alias(base, seen, k),
        ) && !has_key(seen, free_alias(base, seen, k))),
    decreases usize::MAX - k,
{
    let name = alias_name(base, k);
    if k < usize::MAX && !(valid_name(name) && !has_key(seen, name)) {
        law_made_up_alias_is_free(base, seen, k + 1);
    }
}

/// The type of a field.
pub open spec fn type_of(field: CollectedView) -> TypeView {
    field_type(field.field.schema, field.field.field_position)->Ok_0
}

/// The name under which a field is asked for next to those that were seen: its own, or an alias
/// where that one stands for something else.
pub open spec fn name_next_to(found: Found, field: CollectedView, schema: SchemaView) -> Text {
    let name = response_name(field.field);
    match value_of(found.seen, name) {
        None => name,
        Some(previous) => if previous.field_name == field.field.field_position.field_name
            && can_be_merged(previous.field_type, type_of(field), schema) == Ok::<bool, ErrorView>(
            true,
        ) {
            name
        } else {
            free_alias(name, found.seen, 0)
        },
    }
}

/// Whether there is an alias left for a field next to those that were seen.
pub open spec fn alias_is_left(found: Found, field: CollectedView) -> bool {
    let name = response_name(field.field);
    free_alias(name, found.seen, 0) != alias_name(name, usize::MAX as nat)
}

/// Whether there is an alias left for each of the first `n` fields.
pub open spec fn aliases_are_left(
    fields: Seq<CollectedView>,
    aliases: Seq<AliasView>,
    schema: SchemaView,
    n: nat,
) -> bool {
    forall|i: nat|
        i < n ==> (#[trigger] found_in(fields, aliases, schema, i) matches Ok(found)
            ==> alias_is_left(found, fields[i as int]))
}

/// Whether a field can be merged with what a name stands for.
pub open spec fn goes_with(seen: SeenView, field: CollectedView, schema: SchemaView) -> bool {
    seen.field_name == field.field.field_position.field_name && (seen.field_type == type_of(field)
        || can_be_merged(seen.field_type, type_of(field), schema) == Ok::<bool, ErrorView>(true))
}

/// What a name stands for does not change, and the next field goes with its own.
proof fn lemma_found_goes(found: Found, field: CollectedView, schema: SchemaView, q: Text)
    requires
        alias_is_left(found, field),
    ensures
        found_with(found, field, schema) matches Ok(after) ==> (value_of(
            after.seen,
            name_next_to(found, field, schema),
        ) matches Some(seen) && goes_with(seen, field, schema)),
        found_with(found, field, schema) matches Ok(after) ==> (value_of(
            found.seen,
            q,
        ) matches Some(before) ==> (value_of(after.seen, q) matches Some(seen) && seen.field_name
            == before.field_name && seen.field_type == before.field_type)),
{
    let name = response_name(field.field);
    let alias = free_alias(name, found.seen, 0);
    let ty = type_of(field);
    law_made_up_alias_is_free(name, found.seen, 0);
    match found_with(found, field, schema) {
        Err(_) => {},
        Ok(after) => match value_of(found.seen, name) {
            None => {
                let new = remembered(field, ty, name);
                lemma_value_of_put(found.seen, name, new, q);
                lemma_value_of_put(found.seen, name, new, name);
            },
            Some(previous) => if name_next_to(found, field, schema) == name && previous.field_name
                == field.field.field_position.field_name && can_be_merged(
                previous.field_type,
                ty,
                schema,
            ) == Ok::<bool, ErrorView>(true) {
                if after != found {
                    let more = previous.selections->0.push(
                        AtPathView {
                            path: field.path.push(DataPathView::Key(name)),
                            set: field.sub,
                        },
                    );
                    let new = SeenView { selections: Some(more), ..previous };
                    lemma_value_of_put(found.seen, name, new, q);
                    lemma_value_of_put(found.seen, name, new, name);
                }
            } else {
                let new = remembered(field, ty, alias);
                lemma_value_of_put(found.seen, alias, new, q);
                lemma_value_of_put(found.seen, alias, new, alias);
            },
        },
    }
}

/// Fields of one level that are asked for under one name can be merged with what the name stands
/// for: that is the first field under it.
pub proof fn law_fields_of_one_name_can_be_merged(
    fields: Seq<CollectedView>,
    aliases: Seq<AliasView>,
    schema: SchemaView,
    n: nat,
    i: nat,
)
    requires
        i < n <= fields.len(),
        aliases_are_left(fields, aliases, schema, n),
    ensures
        found_in(fields, aliases, schema, n) matches Ok(after) ==> (found_in(
            fields,
            aliases,
            schema,
            i,
        ) matches Ok(before) && value_of(
            after.seen,
            name_next_to(before, fields[i as int], schema),
        ) matches Some(seen) && goes_with(seen, fields[i as int], schema)),
    decreases n,
{
    match found_in(fields, aliases, schema, (n - 1) as nat) {
        Err(_) => {},
        Ok(found) => {
            lemma_found_goes(found, fields[n - 1], schema, response_name(fields[n - 1].field));
            if i < n - 1 {
                law_fields_of_one_name_can_be_merged(
                    fields,
                    aliases,
                    schema,
                    (n - 1) as nat,
                    i,
                );
                match found_in(fields, aliases, schema, i) {
                    Err(_) => {},
                    Ok(before) => lemma_found_goes(
                        found,
                        fields[n - 1],
                        schema,
                        name_next_to(before, fields[i as int], schema),
                    ),
                }
            }
        },
    }
}

// Renamed fields.

/// Whether an alias is for a name at the current level.
pub open spec fn is_alias_of(alias: AliasView, name: Text) -> bool {
    alias.path.len() == 0 && alias.response_name == name
}

proof fn lemma_alias_at(aliases: Seq<AliasView>, name: Text, n: nat)
    requires
        n <= aliases.len(),
    ensures
        match alias_at(aliases, name, n) {
            Some(found) => exists|i: int|
                0 <= i < n && is_alias_of(#[trigger] aliases[i], name) && aliases[i].alias == found,
            None => forall|i: int| 0 <= i < n ==> !is_alias_of(#[trigger] aliases[i], name),
        },
    decreases n,
{
    if n > 0 {
        if is_alias_of(aliases[n - 1], name) {
            assert(aliases[n - 1].alias == alias_at(aliases, name, n)->0);
        } else {
            lemma_alias_at(aliases, name, (n - 1) as nat);
            if let Some(found) = alias_at(aliases, name, (n - 1) as nat) {
                let i = choose|i: int|
                    0 <= i < n - 1 && is_alias_of(#[trigger] aliases[i], name) && aliases[i].alias
                        == found;
                assert(is_alias_of(aliases[i], name));
            }
        }
    }
}

/// A field that is renamed stays what it is but for its alias, which is one that was made for the
/// name that it is returned by; a field for which none was made keeps its own, and a fragment stays
/// what it is.
pub proof fn law_only_aliases_change(selection: SelectionView, aliases: Seq<AliasView>)
    ensures
        match (selection, aliased_selection(selection, aliases)) {
            (
                SelectionView::Field { field, sub },
                SelectionView::Field { field: after, sub: below },
            ) => {
                let name = match field.alias {
                    Some(alias) => alias,
                    None => field.field_position.field_name,
                };
                &&& after == (FieldElementView { alias: after.alias, ..field })
                &&& sub is Some == below is Some
                &&& (forall|i: int|
                    0 <= i < aliases.len() ==> !is_alias_of(#[trigger] aliases[i], name))
                    ==> after.alias == field.alias
                &&& (exists|i: int|
                    0 <= i < aliases.len() && is_alias_of(#[trigger] aliases[i], name)) ==> exists|
                    i: int,
                |
                    0 <= i < aliases.len() && is_alias_of(#[trigger] aliases[i], name)
                        && after.alias == Some(aliases[i].alias)
            },
            (
                SelectionView::InlineFragment { fragment, set },
                SelectionView::InlineFragment { fragment: after, set: below },
            ) => after == fragment,
            _ => false,
        },
{
    match selection {
        SelectionView::Field { field, sub } => {
            let name = match field.alias {
                Some(alias) => alias,
                None => field.field_position.field_name,
            };
            lemma_alias_at(aliases, name, aliases.len());
            if let Some(found) = alias_at(aliases, name, aliases.len()) {
                let i = choose|i: int|
                    0 <= i < aliases.len() && is_alias_of(#[trigger] aliases[i], name)
                        && aliases[i].alias == found;
                assert(is_alias_of(aliases[i], name));
            }
        },
        SelectionView::InlineFragment { fragment, set } => {},
    }
}

/// Each alias has a rename that undoes it: it is found where the alias is, under the alias, and
/// gives back the name.
pub proof fn law_aliases_are_undone(aliases: Seq<AliasView>, i: int)
    requires
        0 <= i < aliases.len(),
    ensures
        renamers(aliases).len() == aliases.len(),
        renamers(aliases)[i].path.len() == aliases[i].path.len() + 1,
        renamers(aliases)[i].path.drop_last() == aliases[i].path,
        renamers(aliases)[i].path.last() == DataPathView::Key(aliases[i].alias),
        renamers(aliases)[i].rename_key_to == aliases[i].response_name,
{
    assert(renamers(aliases)[i].path.drop_last() =~= aliases[i].path);
}

} // verus!
