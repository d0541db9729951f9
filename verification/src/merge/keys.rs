//! Whether the keys of a subgraph can be merged.

use crate::ast::Directive;
use crate::merge::directives::directives_named;
use crate::merge::directives::directive_string_arg_value;
use crate::merge::directives::federation_names;
use crate::merge::directives::get_all;
use crate::merge::directives::keys_have_fields;
use crate::merge::directives::string_value;
use crate::merge::directives::DirectiveNames;
use crate::merge::is_mergeable_type;
use crate::merge::mergeable_type;
use crate::merge::valid_keys;
use crate::merge::ValidFederationSubgraph;
use crate::schema::type_is_built_in;
use crate::schema::ExtendedType;
use crate::schema::ExtendedTypeView;
use vstd::prelude::*;

verus! {

fn have_fields(directives: &Vec<Directive>, key: &str) -> (r: bool)
    ensures
        r == keys_have_fields(directives_named(directives.deep_view(), key@)),
{
    let keys = get_all(directives, key);
    let ghost all = keys.deep_view();
    let mut i: usize = 0;
    while i < keys.len()
        invariant
            i <= keys@.len(),
            all == keys.deep_view(),
            all == directives_named(directives.deep_view(), key@),
            forall|j: int| 0 <= j < i ==> string_value(#[trigger] all[j], "fields"@) is Some,
        decreases keys@.len() - i,
    {
        assert(all[i as int] == keys@[i as int].deep_view());
        if directive_string_arg_value(&keys[i], "fields").is_none() {
            return false;
        }
        i += 1;
    }
    true
}

impl ValidFederationSubgraph {
    /// Whether the key directives of the objects and interfaces that are merged all name their
    /// fields.
    pub fn has_valid_keys(&self) -> (r: bool)
        ensures
            r == valid_keys(self.deep_view()),
    {
        let names = DirectiveNames::for_metadata(&self.schema.metadata);
        let ghost key = federation_names(self.deep_view().schema.metadata).key;
        let types = &self.schema.schema.types;
        let ghost all = types.deep_view();
        let mut i: usize = 0;
        while i < types.len()
            invariant
                i <= all.len(),
                all == types.deep_view(),
                all == self.deep_view().schema.schema.types,
                key == names.key@,
                key == federation_names(self.deep_view().schema.metadata).key,
                forall|j: int|
                    0 <= j < i && !type_is_built_in(all[j].1) && mergeable_type(
                        all[j].0,
                    ) ==> match (#[trigger] all[j]).1 {
                        ExtendedTypeView::Object(o) => keys_have_fields(
                            directives_named(o.directives, key),
                        ),
                        ExtendedTypeView::Interface(o) => keys_have_fields(
                            directives_named(o.directives, key),
                        ),
                        _ => true,
                    },
            decreases all.len() - i,
        {
            let ty = types.value_at(i);
            let name = types.key_at(i);
            assert(all[i as int] == (name@, ty.deep_view()));
            let valid = ty.is_built_in() || !is_mergeable_type(name) || match ty {
                ExtendedType::Object(o) => have_fields(&o.directives, &names.key),
                ExtendedType::Interface(o) => have_fields(&o.directives, &names.key),
                _ => true,
            };
            if !valid {
                return false;
            }
            i += 1;
        }
        true
    }
}

} // verus!
