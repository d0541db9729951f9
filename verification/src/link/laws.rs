//! What the names of linked directives are.

use crate::collections::value_of;
use crate::link::directive_name;
use crate::link::import_of;
use crate::link::ImportView;
use crate::link::LinksMetadataView;
use crate::link::LinkView;
use crate::merge::directives::federation_name;
use crate::text::Text;
use vstd::prelude::*;

verus! {

/// Whether the import at `k` is the first one of an element.
pub open spec fn is_first_import(imports: Seq<ImportView>, element: Text, k: int) -> bool {
    &&& 0 <= k < imports.len()
    &&& imports[k].element == element
    &&& forall|j: int| 0 <= j < k ==> (#[trigger] imports[j]).element != element
}

proof fn lemma_import(imports: Seq<ImportView>, element: Text)
    ensures
        match import_of(imports, element) {
            Some(found) => exists|k: int| #[trigger]
                is_first_import(imports, element, k) && imports[k] == found,
            None => forall|k: int|
                0 <= k < imports.len() ==> (#[trigger] imports[k]).element != element,
        },
    decreases imports.len(),
{
    if imports.len() > 0 {
        let rest = imports.drop_first();
        lemma_import(rest, element);
        if imports[0].element == element {
            assert(is_first_import(imports, element, 0));
        } else {
            match import_of(rest, element) {
                Some(found) => {
                    let k = choose|k: int| #[trigger]
                        is_first_import(rest, element, k) && rest[k] == found;
                    assert forall|j: int| 0 <= j < k + 1 implies (#[trigger] imports[j]).element
                        != element by {
                        if j > 0 {
                            assert(imports[j] == rest[j - 1]);
                        }
                    }
                    assert(imports[k + 1] == rest[k]);
                    assert(is_first_import(imports, element, k + 1));
                },
                None => {
                    assert forall|k: int| 0 <= k < imports.len() implies (
                    #[trigger] imports[k]).element != element by {
                        if k > 0 {
                            assert(imports[k] == rest[k - 1]);
                        }
                    }
                },
            }
        }
    }
}

/// A linked directive has the name that it is imported under: its alias, or its own name where it
/// is imported without one. One that is not imported has the name of the specification before its
/// own, unless it is the directive that the specification is named after.
pub proof fn law_directives_have_their_imported_names(link: LinkView, name: Text, k: int)
    ensures
        is_first_import(link.imports, name, k) ==> directive_name(link, name) == (
        match link.imports[k].alias {
            Some(alias) => alias,
            None => name,
        }),
        (forall|j: int|
            0 <= j < link.imports.len() ==> (#[trigger] link.imports[j]).element != name) ==> {
            let prefix = match link.spec_alias {
                Some(alias) => alias,
                None => link.spec_name,
            };
            directive_name(link, name) == (if name == link.spec_name {
                prefix
            } else {
                prefix + "__"@ + name
            })
        },
{
    lemma_import(link.imports, name);
    if is_first_import(link.imports, name, k) {
        assert(link.imports[k].element == name);
        let found = import_of(link.imports, name);
        if found is Some {
            let i = choose|i: int| #[trigger]
                is_first_import(link.imports, name, i) && link.imports[i] == found->0;
            assert(i == k) by {
                if i < k {
                    assert(link.imports[i].element != name);
                } else if k < i {
                    assert(link.imports[k].element != name);
                }
            }
        }
    }
}

/// A schema that does not link the federation specification uses its directives under their own
/// names; one that does uses them under the names that the link gives them.
pub proof fn law_federation_directives_are_found(links: Option<LinksMetadataView>, name: Text)
    ensures
        links is None ==> federation_name(links, name) == name,
        links matches Some(found) ==> match value_of(
            found.by_identity,
            "https://specs.apollo.dev/federation"@,
        ) {
            Some(link) => federation_name(links, name) == directive_name(link, name),
            None => federation_name(links, name) == name,
        },
{
}

} // verus!
