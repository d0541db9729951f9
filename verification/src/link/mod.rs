//! Links from a schema to the specifications whose features it uses.

pub mod laws;
pub mod read;

use crate::ast::clone_text;
use crate::ast::Name;
use crate::collections::clone_keeps_view;
use crate::collections::Entries;
use crate::collections::NameMap;
use crate::text::joined3;
use crate::text::same;
use crate::text::Text;
use vstd::prelude::*;

verus! {

/// An element that a link imports, possibly under another name.
pub struct Import {
    pub element: Name,
    pub alias: Option<Name>,
}

/// The mathematical content of an [`Import`].
#[verifier::ext_equal]
pub struct ImportView {
    pub element: Text,
    pub alias: Option<Text>,
}

impl DeepView for Import {
    type V = ImportView;

    open spec fn deep_view(&self) -> ImportView {
        ImportView {
            element: self.element@,
            alias: self.alias.deep_view(),
        }
    }
}

impl Clone for Import {
    fn clone(&self) -> (r: Self)
        ensures
            r.deep_view() == self.deep_view(),
    {
        Import {
            element: self.element.clone(),
            alias: clone_text(&self.alias),
        }
    }
}

/// A link to a specification.
pub struct Link {
    /// The name that the specification gives itself.
    pub spec_name: Name,
    /// The name under which the schema uses the specification.
    pub spec_alias: Option<Name>,
    pub imports: Vec<Import>,
}

/// The mathematical content of a [`Link`].
#[verifier::ext_equal]
pub struct LinkView {
    pub spec_name: Text,
    pub spec_alias: Option<Text>,
    pub imports: Seq<ImportView>,
}

impl DeepView for Link {
    type V = LinkView;

    open spec fn deep_view(&self) -> LinkView {
        LinkView {
            spec_name: self.spec_name@,
            spec_alias: self.spec_alias.deep_view(),
            imports: self.imports.deep_view(),
        }
    }
}

impl Clone for Link {
    fn clone(&self) -> (r: Self)
        ensures
            r.deep_view() == self.deep_view(),
    {
        let imports = self.imports.clone();
        assert(imports.deep_view() =~= self.imports.deep_view());
        Link {
            spec_name: self.spec_name.clone(),
            spec_alias: clone_text(&self.spec_alias),
            imports,
        }
    }
}

/// The links of a schema, each under the identity of its specification.
pub struct LinksMetadata {
    pub by_identity: NameMap<Link>,
}

/// The mathematical content of a [`LinksMetadata`].
#[verifier::ext_equal]
pub struct LinksMetadataView {
    pub by_identity: Entries<LinkView>,
}

impl DeepView for LinksMetadata {
    type V = LinksMetadataView;

    open spec fn deep_view(&self) -> LinksMetadataView {
        LinksMetadataView {
            by_identity: self.by_identity.deep_view(),
        }
    }
}

impl Clone for LinksMetadata {
    fn clone(&self) -> (r: Self)
        ensures
            r.deep_view() == self.deep_view(),
    {
        let by_identity = self.by_identity.clone();
        assert(clone_keeps_view::<Link>());
        LinksMetadata {
            by_identity,
        }
    }
}

/// The identity of the federation specification.
pub open spec fn federation_identity() -> Text {
    "https://specs.apollo.dev/federation"@
}

/// The first import of an element.
pub open spec fn import_of(imports: Seq<ImportView>, element: Text) -> Option<ImportView>
    decreases imports.len(),
{
    if imports.len() == 0 {
        None
    } else if imports[0].element == element {
        Some(imports[0])
    } else {
        import_of(imports.drop_first(), element)
    }
}

/// The name under which the schema uses the specification.
pub open spec fn spec_name(link: LinkView) -> Text {
    match link.spec_alias {
        Some(alias) => alias,
        None => link.spec_name,
    }
}

/// The name under which the schema uses a directive of the specification: the name that it is
/// imported under, else the specification's own name for the directive called like it, else the
/// directive's name behind the specification's.
pub open spec fn directive_name(link: LinkView, name: Text) -> Text {
    match import_of(link.imports, name) {
        Some(import) => match import.alias {
            Some(alias) => alias,
            None => name,
        },
        None => if name == link.spec_name {
            spec_name(link)
        } else {
            spec_name(link) + "__"@ + name
        },
    }
}

impl Link {
    /// The name under which the schema uses the specification.
    pub fn spec_name_in_schema(&self) -> (r: &Name)
        ensures
            r@ == spec_name(self.deep_view()),
    {
        match &self.spec_alias {
            Some(alias) => alias,
            None => &self.spec_name,
        }
    }

    /// The name under which the schema uses a directive of the specification.
    pub fn directive_name_in_schema(&self, name: &str) -> (r: Name)
        ensures
            r@ == directive_name(self.deep_view(), name@),
    {
        let ghost imports = self.imports.deep_view();
        let mut i: usize = 0;
        assert(imports.skip(0) =~= imports);
        while i < self.imports.len()
            invariant
                i <= self.imports.len(),
                imports == self.imports.deep_view(),
                import_of(imports, name@) == import_of(imports.skip(i as int), name@),
            decreases self.imports.len() - i,
        {
            let import = &self.imports[i];
            assert(imports.skip(i as int)[0] == import.deep_view());
            assert(imports.skip(i as int).drop_first() =~= imports.skip(i + 1));
            if same(&import.element, name) {
                return match &import.alias {
                    Some(alias) => alias.clone(),
                    None => name.to_owned(),
                };
            }
            i += 1;
        }
        assert(imports.skip(i as int).len() == 0);
        if same(name, &self.spec_name) {
            self.spec_name_in_schema().clone()
        } else {
            joined3(self.spec_name_in_schema(), "__", name)
        }
    }
}

} // verus!
