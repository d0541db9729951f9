//! Reading links off the `@link` directives of a schema.

use crate::ast::Directive;
use crate::ast::DirectiveView;
use crate::ast::Name;
use crate::ast::Value;
use crate::ast::ValueView;
use crate::collections::put;
use crate::collections::Entries;
use crate::collections::NameMap;
use crate::link::Import;
use crate::link::ImportView;
use crate::link::Link;
use crate::link::LinksMetadata;
use crate::link::LinksMetadataView;
use crate::link::LinkView;
use crate::merge::directives::argument_value;
use crate::merge::directives::directive_arg_value;
use crate::merge::directives::directive_string_arg_value;
use crate::merge::directives::string_value;
use crate::text::begins_with;
use crate::text::characters;
use crate::text::same;
use crate::text::string_of;
use crate::text::Text;
use vstd::prelude::*;

verus! {

/// The last of the first `n` places where a text goes on with a part.
pub open spec fn last_place(text: Text, part: Text, n: nat) -> Option<int>
    decreases n,
{
    if n == 0 {
        None
    } else if begins_with(text.skip(n - 1), part) {
        Some(n - 1)
    } else {
        last_place(text, part, (n - 1) as nat)
    }
}

/// What is before the last place of a part, or the whole text where the part does not occur.
pub open spec fn before_last(text: Text, part: Text) -> Text {
    match last_place(text, part, text.len()) {
        Some(i) => text.take(i),
        None => text,
    }
}

/// What is behind the last place of a part, or the whole text where the part does not occur.
pub open spec fn behind_last(text: Text, part: Text) -> Text {
    match last_place(text, part, text.len()) {
        Some(i) => text.skip(i + part.len()),
        None => text,
    }
}

/// Whether the characters go on with a part at a place.
fn goes_on_with(chars: &Vec<char>, part: &Vec<char>, from: usize) -> (r: bool)
    requires
        from <= chars@.len(),
    ensures
        r == begins_with(chars@.skip(from as int), part@),
{
    if part.len() > chars.len() - from {
        return false;
    }
    let mut i: usize = 0;
    while i < part.len()
        invariant
            i <= part@.len() <= chars.len() - from,
            forall|j: int| 0 <= j < i ==> chars@[from + j] == part@[j],
        decreases part@.len() - i,
    {
        if chars[from + i] != part[i] {
            assert(chars@.skip(from as int).take(part@.len() as int)[i as int] != part@[i as int]);
            return false;
        }
        i += 1;
    }
    assert(chars@.skip(from as int).take(part@.len() as int) =~= part@);
    true
}

/// The last place where the characters go on with a part.
fn find_last(chars: &Vec<char>, part: &Vec<char>) -> (r: Option<usize>)
    ensures
        match r {
            Some(i) => i < chars@.len() && last_place(chars@, part@, chars@.len()) == Some(i as int)
                && i + part@.len() <= chars@.len(),
            None => last_place(chars@, part@, chars@.len()) is None,
        },
{
    let mut n: usize = chars.len();
    while n > 0
        invariant
            n <= chars@.len(),
            last_place(chars@, part@, chars@.len()) == last_place(chars@, part@, n as nat),
        decreases n,
    {
        if goes_on_with(chars, part, n - 1) {
            return Some(n - 1);
        }
        n -= 1;
    }
    None
}

/// The characters from one place to another.
fn between(chars: &Vec<char>, from: usize, to: usize) -> (r: String)
    requires
        from <= to <= chars@.len(),
    ensures
        r@ == chars@.subrange(from as int, to as int),
{
    let mut r: Vec<char> = Vec::new();
    let mut i: usize = from;
    while i < to
        invariant
            from <= i <= to <= chars@.len(),
            r@ == chars@.subrange(from as int, i as int),
        decreases to - i,
    {
        r.push(chars[i]);
        i += 1;
        assert(chars@.subrange(from as int, i as int) =~= chars@.subrange(
            from as int,
            i - 1,
        ).push(chars@[i - 1]));
    }
    string_of(&r)
}

fn take_before_last(text: &str, part: &str) -> (r: String)
    ensures
        r@ == before_last(text@, part@),
{
    let chars = characters(text);
    match find_last(&chars, &characters(part)) {
        Some(i) => {
            assert(chars@.subrange(0, i as int) =~= chars@.take(i as int));
            between(&chars, 0, i)
        },
        None => text.to_owned(),
    }
}

fn take_behind_last(text: &str, part: &str) -> (r: String)
    ensures
        r@ == behind_last(text@, part@),
{
    let chars = characters(text);
    let searched = characters(part);
    let len: usize = chars.len();
    match find_last(&chars, &searched) {
        Some(i) => {
            assert(chars@.subrange(i + searched@.len(), chars@.len() as int) =~= chars@.skip(
                i + searched@.len(),
            ));
            between(&chars, i + searched.len(), len)
        },
        None => text.to_owned(),
    }
}

/// The name of an element: that of a directive is written with `@`.
pub open spec fn plain_name(name: Text) -> Text {
    if name.len() > 0 && name[0] == '@' {
        name.skip(1)
    } else {
        name
    }
}

fn to_plain_name(name: &str) -> (r: Name)
    ensures
        r@ == plain_name(name@),
{
    let chars = characters(name);
    if chars.len() > 0 && chars[0] == '@' {
        assert(chars@.subrange(1, chars@.len() as int) =~= chars@.skip(1));
        between(&chars, 1, chars.len())
    } else {
        name.to_owned()
    }
}

/// The string under the first of the given keys of an object.
pub open spec fn string_field(fields: Seq<(Text, ValueView)>, key: Text) -> Option<Text>
    decreases fields.len(),
{
    if fields.len() == 0 {
        None
    } else if fields[0].0 == key {
        match fields[0].1 {
            ValueView::String(text) => Some(text),
            _ => None,
        }
    } else {
        string_field(fields.drop_first(), key)
    }
}

fn get_string_field<'a>(value: &'a Value, key: &str) -> (r: Option<&'a String>)
    ensures
        match value.deep_view() {
            ValueView::Object(fields) => match string_field(fields, key@) {
                Some(text) => r matches Some(found) && found@ == text,
                None => r is None,
            },
            _ => r is None,
        },
{
    let ghost all = value.deep_view()->Object_0;
    match value {
        Value::Object(fields) => {
            let mut i: usize = 0;
            assert(all.skip(0) =~= all);
            while i < fields.len()
                invariant
                    i <= fields@.len(),
                    *value == Value::Object(*fields),
                    value.deep_view() == ValueView::Object(all),
                    all.len() == fields@.len(),
                    string_field(all, key@) == string_field(all.skip(i as int), key@),
                decreases fields@.len() - i,
            {
                assert(all[i as int] == (fields@[i as int].0@, fields@[i as int].1.deep_view()));
                assert(all.skip(i as int)[0] == all[i as int]);
                assert(all.skip(i as int).drop_first() =~= all.skip(i + 1));
                if same(&fields[i].0, key) {
                    return match &fields[i].1 {
                        Value::String(text) => Some(text),
                        _ => None,
                    };
                }
                i += 1;
            }
            assert(all.skip(i as int).len() == 0);
            None
        },
        _ => None,
    }
}

/// What an item of the imports of a link imports: an element by its name, or one under another.
pub open spec fn imported(value: ValueView) -> Option<ImportView> {
    match value {
        ValueView::String(name) => Some(ImportView { element: plain_name(name), alias: None }),
        ValueView::Object(fields) => match string_field(fields, "name"@) {
            Some(name) => Some(
                ImportView {
                    element: plain_name(name),
                    alias: match string_field(fields, "as"@) {
                        Some(alias) => Some(plain_name(alias)),
                        None => None,
                    },
                },
            ),
            None => None,
        },
        _ => None,
    }
}

fn read_import(value: &Value) -> (r: Option<Import>)
    ensures
        r.deep_view() == imported(value.deep_view()),
{
    match value {
        Value::String(name) => Some(Import { element: to_plain_name(name), alias: None }),
        Value::Object(_) => match get_string_field(value, "name") {
            Some(name) => {
                let alias = match get_string_field(value, "as") {
                    Some(alias) => Some(to_plain_name(alias)),
                    None => None,
                };
                Some(Import { element: to_plain_name(name), alias })
            },
            None => None,
        },
        _ => None,
    }
}

/// What the first `n` items of the imports of a link import.
pub open spec fn imports_of(items: Seq<ValueView>, n: nat) -> Seq<ImportView>
    decreases n,
{
    if n == 0 {
        Seq::empty()
    } else {
        let before = imports_of(items, (n - 1) as nat);
        match imported(items[n - 1]) {
            Some(import) => before.push(import),
            None => before,
        }
    }
}

fn read_imports(items: &Vec<Value>) -> (r: Vec<Import>)
    ensures
        r.deep_view() == imports_of(items.deep_view(), items.deep_view().len()),
{
    let ghost all = items.deep_view();
    let mut r: Vec<Import> = Vec::new();
    let mut i: usize = 0;
    assert(r.deep_view() =~= imports_of(all, 0));
    while i < items.len()
        invariant
            i <= items@.len(),
            all == items.deep_view(),
            r.deep_view() == imports_of(all, i as nat),
        decreases items@.len() - i,
    {
        let ghost before = r.deep_view();
        assert(all[i as int] == items@[i as int].deep_view());
        if let Some(import) = read_import(&items[i]) {
            let ghost view = import.deep_view();
            r.push(import);
            assert(r.deep_view() =~= before.push(view));
        }
        i += 1;
    }
    r
}

/// The link of a directive with its identity, which is its URL without the version. The name of a
/// specification is the last part of its identity.
pub open spec fn link_of(directive: DirectiveView) -> Option<(Text, LinkView)> {
    match string_value(directive, "url"@) {
        None => None,
        Some(url) => {
            let identity = before_last(url, "/v"@);
            Some(
                (
                    identity,
                    LinkView {
                        spec_name: behind_last(identity, "/"@),
                        spec_alias: string_value(directive, "as"@),
                        imports: match argument_value(directive.arguments, "import"@) {
                            Some(ValueView::List(items)) => imports_of(items, items.len()),
                            _ => Seq::empty(),
                        },
                    },
                ),
            )
        },
    }
}

fn read_link(directive: &Directive) -> (r: Option<(String, Link)>)
    ensures
        match link_of(directive.deep_view()) {
            Some((identity, link)) => r matches Some(read) && read.0@ == identity
                && read.1.deep_view() == link,
            None => r is None,
        },
{
    match directive_string_arg_value(directive, "url") {
        None => None,
        Some(url) => {
            let identity = take_before_last(url, "/v");
            let spec_name = take_behind_last(&identity, "/");
            let spec_alias = match directive_string_arg_value(directive, "as") {
                Some(alias) => Some(alias.to_owned()),
                None => None,
            };
            let imports = match directive_arg_value(directive, "import") {
                Some(Value::List(items)) => {
                    assert(items.deep_view() =~= Value::List(*items).deep_view()->List_0);
                    read_imports(items)
                },
                _ => {
                    let none: Vec<Import> = Vec::new();
                    assert(none.deep_view() =~= Seq::empty());
                    none
                },
            };
            Some((identity, Link { spec_name, spec_alias, imports }))
        },
    }
}

/// The links of the first `n` directives, each under its identity. The last one of an identity
/// stays.
pub open spec fn links_of(directives: Seq<DirectiveView>, n: nat) -> Entries<LinkView>
    decreases n,
{
    if n == 0 {
        Seq::empty()
    } else {
        let before = links_of(directives, (n - 1) as nat);
        let directive = directives[n - 1];
        if directive.name == "link"@ {
            match link_of(directive) {
                Some((identity, link)) => put(before, identity, link),
                None => before,
            }
        } else {
            before
        }
    }
}

/// The links of a schema with the given directives, if it has any.
pub open spec fn links_metadata(directives: Seq<DirectiveView>) -> Option<LinksMetadataView> {
    let by_identity = links_of(directives, directives.len());
    if by_identity.len() == 0 {
        None
    } else {
        Some(LinksMetadataView { by_identity })
    }
}

impl LinksMetadata {
    /// The links of a schema with the given directives, if it has any.
    pub fn from_directives(directives: &Vec<Directive>) -> (r: Option<Self>)
        ensures
            r.deep_view() == links_metadata(directives.deep_view()),
    {
        let ghost all = directives.deep_view();
        let mut by_identity: NameMap<Link> = NameMap::new();
        let mut i: usize = 0;
        while i < directives.len()
            invariant
                i <= directives@.len(),
                all == directives.deep_view(),
                by_identity.deep_view() == links_of(all, i as nat),
            decreases directives@.len() - i,
        {
            assert(all[i as int] == directives@[i as int].deep_view());
            if same(&directives[i].name, "link") {
                if let Some((identity, link)) = read_link(&directives[i]) {
                    by_identity.insert(identity, link);
                }
            }
            i += 1;
        }
        if by_identity.is_empty() {
            None
        } else {
            Some(LinksMetadata { by_identity })
        }
    }
}

} // verus!
