//! What the texts of types tell.

use crate::ast::type_text;
use crate::ast::TypeView;
use crate::text::Text;
use vstd::prelude::*;

verus! {

/// Whether a text has no brackets and exclamation marks, as names have none.
pub open spec fn is_plain(text: Text) -> bool {
    forall|i: int|
        0 <= i < text.len() ==> #[trigger] text[i] != '[' && text[i] != ']' && text[i] != '!'
}

/// Whether the name in a type is a plain one.
pub open spec fn has_plain_name(ty: TypeView) -> bool
    decreases ty,
{
    match ty {
        TypeView::Named(name) => is_plain(name),
        TypeView::NonNullNamed(name) => is_plain(name),
        TypeView::List(inner) => has_plain_name(*inner),
        TypeView::NonNullList(inner) => has_plain_name(*inner),
    }
}

/// The first and last characters tell the kind of a type.
proof fn lemma_kind(ty: TypeView)
    requires
        has_plain_name(ty),
    ensures
        ({
            let text = type_text(ty);
            match ty {
                TypeView::Named(name) => is_plain(text) && text == name,
                TypeView::NonNullNamed(name) => text.len() > 0 && text.last() == '!' && text[0]
                    != '[' && text.drop_last() == name,
                TypeView::List(inner) => text.len() >= 2 && text[0] == '[' && text.last() == ']'
                    && text.subrange(1, text.len() - 1) == type_text(*inner),
                TypeView::NonNullList(inner) => text.len() >= 3 && text[0] == '[' && text.last()
                    == '!' && text.subrange(1, text.len() - 2) == type_text(*inner),
            }
        }),
{
    reveal_strlit("!");
    reveal_strlit("[");
    reveal_strlit("]");
    reveal_strlit("]!");
    let text = type_text(ty);
    match ty {
        TypeView::Named(name) => {},
        TypeView::NonNullNamed(name) => {
            assert(text.drop_last() =~= name);
            if name.len() > 0 {
                assert(text[0] == name[0]);
            }
        },
        TypeView::List(inner) => {
            assert(text.subrange(1, text.len() - 1) =~= type_text(*inner));
        },
        TypeView::NonNullList(inner) => {
            assert(text.subrange(1, text.len() - 2) =~= type_text(*inner));
        },
    }
}

/// Types with the same text are the same.
pub proof fn law_texts_of_types_differ(a: TypeView, b: TypeView)
    requires
        has_plain_name(a),
        has_plain_name(b),
        type_text(a) == type_text(b),
    ensures
        a == b,
    decreases a,
{
    lemma_kind(a);
    lemma_kind(b);
    let text = type_text(a);
    match (a, b) {
        (TypeView::List(x), TypeView::List(y)) => {
            law_texts_of_types_differ(*x, *y);
        },
        (TypeView::NonNullList(x), TypeView::NonNullList(y)) => {
            law_texts_of_types_differ(*x, *y);
        },
        (TypeView::Named(_), TypeView::Named(_)) => {},
        (TypeView::NonNullNamed(_), TypeView::NonNullNamed(_)) => {},
        _ => {
            if text.len() > 0 {
                assert(text.last() == text[text.len() - 1]);
            }
        },
    }
}

} // verus!
