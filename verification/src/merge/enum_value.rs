//! The values of `join__Graph`, made from the names of subgraphs.

use crate::ast::is_valid_name;
use crate::ast::name_continue;
use crate::ast::valid_name;
use crate::ast::Name;
use crate::text::characters;
use crate::text::char_is_numeric;
use crate::text::is_numeric;
use crate::text::joined;
use crate::text::string_of;
use crate::text::Text;
use vstd::prelude::*;

verus! {

/// A valid enum value in GraphQL, used for building `join__Graph`.
pub struct EnumValue(Name);

impl DeepView for EnumValue {
    type V = Text;

    closed spec fn deep_view(&self) -> Text {
        self.0@
    }
}

/// The character that stands for `c` in an enum value: ASCII letters in upper case, ASCII digits
/// as they are, and an underscore for anything else.
pub open spec fn enum_char(c: char) -> char {
    if 'a' <= c <= 'z' {
        (c as int - 32) as char
    } else if 'A' <= c <= 'Z' || '0' <= c <= '9' {
        c
    } else {
        '_'
    }
}

/// The subgraph name, behind an underscore where it begins with a digit.
pub open spec fn prefixed(raw: Text) -> Text {
    if raw.len() > 0 && char_is_numeric(raw[0]) {
        seq!['_'] + raw
    } else {
        raw
    }
}

/// The enum value for a subgraph name.
pub open spec fn enum_value_text(raw: Text) -> Text {
    prefixed(raw).map_values(|c: char| enum_char(c))
}

/// The message for a subgraph name that gives no enum value.
pub open spec fn enum_value_error(raw: Text) -> Text {
    "Failed to transform "@ + raw + " into a valid GraphQL name. Got "@ + enum_value_text(raw)
}

fn to_enum_char(c: char) -> (r: char)
    ensures
        r == enum_char(c),
{
    if 'a' <= c && c <= 'z' {
        ((c as u8) - 32) as char
    } else if ('A' <= c && c <= 'Z') || ('0' <= c && c <= '9') {
        c
    } else {
        '_'
    }
}

proof fn lemma_ascii_digit_numeric(raw: Text)
    requires
        raw.len() > 0,
        '0' <= raw[0] <= '9' ==> char_is_numeric(raw[0]),
    ensures
        valid_name(enum_value_text(raw)),
{
    let text = enum_value_text(raw);
    assert forall|i: int| 0 <= i < text.len() implies name_continue(#[trigger] text[i]) by {
        assert(text[i] == enum_char(prefixed(raw)[i]));
    }
    assert(text[0] == enum_char(prefixed(raw)[0]));
}

impl EnumValue {
    /// The enum value for a subgraph name. Every name but the empty one has one. Of the ASCII
    /// characters, only a digit at the front gets an underscore before it.
    pub fn new(raw: &str) -> (r: Result<Self, String>)
        ensures
            match r {
                Ok(value) => value.deep_view() == enum_value_text(raw@) && valid_name(
                    enum_value_text(raw@),
                ),
                Err(message) => message@ == enum_value_error(raw@) && !valid_name(
                    enum_value_text(raw@),
                ),
            },
            r is Ok <==> raw@.len() > 0,
            raw@.len() > 0 && (raw@[0] as u32) < 128 ==> (char_is_numeric(raw@[0]) <==> '0'
                <= raw@[0] <= '9'),
    {
        let chars = characters(raw);
        let mut name: Vec<char> = Vec::new();
        if chars.len() > 0 && is_numeric(chars[0]) {
            name.push(to_enum_char('_'));
        }
        let ghost offset: int = name@.len() as int;
        let mut i: usize = 0;
        while i < chars.len()
            invariant
                i <= chars.len(),
                chars@ == raw@,
                offset == (if raw@.len() > 0 && char_is_numeric(raw@[0]) {
                    1int
                } else {
                    0
                }),
                name@.len() == offset + i,
                forall|j: int| 0 <= j < name@.len() ==> name@[j] == enum_char(prefixed(raw@)[j]),
            decreases chars.len() - i,
        {
            name.push(to_enum_char(chars[i]));
            i += 1;
        }
        assert(name@ =~= enum_value_text(raw@));
        let name = string_of(&name);
        proof {
            if raw@.len() > 0 {
                lemma_ascii_digit_numeric(raw@);
            }
        }
        if is_valid_name(&name) {
            Ok(EnumValue(name))
        } else {
            let message = joined(
                &joined(&joined("Failed to transform ", raw), " into a valid GraphQL name. Got "),
                &name,
            );
            Err(message)
        }
    }

    /// The value as a name.
    pub fn to_name(&self) -> (r: Name)
        ensures
            r@ == self.deep_view(),
    {
        self.0.clone()
    }

    /// The value as a string.
    pub fn as_str(&self) -> (r: &str)
        ensures
            r@ == self.deep_view(),
    {
        self.0.as_str()
    }
}

impl Clone for EnumValue {
    fn clone(&self) -> (r: Self)
        ensures
            r.deep_view() == self.deep_view(),
    {
        EnumValue(self.0.clone())
    }
}

} // verus!
