//! Values of mixed kind on their way into markup: text is escaped, numbers
//! and booleans are written as they are.

use vstd::prelude::*;
use crate::escape::escape_html;
use crate::laws::lemma_escaped_safe;
use crate::model::{escaped, has_reserved};

verus! {

/// A value that is to be written into markup.
#[derive(Debug)]
pub enum TextValue {
    /// Text of any content.
    Text(String),
    /// A number, held as the text that it is written as.
    Number(String),
    /// A boolean.
    Boolean(bool),
}

impl TextValue {
    /// The text that the value is written as, before any escaping.
    pub open spec fn text(self) -> Seq<char> {
        match self {
            TextValue::Text(string) => string@,
            TextValue::Number(number) => number@,
            TextValue::Boolean(boolean) => boolean_text(boolean),
        }
    }

    /// True unless the text of a number holds a reserved character, which
    /// no way of writing a number produces.
    pub open spec fn well_formed(self) -> bool {
        self matches TextValue::Number(number) ==> !has_reserved(number@)
    }
}

/// The text that a boolean is written as.
pub open spec fn boolean_text(boolean: bool) -> Seq<char> {
    if boolean {
        seq!['t', 'r', 'u', 'e']
    } else {
        seq!['f', 'a', 'l', 's', 'e']
    }
}

/// What a value becomes in markup: text is escaped; the text of a number
/// and of a boolean holds no reserved character and stays as it is.
pub open spec fn browser_text(value: TextValue) -> Seq<char> {
    match value {
        TextValue::Text(string) => escaped(string@),
        TextValue::Number(number) => number@,
        TextValue::Boolean(boolean) => boolean_text(boolean),
    }
}

/// Leaving numbers and booleans unescaped loses nothing: what a
/// well-formed value becomes in markup is the escaped form of its text.
pub proof fn lemma_browser_text_is_escaped(value: TextValue)
    requires
        value.well_formed(),
    ensures
        browser_text(value) == escaped(value.text()),
{
    match value {
        TextValue::Text(_) => {},
        TextValue::Number(number) => {
            lemma_escaped_safe(number@);
        },
        TextValue::Boolean(boolean) => {
            lemma_escaped_safe(boolean_text(boolean));
        },
    }
}

/// Writes a boolean as `true` or `false`.
pub fn boolean_to_string(boolean: bool) -> (text: String)
    ensures
        text@ == boolean_text(boolean),
{
    if boolean {
        proof {
            reveal_strlit("true");
        }
        "true".to_owned()
    } else {
        proof {
            reveal_strlit("false");
        }
        "false".to_owned()
    }
}

/// Escapes text to prevent scripting attacks: text goes through
/// `escape_html`, a number or a boolean is written out unescaped.
pub fn escape_text_for_browser(text: TextValue) -> (html: String)
    ensures
        html@ == browser_text(text),
{
    match text {
        TextValue::Number(number) => number,
        TextValue::Boolean(boolean) => boolean_to_string(boolean),
        TextValue::Text(string) => escape_html(string),
    }
}

} // verus!
