//! The reserved characters and the entity that replaces each of them.

use vstd::prelude::*;

verus! {

/// True for the five characters that have a meaning of their own in markup.
pub open spec fn is_reserved(c: char) -> bool {
    c == '"' || c == '&' || c == '\'' || c == '<' || c == '>'
}

/// What one character of the input becomes in the output: its entity
/// for a reserved character, the character itself for any other.
pub open spec fn replacement(c: char) -> Seq<char> {
    if c == '"' {
        seq!['&', 'q', 'u', 'o', 't', ';']
    } else if c == '&' {
        seq!['&', 'a', 'm', 'p', ';']
    } else if c == '\'' {
        seq!['&', '#', 'x', '2', '7', ';']
    } else if c == '<' {
        seq!['&', 'l', 't', ';']
    } else if c == '>' {
        seq!['&', 'g', 't', ';']
    } else {
        seq![c]
    }
}

/// The entity for a reserved character, `None` for any other character.
pub fn entity_for(c: char) -> (entity: Option<&'static str>)
    ensures
        entity is Some <==> is_reserved(c),
        entity matches Some(text) ==> text@ == replacement(c),
{
    match c {
        '"' => {
            proof {
                reveal_strlit("&quot;");
            }
            Some("&quot;")
        },
        '&' => {
            proof {
                reveal_strlit("&amp;");
            }
            Some("&amp;")
        },
        '\'' => {
            proof {
                reveal_strlit("&#x27;");
            }
            Some("&#x27;")
        },
        '<' => {
            proof {
                reveal_strlit("&lt;");
            }
            Some("&lt;")
        },
        '>' => {
            proof {
                reveal_strlit("&gt;");
            }
            Some("&gt;")
        },
        _ => None,
    }
}

} // verus!
