//! What escaping means, stated over sequences of characters.
//!
//! `escaped` is the one definition that the escaper's contract speaks of.
//! `unescaped` and `without_entities` read an escaped text back; they exist
//! to state that escaping loses nothing.

use vstd::prelude::*;
use crate::entity::{is_reserved, replacement};

verus! {

/// True when `text` holds at least one reserved character.
pub open spec fn has_reserved(text: Seq<char>) -> bool {
    exists|i: int| 0 <= i < text.len() && is_reserved(#[trigger] text[i])
}

/// The escaped form of `text`: the replacements of its characters, in order.
pub open spec fn escaped(text: Seq<char>) -> Seq<char>
    decreases text.len(),
{
    if text.len() == 0 {
        Seq::empty()
    } else {
        escaped(text.drop_last()) + replacement(text.last())
    }
}

/// True when `word` stands in `text` at index `i`.
pub open spec fn occurs_at(text: Seq<char>, i: int, word: Seq<char>) -> bool {
    0 <= i && i + word.len() <= text.len() && text.subrange(i, i + word.len()) == word
}

/// True when one of the five entities stands in `text` at index `i`.
pub open spec fn entity_at(text: Seq<char>, i: int) -> bool {
    ||| occurs_at(text, i, replacement('"'))
    ||| occurs_at(text, i, replacement('&'))
    ||| occurs_at(text, i, replacement('\''))
    ||| occurs_at(text, i, replacement('<'))
    ||| occurs_at(text, i, replacement('>'))
}

/// The reserved character whose entity `text` starts with, if it starts
/// with one. No two entities start alike, so at most one can stand there.
pub open spec fn leading_entity(text: Seq<char>) -> Option<char> {
    if occurs_at(text, 0, replacement('"')) {
        Some('"')
    } else if occurs_at(text, 0, replacement('&')) {
        Some('&')
    } else if occurs_at(text, 0, replacement('\'')) {
        Some('\'')
    } else if occurs_at(text, 0, replacement('<')) {
        Some('<')
    } else if occurs_at(text, 0, replacement('>')) {
        Some('>')
    } else {
        None
    }
}

/// `text` read from the left with each entity turned back into the
/// character that it stands for.
pub open spec fn unescaped(text: Seq<char>) -> Seq<char>
    decreases text.len(),
{
    if text.len() == 0 {
        Seq::empty()
    } else {
        match leading_entity(text) {
            Some(c) => seq![c] + unescaped(text.skip(replacement(c).len() as int)),
            None => seq![text[0]] + unescaped(text.skip(1)),
        }
    }
}

/// `text` read from the left with each entity left out.
pub open spec fn without_entities(text: Seq<char>) -> Seq<char>
    decreases text.len(),
{
    if text.len() == 0 {
        Seq::empty()
    } else {
        match leading_entity(text) {
            Some(c) => without_entities(text.skip(replacement(c).len() as int)),
            None => seq![text[0]] + without_entities(text.skip(1)),
        }
    }
}

/// `text` with each reserved character left out.
pub open spec fn without_reserved(text: Seq<char>) -> Seq<char> {
    text.filter(|c: char| !is_reserved(c))
}

} // verus!
