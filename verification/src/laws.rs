//! What holds of the escaped form of every text.

use vstd::prelude::*;
use vstd::utf8::*;
use crate::encoding::{lemma_encode_concat, lemma_encode_single};
use crate::entity::{is_reserved, replacement};
use crate::model::{
    entity_at, escaped, has_reserved, occurs_at, unescaped, without_entities, without_reserved,
};

verus! {

/// Escaping distributes over concatenation.
pub proof fn lemma_escaped_concat(a: Seq<char>, b: Seq<char>)
    ensures
        escaped(a + b) == escaped(a) + escaped(b),
    decreases b.len(),
{
    if b.len() > 0 {
        lemma_escaped_concat(a, b.drop_last());
        assert((a + b).drop_last() =~= a + b.drop_last());
    }
}

/// One character escapes to its replacement.
pub proof fn lemma_escaped_single(c: char)
    ensures
        escaped(seq![c]) == replacement(c),
{
    assert(seq![c].drop_last() =~= Seq::<char>::empty());
    assert(escaped(Seq::<char>::empty()) =~= Seq::<char>::empty());
    assert(escaped(seq![c]) =~= replacement(c));
}

/// The escaped form starts with the replacement of the first character
/// and goes on with the escaped form of the rest.
pub proof fn lemma_escaped_first(text: Seq<char>)
    requires
        text.len() > 0,
    ensures
        escaped(text) == replacement(text[0]) + escaped(text.drop_first()),
{
    lemma_escaped_single(text[0]);
    lemma_escaped_concat(seq![text[0]], text.drop_first());
    assert(text =~= seq![text[0]] + text.drop_first());
}

/// The escaped form is the replacements of the characters, one after another.
pub proof fn lemma_escaped_is_concatenation(text: Seq<char>)
    ensures
        escaped(text) == text.map_values(|c: char| replacement(c)).flatten(),
    decreases text.len(),
{
    let parts = text.map_values(|c: char| replacement(c));
    if text.len() > 0 {
        lemma_escaped_first(text);
        lemma_escaped_is_concatenation(text.drop_first());
        assert(parts.drop_first() =~= text.drop_first().map_values(|c: char| replacement(c)));
    }
}

/// A text without reserved characters is its own escaped form.
pub proof fn lemma_escaped_safe(text: Seq<char>)
    requires
        !has_reserved(text),
    ensures
        escaped(text) == text,
    decreases text.len(),
{
    if text.len() > 0 {
        let init = text.drop_last();
        assert forall|i: int| 0 <= i < init.len() implies !is_reserved(#[trigger] init[i]) by {
            assert(init[i] == text[i]);
        }
        lemma_escaped_safe(init);
    }
}

/// The escaped form is never shorter than the text, and is longer exactly
/// when the text holds a reserved character.
pub proof fn lemma_escaped_len(text: Seq<char>)
    ensures
        escaped(text).len() >= text.len(),
        escaped(text).len() == text.len() <==> !has_reserved(text),
    decreases text.len(),
{
    if text.len() > 0 {
        let init = text.drop_last();
        lemma_escaped_len(init);
        if has_reserved(text) {
            let k = choose|k: int| 0 <= k < text.len() && is_reserved(#[trigger] text[k]);
            if k < init.len() {
                assert(is_reserved(init[k]));
            }
        }
    }
}

/// The escaped form takes at least as many bytes as the text.
pub proof fn lemma_escaped_byte_len(text: Seq<char>)
    ensures
        encode_utf8(escaped(text)).len() >= encode_utf8(text).len(),
    decreases text.len(),
{
    if text.len() > 0 {
        let init = text.drop_last();
        let last = text.last();
        lemma_escaped_byte_len(init);
        lemma_encode_concat(escaped(init), replacement(last));
        lemma_encode_concat(init, seq![last]);
        lemma_encode_single(last);
        assert(text =~= init + seq![last]);
    }
}

/// Escaping a text with a reserved character leaves a `&` in the result.
pub proof fn lemma_escaped_keeps_ampersand(text: Seq<char>)
    requires
        has_reserved(text),
    ensures
        has_reserved(escaped(text)),
    decreases text.len(),
{
    let init = text.drop_last();
    let last = text.last();
    let k = choose|k: int| 0 <= k < text.len() && is_reserved(#[trigger] text[k]);
    if is_reserved(last) {
        assert(is_reserved(escaped(text)[escaped(init).len() as int]));
    } else {
        assert(is_reserved(init[k]));
        lemma_escaped_keeps_ampersand(init);
        let j = choose|j: int|
            0 <= j < escaped(init).len() && is_reserved(#[trigger] escaped(init)[j]);
        assert(is_reserved(escaped(text)[j]));
    }
}

/// Escaping is not idempotent: escaping a second time changes the result
/// exactly when the text holds a reserved character.
pub proof fn lemma_escaping_twice(text: Seq<char>)
    ensures
        escaped(escaped(text)) == escaped(text) <==> !has_reserved(text),
{
    if has_reserved(text) {
        lemma_escaped_keeps_ampersand(text);
        lemma_escaped_len(escaped(text));
    } else {
        lemma_escaped_safe(text);
    }
}

/// An entity at some place in a text still stands there when the text goes on.
proof fn lemma_entity_at_extends(head: Seq<char>, tail: Seq<char>, i: int)
    requires
        entity_at(head, i),
    ensures
        entity_at(head + tail, i),
{
    let text = head + tail;
    assert forall|word: Seq<char>| occurs_at(head, i, word) implies occurs_at(text, i, word) by {
        assert(text.subrange(i, i + word.len()) =~= head.subrange(i, i + word.len()));
    }
}

/// A `&` in an escaped text is the first character of an entity.
pub proof fn lemma_ampersand_starts_entity(text: Seq<char>, i: int)
    requires
        0 <= i < escaped(text).len(),
        escaped(text)[i] == '&',
    ensures
        entity_at(escaped(text), i),
    decreases text.len(),
{
    let init = text.drop_last();
    let last = text.last();
    let head = escaped(init);
    let word = replacement(last);
    if i < head.len() {
        lemma_ampersand_starts_entity(init, i);
        lemma_entity_at_extends(head, word, i);
    } else {
        assert(escaped(text).subrange(i, i + word.len()) =~= word);
    }
}

/// A reserved character in an escaped text is a `&`.
pub proof fn lemma_reserved_is_ampersand(text: Seq<char>, i: int)
    requires
        0 <= i < escaped(text).len(),
        is_reserved(escaped(text)[i]),
    ensures
        escaped(text)[i] == '&',
    decreases text.len(),
{
    let init = text.drop_last();
    if i < escaped(init).len() {
        lemma_reserved_is_ampersand(init, i);
    }
}

/// No entity is left in parts: every `&` in an escaped text is the first
/// character of one of the five entities, and none of `"`, `'`, `<` and
/// `>` occurs in it at all.
pub proof fn lemma_no_bare_reserved(text: Seq<char>)
    ensures
        forall|i: int|
            0 <= i < escaped(text).len() && #[trigger] escaped(text)[i] == '&' ==> entity_at(
                escaped(text),
                i,
            ),
        forall|i: int|
            0 <= i < escaped(text).len() && is_reserved(#[trigger] escaped(text)[i])
                ==> escaped(text)[i] == '&',
{
    assert forall|i: int|
        0 <= i < escaped(text).len() && #[trigger] escaped(text)[i] == '&' implies entity_at(
        escaped(text),
        i,
    ) by {
        lemma_ampersand_starts_entity(text, i);
    }
    assert forall|i: int|
        0 <= i < escaped(text).len() && is_reserved(
            #[trigger] escaped(text)[i],
        ) implies escaped(text)[i] == '&' by {
        lemma_reserved_is_ampersand(text, i);
    }
}

/// Reading an escaped text back gives the text: each entity stands for the
/// character that it replaced, and every other character is in its place.
pub proof fn lemma_unescaped_escaped(text: Seq<char>)
    ensures
        unescaped(escaped(text)) == text,
    decreases text.len(),
{
    if text.len() > 0 {
        let c = text[0];
        let rest = text.drop_first();
        let word = replacement(c);
        let out = escaped(text);
        lemma_escaped_first(text);
        lemma_unescaped_escaped(rest);
        assert(out.skip(word.len() as int) =~= escaped(rest));
        if is_reserved(c) {
            assert(out.subrange(0, word.len() as int) =~= word);
        }
    }
}

/// What is left of a text without its reserved characters is what is left
/// of its escaped form without the entities, in the same order.
pub proof fn lemma_other_characters_kept(text: Seq<char>)
    ensures
        without_entities(escaped(text)) == without_reserved(text),
    decreases text.len(),
{
    let keep = |c: char| !is_reserved(c);
    if text.len() == 0 {
        reveal(Seq::filter);
    } else {
        let c = text[0];
        let rest = text.drop_first();
        let word = replacement(c);
        let out = escaped(text);
        lemma_escaped_first(text);
        lemma_other_characters_kept(rest);
        rest.lemma_filter_prepend(c, keep);
        assert(text =~= seq![c] + rest);
        assert(out.skip(word.len() as int) =~= escaped(rest));
        if is_reserved(c) {
            assert(out.subrange(0, word.len() as int) =~= word);
        }
    }
}

} // verus!
