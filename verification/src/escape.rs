//! The escaper: one scan for reserved characters, and, where one is found,
//! one pass that copies the runs between them and writes their entities.

use vstd::prelude::*;
use vstd::string::*;
use vstd::utf8::*;
use crate::encoding::{
    byte_offset, is_reserved_byte, lemma_byte_offset_monotone, lemma_byte_offset_step,
    lemma_bytes_between, lemma_encode_injective, lemma_offset_is_char_boundary,
    lemma_reserved_byte_of_char, lemma_reserved_char_of_byte,
};
use crate::entity::{entity_for, is_reserved};
use crate::laws::{
    lemma_escaped_byte_len, lemma_escaped_concat, lemma_escaped_len, lemma_escaped_safe,
    lemma_escaped_single, lemma_no_bare_reserved,
};
use crate::model::{entity_at, escaped, has_reserved};

verus! {

/// The capacity that the output buffer starts with: the input's length in
/// bytes and a tenth more, but never more than a buffer can have.
pub open spec fn capacity_for(len: usize) -> int {
    if len + len / 10 <= isize::MAX {
        len + len / 10
    } else {
        isize::MAX as int
    }
}

/// The detection pass: scans the bytes of `text` once and says whether a
/// reserved character occurs in it.
pub fn needs_escape(text: &str) -> (found: bool)
    ensures
        found == has_reserved(text@),
{
    let bytes = text.as_bytes();
    let mut i: usize = 0;
    while i < bytes.len()
        invariant
            i <= bytes.len(),
            bytes@ == encode_utf8(text@),
            forall|j: int| 0 <= j < i ==> !is_reserved_byte(#[trigger] bytes@[j]),
        decreases bytes.len() - i,
    {
        let b = bytes[i];
        // The bytes of `"`, `&`, `'`, `<` and `>`.
        if b == 0x22 || b == 0x26 || b == 0x27 || b == 0x3c || b == 0x3e {
            proof {
                lemma_reserved_char_of_byte(text@, i as int);
            }
            return true;
        }
        i = i + 1;
    }
    proof {
        if has_reserved(text@) {
            let k = choose|k: int| 0 <= k < text@.len() && is_reserved(#[trigger] text@[k]);
            lemma_reserved_byte_of_char(text@, k);
        }
    }
    false
}

/// The capacity that the output buffer starts with for an input of `len` bytes.
pub fn capacity_hint(len: usize) -> (capacity: usize)
    ensures
        capacity == capacity_for(len),
{
    let extra = len / 10;
    let limit = isize::MAX as usize;
    if len <= limit && extra <= limit - len {
        len + extra
    } else {
        limit
    }
}

/// The characters of `text` from index `i` up to index `j`, cut out by the
/// byte offsets `from` and `to` at which those two characters start.
fn run_between<'a>(
    text: &'a str,
    from: usize,
    to: usize,
    Ghost(i): Ghost<int>,
    Ghost(j): Ghost<int>,
) -> (run: &'a str)
    requires
        0 <= i <= j <= text@.len(),
        from == byte_offset(text@, i),
        to == byte_offset(text@, j),
    ensures
        run@ == text@.subrange(i, j),
{
    proof {
        lemma_offset_is_char_boundary(text@, j);
        lemma_bytes_between(text@, 0, j);
    }
    let (head, _) = text.split_at(to);
    proof {
        lemma_encode_injective(head@, text@.take(j));
        lemma_offset_is_char_boundary(head@, i);
        lemma_bytes_between(head@, i, j);
        lemma_byte_offset_monotone(head@, j, j);
        assert(head@.take(i) =~= text@.take(i));
        assert(head@.subrange(i, j) =~= text@.subrange(i, j));
    }
    let (_, run) = head.split_at(from);
    proof {
        lemma_encode_injective(run@, text@.subrange(i, j));
    }
    run
}

/// The substitution pass: builds the escaped form of `text` in a new
/// string, copying each run of other characters whole and writing the
/// entity of each reserved character.
fn escape_runs(text: &str) -> (html: String)
    ensures
        html@ == escaped(text@),
{
    let total = text.as_bytes().len();
    let mut html = String::with_capacity(capacity_hint(total));
    let mut last_index: usize = 0;
    let mut index: usize = 0;
    let ghost mut flushed: int = 0;

    for c in it: text.chars()
        invariant
            it.seq() == text@,
            total == encode_utf8(text@).len(),
            0 <= flushed <= it.index(),
            index == byte_offset(text@, it.index()),
            last_index == byte_offset(text@, flushed),
            html@ == escaped(text@.take(flushed)),
            forall|j: int| flushed <= j < it.index() ==> !is_reserved(#[trigger] text@[j]),
    {
        let ghost k = it.index();
        proof {
            lemma_byte_offset_step(text@, k);
        }
        let width = c.len_utf8();
        if let Some(entity) = entity_for(c) {
            if last_index != index {
                let run = run_between(text, last_index, index, Ghost(flushed), Ghost(k));
                html.append(run);
            }
            html.append(entity);
            last_index = index + width;
            proof {
                let head = text@.take(flushed);
                let run = text@.subrange(flushed, k);
                if flushed < k {
                    lemma_byte_offset_monotone(text@, flushed, k);
                }
                lemma_escaped_safe(run);
                lemma_escaped_single(c);
                lemma_escaped_concat(head, run);
                lemma_escaped_concat(head + run, seq![c]);
                assert(text@.take(k + 1) =~= head + run + seq![c]);
                flushed = k + 1;
            }
        }
        index = index + width;
    }
    proof {
        lemma_byte_offset_monotone(text@, flushed, text@.len() as int);
    }
    if last_index < total {
        let run = run_between(text, last_index, total, Ghost(flushed), Ghost(text@.len() as int));
        html.append(run);
    }
    proof {
        let head = text@.take(flushed);
        let run = text@.subrange(flushed, text@.len() as int);
        lemma_escaped_safe(run);
        lemma_escaped_concat(head, run);
        assert(text@ =~= head + run);
    }
    html
}

/// Escapes `string` for use in markup: every `"`, `&`, `'`, `<` and `>`
/// becomes its entity, and every other character stays as it is, in place.
/// A string without reserved characters is handed back as it came.
pub fn escape_html(string: String) -> (html: String)
    ensures
        html@ == escaped(string@),
        !has_reserved(string@) ==> html@ == string@,
        html@.len() >= string@.len(),
        encode_utf8(html@).len() >= encode_utf8(string@).len(),
        forall|i: int| 0 <= i < html@.len() && #[trigger] html@[i] == '&' ==> entity_at(html@, i),
        forall|i: int| 0 <= i < html@.len() && is_reserved(#[trigger] html@[i]) ==> html@[i] == '&',
{
    proof {
        lemma_escaped_len(string@);
        lemma_escaped_byte_len(string@);
        lemma_no_bare_reserved(string@);
    }
    if !needs_escape(string.as_str()) {
        proof {
            lemma_escaped_safe(string@);
        }
        return string;
    }
    escape_runs(string.as_str())
}

} // verus!
