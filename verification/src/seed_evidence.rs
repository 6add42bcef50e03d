//! Bounds on the evidence text handed to a model when seeding roles.
use vstd::prelude::*;

use crate::text::{chars_of, chars_slice, string_from_chars};

verus! {

/// The longest evidence text kept whole, in characters.
pub const MAX_SEED_TEXT_CHARS: usize = 800;

/// What replaces the omitted end of a long text.
pub open spec fn truncated_marker() -> Seq<char> {
    "…[truncated]"@
}

/// `value` itself when it has at most `max_chars` characters; else its
/// first `max_chars` characters followed by the marker.
pub open spec fn truncated_text(value: Seq<char>, max_chars: nat) -> Seq<char> {
    if value.len() <= max_chars {
        value
    } else {
        value.take(max_chars as int) + truncated_marker()
    }
}

pub fn truncate_seed_evidence_text(value: &str, max_chars: usize) -> (r: String)
    ensures
        r@ == truncated_text(value@, max_chars as nat),
{
    let chars = chars_of(value);
    if chars.len() <= max_chars {
        return string_from_chars(chars.as_slice());
    }
    let mut kept = chars_slice(chars.as_slice(), 0, max_chars);
    let marker = chars_of("…[truncated]");
    let mut i: usize = 0;
    let ghost start = kept@;
    while i < marker.len()
        invariant
            i <= marker@.len(),
            kept@ == start + marker@.take(i as int),
        decreases marker@.len() - i,
    {
        kept.push(marker[i]);
        assert(marker@.take(i + 1) =~= marker@.take(i as int).push(marker@[i as int]));
        i = i + 1;
    }
    assert(marker@.take(i as int) =~= marker@);
    assert(start =~= value@.take(max_chars as int));
    string_from_chars(kept.as_slice())
}

/// A text field of the evidence: absent when missing or empty, else
/// truncated.
pub fn truncated_text_field(value: Option<&str>, max_chars: usize) -> (r: Option<String>)
    ensures
        match value {
            Some(text) => if text@.len() == 0 {
                r is None
            } else {
                r matches Some(t) && t@ == truncated_text(text@, max_chars as nat)
            },
            None => r is None,
        },
{
    match value {
        Some(text) => {
            let chars = chars_of(text);
            if chars.len() == 0 {
                None
            } else {
                Some(truncate_seed_evidence_text(text, max_chars))
            }
        },
        None => None,
    }
}

} // verus!
