//! From captured bytes to the text that a caller is shown.

use vstd::prelude::*;
use vstd::utf8::{decode_utf8, valid_utf8};

use crate::lines::{keep_last_lines, last_lines};
use crate::sanitize::{sanitized, strip_ansi_escapes};
use crate::text::{decode_lossy, lossy_text};

verus! {

/// The text that captured bytes stand for. Nothing captured is the empty text.
pub open spec fn captured_text(raw: Seq<u8>) -> Seq<char> {
    if raw.len() == 0 {
        Seq::empty()
    } else {
        lossy_text(raw)
    }
}

/// What is shown of `text`: the text sanitized, and of that only the last
/// `max_lines` lines where a limit is given.
pub open spec fn shown_text(text: Seq<char>, max_lines: Option<u32>) -> Seq<char> {
    match max_lines {
        None => sanitized(text),
        Some(count) => last_lines(sanitized(text), count as nat),
    }
}

/// Of the empty text nothing is shown, whatever the limit.
pub proof fn lemma_nothing_shown_of_nothing(max_lines: Option<u32>)
    ensures
        shown_text(Seq::empty(), max_lines) == Seq::<char>::empty(),
        shown_text(captured_text(Seq::empty()), max_lines) == Seq::<char>::empty(),
{
}

/// Sanitizes `text` and, where `max_lines` is given, keeps only that many
/// lines from its end.
pub fn show_text(text: &str, max_lines: Option<u32>) -> (shown: String)
    ensures
        shown@ == shown_text(text@, max_lines),
{
    let cleaned = strip_ansi_escapes(text);
    match max_lines {
        None => cleaned,
        Some(count) => keep_last_lines(cleaned.as_str(), count),
    }
}

/// Decodes captured bytes and shows them as `show_text` does.
pub fn show_output(raw: &[u8], max_lines: Option<u32>) -> (shown: String)
    ensures
        shown@ == shown_text(captured_text(raw@), max_lines),
        valid_utf8(raw@) ==> shown@ == shown_text(decode_utf8(raw@), max_lines),
{
    if raw.len() == 0 {
        let nothing = String::new();
        show_text(nothing.as_str(), max_lines)
    } else {
        let text = decode_lossy(raw);
        show_text(text.as_str(), max_lines)
    }
}

} // verus!
