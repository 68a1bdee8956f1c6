//! Removal of terminal control sequences from captured output.
//!
//! The filter knows three kinds of escape sequence and nothing else of the
//! terminal: it tracks no cursor and renders no screen.
//!
//! * CSI: ESC `[`, then everything up to and including the first ASCII letter.
//! * OSC: ESC `]`, then everything up to and including a BEL, or up to and
//!   including an ESC with a `\` directly behind it.
//! * Charset designation: ESC `(` or ESC `)`, then one more character.
//!
//! Carriage returns are dropped wherever they stand outside a sequence.
//! Every other character is copied through, an ESC before any other
//! character than these four included. A sequence that the end of the text
//! cuts short is dropped as far as it goes; an ESC that is the last
//! character of the text counts as one.

use vstd::prelude::*;

verus! {

/// The escape character that introduces every control sequence.
pub const ESC: char = '\u{1b}';

/// The bell character, one of the two terminators of an OSC sequence.
pub const BEL: char = '\u{7}';

/// Whether the character is one of the 52 ASCII letters.
pub open spec fn is_ascii_letter(c: char) -> bool {
    ('a' <= c && c <= 'z') || ('A' <= c && c <= 'Z')
}

/// Whether the character, directly behind an ESC, opens a sequence.
pub open spec fn opens_sequence(c: char) -> bool {
    c == '[' || c == ']' || c == '(' || c == ')'
}

/// Whether the ESC at index `i` stands in front of a character that opens
/// no sequence, so that it is copied through.
pub open spec fn is_kept_escape(text: Seq<char>, i: int) -> bool {
    i + 1 < text.len() && !opens_sequence(text[i + 1])
}

/// Where the CSI sequence whose body starts at `i` ends: just past its
/// first ASCII letter, or at the end of the text if it has none.
pub open spec fn csi_end(text: Seq<char>, i: int) -> int
    decreases text.len() - i,
{
    if i < 0 || i >= text.len() {
        text.len() as int
    } else if is_ascii_letter(text[i]) {
        i + 1
    } else {
        csi_end(text, i + 1)
    }
}

/// Where the OSC sequence whose body starts at `i` ends: just past its first
/// BEL or its first ESC with a `\` directly behind it, whichever comes
/// first, or at the end of the text if it has neither.
pub open spec fn osc_end(text: Seq<char>, i: int) -> int
    decreases text.len() - i,
{
    if i < 0 || i >= text.len() {
        text.len() as int
    } else if text[i] == BEL {
        i + 1
    } else if text[i] == ESC && i + 1 < text.len() && text[i + 1] == '\\' {
        i + 2
    } else {
        osc_end(text, i + 1)
    }
}

/// Where the sequence that the ESC at index `i` introduces ends. Meaningful
/// where the ESC is not one that is kept.
pub open spec fn escape_end(text: Seq<char>, i: int) -> int {
    if i + 1 >= text.len() {
        i + 1
    } else if text[i + 1] == '[' {
        csi_end(text, i + 2)
    } else if text[i + 1] == ']' {
        osc_end(text, i + 2)
    } else if i + 3 <= text.len() {
        i + 3
    } else {
        text.len() as int
    }
}

/// A sequence body ends at or after its start and within the text.
pub proof fn lemma_sequence_end_bounds(text: Seq<char>, i: int)
    requires
        0 <= i <= text.len(),
    ensures
        i <= csi_end(text, i) <= text.len(),
        i <= osc_end(text, i) <= text.len(),
    decreases text.len() - i,
{
    if i < text.len() {
        lemma_sequence_end_bounds(text, i + 1);
    }
}

/// What is left of `text` from index `i` on, read as the start of plain text.
pub open spec fn strip_from(text: Seq<char>, i: int) -> Seq<char>
    decreases text.len() - i,
    via strip_from_decreases
{
    if i < 0 || i >= text.len() {
        Seq::empty()
    } else if text[i] == ESC && !is_kept_escape(text, i) {
        strip_from(text, escape_end(text, i))
    } else if text[i] == '\r' {
        strip_from(text, i + 1)
    } else {
        seq![text[i]] + strip_from(text, i + 1)
    }
}

#[via_fn]
proof fn strip_from_decreases(text: Seq<char>, i: int) {
    if 0 <= i < text.len() && text[i] == ESC && i + 1 < text.len() {
        lemma_sequence_end_bounds(text, i + 2);
    }
}

/// `text` without its control sequences and carriage returns.
pub open spec fn sanitized(text: Seq<char>) -> Seq<char> {
    strip_from(text, 0)
}

/// Text that passes the filter unchanged: it holds no carriage return, and
/// each ESC in it stands in front of a character that opens no sequence.
pub open spec fn is_clean(text: Seq<char>) -> bool {
    forall|k: int|
        0 <= k < text.len() ==> text[k] != '\r' && (text[k] == ESC ==> is_kept_escape(text, k))
}

/// The sanitized text is never longer than the text and holds no carriage
/// return; it holds no ESC either where the text holds none.
pub proof fn lemma_sanitized_is_clean(text: Seq<char>)
    ensures
        sanitized(text).len() <= text.len(),
        forall|k: int| 0 <= k < sanitized(text).len() ==> sanitized(text)[k] != '\r',
        (forall|k: int| 0 <= k < text.len() ==> text[k] != ESC) ==> (forall|k: int|
            0 <= k < sanitized(text).len() ==> sanitized(text)[k] != ESC),
{
    lemma_strip_from_is_clean(text, 0);
}

proof fn lemma_strip_from_is_clean(text: Seq<char>, i: int)
    requires
        0 <= i <= text.len(),
    ensures
        strip_from(text, i).len() <= text.len() - i,
        forall|k: int| 0 <= k < strip_from(text, i).len() ==> strip_from(text, i)[k] != '\r',
        (forall|k: int| 0 <= k < text.len() ==> text[k] != ESC) ==> (forall|k: int|
            0 <= k < strip_from(text, i).len() ==> strip_from(text, i)[k] != ESC),
    decreases text.len() - i,
{
    if i < text.len() {
        if text[i] == ESC && !is_kept_escape(text, i) {
            if i + 1 < text.len() {
                lemma_sequence_end_bounds(text, i + 2);
            }
            lemma_strip_from_is_clean(text, escape_end(text, i));
        } else {
            lemma_strip_from_is_clean(text, i + 1);
        }
    }
}

/// Clean text passes unchanged.
pub proof fn lemma_clean_text_unchanged(text: Seq<char>)
    requires
        is_clean(text),
    ensures
        sanitized(text) == text,
{
    lemma_clean_suffix_unchanged(text, 0);
    assert(text.skip(0) =~= text);
}

proof fn lemma_clean_suffix_unchanged(text: Seq<char>, i: int)
    requires
        0 <= i <= text.len(),
        is_clean(text),
    ensures
        strip_from(text, i) == text.skip(i),
    decreases text.len() - i,
{
    if i < text.len() {
        lemma_clean_suffix_unchanged(text, i + 1);
        assert(seq![text[i]] + text.skip(i + 1) =~= text.skip(i));
    } else {
        assert(text.skip(i) =~= Seq::<char>::empty());
    }
}

/// Sanitizing text without an ESC twice gives what sanitizing it once gives.
pub proof fn lemma_sanitized_idempotent(text: Seq<char>)
    requires
        forall|k: int| 0 <= k < text.len() ==> text[k] != ESC,
    ensures
        sanitized(sanitized(text)) == sanitized(text),
{
    lemma_sanitized_is_clean(text);
    lemma_clean_text_unchanged(sanitized(text));
}

/// A lone ESC in front of a character that opens no sequence stays where it
/// is, between what is left of the text on either side of it.
pub proof fn lemma_lone_escape_kept(before: Seq<char>, after: Seq<char>)
    requires
        is_clean(before),
        forall|k: int| 0 <= k < before.len() ==> before[k] != ESC,
        after.len() > 0,
        !opens_sequence(after[0]),
    ensures
        sanitized(before + seq![ESC] + after) == before + seq![ESC] + sanitized(after),
{
    let whole = before + seq![ESC] + after;
    let n = before.len() as int;
    lemma_prefix_kept(before, seq![ESC] + after, 0);
    assert(before + (seq![ESC] + after) =~= whole);
    assert(before.skip(0) =~= before);
    assert(whole[n] == ESC);
    assert(whole[n + 1] == after[0]);
    lemma_strip_shift(whole, after, n + 1, 0);
    assert(strip_from(whole, n) == seq![ESC] + strip_from(whole, n + 1));
    assert(before + (seq![ESC] + sanitized(after)) =~= before + seq![ESC] + sanitized(after));
}

/// Where a sequence body ends depends only on the text from its start on.
proof fn lemma_shift_ends(whole: Seq<char>, tail: Seq<char>, offset: int, i: int)
    requires
        0 <= offset,
        0 <= i <= tail.len(),
        whole.len() == offset + tail.len(),
        forall|k: int| 0 <= k < tail.len() ==> whole[offset + k] == tail[k],
    ensures
        csi_end(whole, offset + i) == offset + csi_end(tail, i),
        osc_end(whole, offset + i) == offset + osc_end(tail, i),
    decreases tail.len() - i,
{
    if i < tail.len() {
        lemma_shift_ends(whole, tail, offset, i + 1);
        assert(whole[offset + i] == tail[i]);
        if i + 1 < tail.len() {
            assert(whole[offset + i + 1] == tail[i + 1]);
        }
    }
}

/// What is left from an index on depends only on the text from there on.
proof fn lemma_strip_shift(whole: Seq<char>, tail: Seq<char>, offset: int, i: int)
    requires
        0 <= offset,
        0 <= i <= tail.len(),
        whole.len() == offset + tail.len(),
        forall|k: int| 0 <= k < tail.len() ==> whole[offset + k] == tail[k],
    ensures
        strip_from(whole, offset + i) == strip_from(tail, i),
    decreases tail.len() - i,
{
    if i < tail.len() {
        assert(whole[offset + i] == tail[i]);
        if i + 1 < tail.len() {
            assert(whole[offset + i + 1] == tail[i + 1]);
        }
        if tail[i] == ESC && !is_kept_escape(tail, i) {
            if i + 1 < tail.len() {
                lemma_sequence_end_bounds(tail, i + 2);
                lemma_shift_ends(whole, tail, offset, i + 2);
            }
            lemma_strip_shift(whole, tail, offset, escape_end(tail, i));
        } else {
            lemma_strip_shift(whole, tail, offset, i + 1);
        }
    }
}

/// An escape introducer that the end of text without an ESC or a carriage
/// return cuts short is dropped, and the text before it is kept.
pub proof fn lemma_truncated_introducer_dropped(text: Seq<char>)
    requires
        forall|k: int| 0 <= k < text.len() ==> text[k] != ESC && text[k] != '\r',
    ensures
        sanitized(text + seq![ESC]) == text,
        sanitized(text + seq![ESC, '[']) == text,
        sanitized(text + seq![ESC, ']']) == text,
        sanitized(text + seq![ESC, '(']) == text,
        sanitized(text + seq![ESC, ')']) == text,
{
    lemma_prefix_kept(text, seq![ESC], 0);
    lemma_prefix_kept(text, seq![ESC, '['], 0);
    lemma_prefix_kept(text, seq![ESC, ']'], 0);
    lemma_prefix_kept(text, seq![ESC, '('], 0);
    lemma_prefix_kept(text, seq![ESC, ')'], 0);
    assert(text.skip(0) =~= text);
    let n = text.len() as int;
    lemma_cut_short(text + seq![ESC], n);
    lemma_cut_short(text + seq![ESC, '['], n);
    lemma_cut_short(text + seq![ESC, ']'], n);
    lemma_cut_short(text + seq![ESC, '('], n);
    lemma_cut_short(text + seq![ESC, ')'], n);
}

/// A sequence that reaches the end of the text leaves nothing behind.
proof fn lemma_cut_short(text: Seq<char>, i: int)
    requires
        0 <= i < text.len(),
        text[i] == ESC,
        !is_kept_escape(text, i),
        escape_end(text, i) >= text.len(),
    ensures
        strip_from(text, i) == Seq::<char>::empty(),
{
    assert(strip_from(text, escape_end(text, i)) =~= Seq::<char>::empty());
}

/// Text without an ESC or a carriage return is kept in front of whatever
/// follows it.
proof fn lemma_prefix_kept(text: Seq<char>, rest: Seq<char>, i: int)
    requires
        0 <= i <= text.len(),
        forall|k: int| i <= k < text.len() ==> text[k] != ESC && text[k] != '\r',
    ensures
        strip_from(text + rest, i) == text.skip(i) + strip_from(text + rest, text.len() as int),
    decreases text.len() - i,
{
    let whole = text + rest;
    if i < text.len() {
        lemma_prefix_kept(text, rest, i + 1);
        assert(whole[i] == text[i]);
        assert(seq![text[i]] + (text.skip(i + 1) + strip_from(whole, text.len() as int))
            =~= text.skip(i) + strip_from(whole, text.len() as int));
    } else {
        assert(text.skip(i) + strip_from(whole, text.len() as int) =~= strip_from(whole, i));
    }
}

/// Where the filter stands between two characters.
enum Mode {
    /// In plain text.
    Text,
    /// Directly behind an ESC that stood in plain text and is held back.
    Escape,
    /// Inside the body of a CSI sequence.
    Csi,
    /// Inside the body of an OSC sequence.
    Osc,
    /// Inside the body of an OSC sequence, directly behind an ESC.
    OscEscape,
    /// Before the one character that a charset designation takes.
    Charset,
}

/// What the filter has yet to emit when it stands before index `i` in `mode`.
spec fn pending(text: Seq<char>, i: int, mode: Mode) -> Seq<char> {
    match mode {
        Mode::Text => strip_from(text, i),
        Mode::Escape => strip_from(text, i - 1),
        Mode::Csi => strip_from(text, csi_end(text, i)),
        Mode::Osc => strip_from(text, osc_end(text, i)),
        Mode::OscEscape => strip_from(text, osc_end(text, i - 1)),
        Mode::Charset => strip_from(
            text,
            if i + 1 <= text.len() {
                i + 1
            } else {
                text.len() as int
            },
        ),
    }
}

fn is_letter(c: char) -> (letter: bool)
    ensures
        letter == is_ascii_letter(c),
{
    ('a' <= c && c <= 'z') || ('A' <= c && c <= 'Z')
}

/// Strips control sequences and carriage returns from `input` in one pass.
pub fn strip_ansi_escapes(input: &str) -> (result: String)
    ensures
        result@ == sanitized(input@),
{
    let mut result = String::new();
    let mut mode = Mode::Text;
    for c in it: input.chars()
        invariant
            it.seq() == input@,
            sanitized(input@) == result@ + pending(input@, it.index() as int, mode),
            mode is Escape || mode is OscEscape ==> it.index() >= 1 && input@[it.index() - 1]
                == ESC,
    {
        let ghost text = input@;
        let ghost i = it.index() as int;
        let mut plain = false;
        match mode {
            Mode::Text => {
                plain = true;
            },
            Mode::Escape => {
                if c == '[' {
                    mode = Mode::Csi;
                } else if c == ']' {
                    mode = Mode::Osc;
                } else if c == '(' || c == ')' {
                    mode = Mode::Charset;
                } else {
                    let ghost emitted = result@;
                    result.push(ESC);
                    assert(result@ + strip_from(text, i) =~= emitted + strip_from(text, i - 1));
                    mode = Mode::Text;
                    plain = true;
                }
            },
            Mode::Csi => {
                if is_letter(c) {
                    mode = Mode::Text;
                }
            },
            Mode::Osc => {
                if c == BEL {
                    mode = Mode::Text;
                } else if c == ESC {
                    mode = Mode::OscEscape;
                }
            },
            Mode::OscEscape => {
                if c == '\\' || c == BEL {
                    mode = Mode::Text;
                } else if c != ESC {
                    mode = Mode::Osc;
                }
            },
            Mode::Charset => {
                mode = Mode::Text;
            },
        }
        assert(sanitized(text) == result@ + if plain {
            strip_from(text, i)
        } else {
            pending(text, i + 1, mode)
        });
        if plain {
            if c == ESC {
                mode = Mode::Escape;
            } else if c != '\r' {
                let ghost emitted = result@;
                result.push(c);
                assert(result@ + strip_from(text, i + 1) =~= emitted + strip_from(text, i));
            }
        }
    }
    proof {
        let n = input@.len() as int;
        if mode is Escape {
            assert(strip_from(input@, escape_end(input@, n - 1)) =~= Seq::<char>::empty());
        }
        if mode is OscEscape {
            assert(osc_end(input@, n) == n);
            assert(osc_end(input@, n - 1) == n);
        }
        assert(pending(input@, n, mode) =~= Seq::<char>::empty());
    }
    result
}

} // verus!
