//! Newline-delimited lines of a text, and the last few of them.

use vstd::prelude::*;
use vstd::string::StringExecFns;

verus! {

/// How many characters stand before the first newline of `text`; its whole
/// length if it holds no newline.
pub open spec fn first_line_len(text: Seq<char>) -> nat
    decreases text.len(),
{
    if text.len() == 0 || text[0] == '\n' {
        0
    } else {
        1 + first_line_len(text.skip(1))
    }
}

/// The lines of `text`, each without its newline. A newline at the very end
/// closes the last line and opens no further one, so the empty text has no
/// line at all.
pub open spec fn lines_of(text: Seq<char>) -> Seq<Seq<char>>
    decreases text.len(),
{
    if text.len() == 0 {
        Seq::empty()
    } else {
        let k = first_line_len(text) as int;
        if k >= text.len() {
            seq![text]
        } else {
            seq![text.take(k)] + lines_of(text.skip(k + 1))
        }
    }
}

/// The lines in order, with one newline between each two.
pub open spec fn join_lines(lines: Seq<Seq<char>>) -> Seq<char>
    decreases lines.len(),
{
    if lines.len() == 0 {
        Seq::empty()
    } else if lines.len() == 1 {
        lines[0]
    } else {
        join_lines(lines.drop_last()) + seq!['\n'] + lines.last()
    }
}

/// The last `count` lines of the sequence, or all of them if there are fewer.
pub open spec fn tail_of(lines: Seq<Seq<char>>, count: nat) -> Seq<Seq<char>> {
    if count >= lines.len() {
        lines
    } else {
        lines.skip(lines.len() - count)
    }
}

/// The last `count` lines of `text`, joined by newlines.
pub open spec fn last_lines(text: Seq<char>, count: nat) -> Seq<char> {
    join_lines(tail_of(lines_of(text), count))
}

/// The text of each line.
pub open spec fn texts(lines: Seq<String>) -> Seq<Seq<char>> {
    Seq::new(lines.len(), |i: int| lines[i]@)
}

/// The first line ends where the first newline stands.
pub proof fn lemma_first_line_len(text: Seq<char>, k: int)
    requires
        0 <= k <= text.len(),
        forall|j: int| 0 <= j < k ==> text[j] != '\n',
        k == text.len() || text[k] == '\n',
    ensures
        first_line_len(text) == k,
    decreases k,
{
    if k > 0 {
        lemma_first_line_len(text.skip(1), k - 1);
    }
}

/// `text` without the newline at its very end, if it has one there.
pub open spec fn without_final_newline(text: Seq<char>) -> Seq<char> {
    if text.len() > 0 && text.last() == '\n' {
        text.drop_last()
    } else {
        text
    }
}

/// Joining with a line in front puts a newline behind it, unless it is alone.
proof fn lemma_join_front(line: Seq<char>, rest: Seq<Seq<char>>)
    ensures
        join_lines(seq![line] + rest) == if rest.len() == 0 {
            line
        } else {
            line + seq!['\n'] + join_lines(rest)
        },
    decreases rest.len(),
{
    let all = seq![line] + rest;
    if rest.len() == 0 {
        assert(all =~= seq![line]);
        assert(join_lines(all) == line);
    } else if rest.len() == 1 {
        assert(all.len() == 2);
        assert(all.drop_last() =~= seq![line]);
        assert(all.last() == rest[0]);
        assert(join_lines(all.drop_last()) == line);
        assert(join_lines(rest) == rest[0]);
        assert(join_lines(all) == line + seq!['\n'] + rest[0]);
    } else {
        assert(all.len() == rest.len() + 1);
        assert(all.drop_last() =~= seq![line] + rest.drop_last());
        assert(all.last() == rest.last());
        lemma_join_front(line, rest.drop_last());
        assert(join_lines(all) == join_lines(all.drop_last()) + seq!['\n'] + all.last());
        assert(join_lines(rest) == join_lines(rest.drop_last()) + seq!['\n'] + rest.last());
        assert(line + seq!['\n'] + join_lines(rest.drop_last()) + seq!['\n'] + rest.last() =~= line
            + seq!['\n'] + (join_lines(rest.drop_last()) + seq!['\n'] + rest.last()));
    }
}

/// Only the empty text has no line.
proof fn lemma_lines_of_nonempty(text: Seq<char>)
    ensures
        lines_of(text).len() == 0 <==> text.len() == 0,
{
}

/// The first line ends within the text, at a newline if before the end,
/// and holds no newline itself.
proof fn lemma_first_line_within(text: Seq<char>)
    ensures
        first_line_len(text) <= text.len(),
        first_line_len(text) < text.len() ==> text[first_line_len(text) as int] == '\n',
        forall|j: int| 0 <= j < first_line_len(text) ==> text[j] != '\n',
    decreases text.len(),
{
    if text.len() > 0 && text[0] != '\n' {
        let rest = text.skip(1);
        lemma_first_line_within(rest);
        assert forall|j: int| 0 <= j < first_line_len(text) implies text[j] != '\n' by {
            if j > 0 {
                assert(text[j] == rest[j - 1]);
            }
        }
    }
}

/// The lines of a text, joined again, are the text without the newline
/// at its very end.
pub proof fn lemma_join_lines_of(text: Seq<char>)
    ensures
        join_lines(lines_of(text)) == without_final_newline(text),
    decreases text.len(),
{
    if text.len() > 0 {
        lemma_first_line_within(text);
        let k = first_line_len(text) as int;
        if k < text.len() {
            let rest = text.skip(k + 1);
            lemma_join_lines_of(rest);
            lemma_lines_of_nonempty(rest);
            lemma_join_front(text.take(k), lines_of(rest));
            assert(lines_of(text) == seq![text.take(k)] + lines_of(rest));
            if rest.len() == 0 {
                assert(text.last() == '\n');
                assert(text.take(k) =~= text.drop_last());
            } else {
                assert(text.last() == rest.last());
                assert(text.take(k) + seq!['\n'] + without_final_newline(rest)
                    =~= without_final_newline(text));
            }
        } else {
            assert(lines_of(text) == seq![text]);
            assert(text.last() != '\n');
        }
    }
}

/// Where no more lines are there than asked for, all of the text is kept
/// but the newline at its very end.
pub proof fn lemma_enough_lines_keep_all(text: Seq<char>, count: nat)
    requires
        count >= lines_of(text).len(),
    ensures
        last_lines(text, count) == without_final_newline(text),
{
    lemma_join_lines_of(text);
}

/// Cuts `text` into its lines.
pub fn split_lines(text: &str) -> (lines: Vec<String>)
    ensures
        texts(lines@) == lines_of(text@),
{
    let mut lines: Vec<String> = Vec::new();
    let mut current = String::new();
    let ghost mut start: int = 0;
    assert(texts(lines@) + lines_of(text@.skip(0)) =~= lines_of(text@)) by {
        assert(text@.skip(0) =~= text@);
    }
    for c in it: text.chars()
        invariant
            it.seq() == text@,
            0 <= start <= it.index(),
            current@ == text@.subrange(start, it.index() as int),
            forall|j: int| start <= j < it.index() ==> text@[j] != '\n',
            lines_of(text@) == texts(lines@) + lines_of(text@.skip(start)),
    {
        let ghost i = it.index() as int;
        if c == '\n' {
            proof {
                let rest = text@.skip(start);
                lemma_first_line_len(rest, i - start);
                assert(rest.take(i - start) =~= current@);
                assert(rest.skip(i - start + 1) =~= text@.skip(i + 1));
                assert(texts(lines@.push(current)) =~= texts(lines@).push(current@));
                assert(texts(lines@).push(current@) + lines_of(text@.skip(i + 1)) =~= texts(lines@)
                    + (seq![current@] + lines_of(text@.skip(i + 1))));
            }
            lines.push(current);
            current = String::new();
            proof {
                start = i + 1;
            }
            assert(current@ =~= text@.subrange(start, i + 1));
        } else {
            current.push(c);
            assert(current@ =~= text@.subrange(start, i + 1));
        }
    }
    if !current.as_str().is_empty() {
        proof {
            let rest = text@.skip(start);
            lemma_first_line_len(rest, rest.len() as int);
            assert(rest =~= current@);
            assert(texts(lines@.push(current)) =~= texts(lines@).push(current@));
        }
        lines.push(current);
    } else {
        assert(text@.skip(start) =~= Seq::<char>::empty());
    }
    assert(texts(lines@) =~= lines_of(text@));
    lines
}

/// Joins the last `count` of the lines by newlines.
pub fn join_last(lines: &Vec<String>, count: usize) -> (out: String)
    ensures
        out@ == join_lines(tail_of(texts(lines@), count as nat)),
{
    let total: usize = lines.len();
    let first: usize = if count >= total {
        0
    } else {
        total - count
    };
    let mut out = String::new();
    let mut i: usize = first;
    assert(texts(lines@).subrange(first as int, first as int) =~= Seq::<Seq<char>>::empty());
    while i < total
        invariant
            first <= i <= total,
            total == lines@.len(),
            out@ == join_lines(texts(lines@).subrange(first as int, i as int)),
        decreases total - i,
    {
        let ghost joined = out@;
        if i > first {
            out.push('\n');
        }
        out.append(lines[i].as_str());
        proof {
            let upto = texts(lines@).subrange(first as int, i + 1);
            assert(upto.drop_last() =~= texts(lines@).subrange(first as int, i as int));
            assert(upto.last() == lines@[i as int]@);
            if i > first {
                assert(out@ =~= joined + seq!['\n'] + lines@[i as int]@);
            } else {
                assert(joined =~= Seq::<char>::empty());
                assert(out@ =~= lines@[i as int]@);
            }
        }
        i += 1;
    }
    assert(texts(lines@).subrange(first as int, total as int) =~= tail_of(
        texts(lines@),
        count as nat,
    ));
    out
}

/// Keeps the last `count` lines of `text`. The newline that ends the last
/// line is not part of the result.
pub fn keep_last_lines(text: &str, count: u32) -> (out: String)
    ensures
        out@ == last_lines(text@, count as nat),
{
    let lines = split_lines(text);
    join_last(&lines, count as usize)
}

} // verus!
