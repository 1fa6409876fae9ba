//! Splitting text into lines.
//!
//! A line ends at a line feed. A carriage return just before that line feed
//! belongs to the terminator, not to the line. What follows the last line
//! feed is a line of its own unless it is empty.

use vstd::prelude::*;
use crate::text::{string_of, to_chars};

verus! {

/// The views of a sequence of strings.
pub open spec fn texts(strings: Seq<String>) -> Seq<Seq<char>> {
    Seq::new(strings.len(), |i: int| strings[i]@)
}

/// The position of the first line feed in `text`, or its length if it holds
/// none.
pub open spec fn line_end(text: Seq<char>) -> int
    decreases text.len(),
{
    if text.len() == 0 || text.first() == '\n' {
        0
    } else {
        1 + line_end(text.drop_first())
    }
}

/// `line` without the carriage return at its end, if it has one.
pub open spec fn without_cr(line: Seq<char>) -> Seq<char> {
    if line.len() > 0 && line.last() == '\r' {
        line.drop_last()
    } else {
        line
    }
}

/// The lines of `text`, in order.
pub open spec fn lines_of(text: Seq<char>) -> Seq<Seq<char>>
    decreases text.len(),
{
    let end = line_end(text);
    if text.len() == 0 {
        Seq::empty()
    } else if 0 <= end < text.len() {
        seq![without_cr(text.take(end))] + lines_of(text.skip(end + 1))
    } else {
        seq![text]
    }
}

/// The first line feed of `text` is where no line feed stands before.
pub proof fn lemma_line_end(text: Seq<char>, k: int)
    requires
        0 <= k <= text.len(),
        forall|i: int| 0 <= i < k ==> text[i] != '\n',
        k < text.len() ==> text[k] == '\n',
    ensures
        line_end(text) == k,
    decreases k,
{
    if k > 0 {
        let rest = text.drop_first();
        assert forall|i: int| 0 <= i < k - 1 implies rest[i] != '\n' by {
            assert(rest[i] == text[i + 1]);
        }
        if k < text.len() {
            assert(rest[k - 1] == text[k]);
        }
        lemma_line_end(rest, k - 1);
    }
}

/// A text that is not empty has at least one line.
pub proof fn lemma_lines_nonempty(text: Seq<char>)
    ensures
        text.len() > 0 ==> lines_of(text).len() > 0,
{
}

/// Splits `contents` into its lines.
pub fn split_lines(contents: &str) -> (lines: Vec<String>)
    ensures
        texts(lines@) == lines_of(contents@),
{
    let chars = to_chars(contents);
    let n: usize = chars.len();
    let mut lines: Vec<String> = Vec::new();
    let mut start: usize = 0;
    let mut i: usize = 0;
    proof {
        assert(chars@.skip(0) =~= chars@);
        assert(texts(lines@) + lines_of(chars@) =~= lines_of(chars@));
    }
    while i < n
        invariant
            start <= i <= n,
            n == chars.len(),
            forall|j: int| start <= j < i ==> chars@[j] != '\n',
            lines_of(chars@) == texts(lines@) + lines_of(chars@.skip(start as int)),
        decreases n - i,
    {
        if chars[i] == '\n' {
            let mut end: usize = i;
            if end > start && chars[end - 1] == '\r' {
                end -= 1;
            }
            let line = string_of(&chars, start, end);
            proof {
                let rest = chars@.skip(start as int);
                assert forall|j: int| 0 <= j < i - start implies rest[j] != '\n' by {
                    assert(rest[j] == chars@[start + j]);
                }
                lemma_line_end(rest, i - start);
                assert(rest.skip(i - start + 1) =~= chars@.skip(i + 1));
                let raw = rest.take(i - start);
                assert(raw =~= chars@.subrange(start as int, i as int));
                assert(without_cr(raw) =~= line@);
                assert(texts(lines@.push(line)) =~= texts(lines@).push(line@));
                assert(texts(lines@) + (seq![line@] + lines_of(chars@.skip(i + 1)))
                    =~= texts(lines@).push(line@) + lines_of(chars@.skip(i + 1)));
            }
            lines.push(line);
            start = i + 1;
        }
        i += 1;
    }
    if start < n {
        let line = string_of(&chars, start, n);
        proof {
            let rest = chars@.skip(start as int);
            assert forall|j: int| 0 <= j < n - start implies rest[j] != '\n' by {
                assert(rest[j] == chars@[start + j]);
            }
            lemma_line_end(rest, n - start);
            assert(rest =~= line@);
            assert(texts(lines@.push(line)) =~= texts(lines@).push(line@));
            assert(texts(lines@) + seq![line@] =~= texts(lines@).push(line@));
        }
        lines.push(line);
    } else {
        proof {
            assert(texts(lines@) + Seq::<Seq<char>>::empty() =~= texts(lines@));
        }
    }
    lines
}

} // verus!
