//! Scanning the lines of one file for a query.

use vstd::prelude::*;
use vstd::utf8::{decode_utf8, valid_utf8};
use crate::lines::{lines_of, split_lines, texts};
use crate::render::{MatchRecord, MatchView, Style, record_views, rendered_record};
use crate::text::{chars_contain, decode, is_whitespace, occurs, to_chars, trim, trimmed};

verus! {

/// The record of line `number` of `path`, whose text is `line`.
pub open spec fn hit(path: Seq<char>, number: nat, line: Seq<char>) -> MatchView {
    MatchView { path, line_number: number, content: trimmed(line) }
}

/// The records of the lines among `lines` that contain `query`, in the
/// order of the lines, each with the position of its line counted from 1.
pub open spec fn hits(path: Seq<char>, lines: Seq<Seq<char>>, query: Seq<char>) -> Seq<MatchView>
    decreases lines.len(),
{
    if lines.len() == 0 {
        Seq::empty()
    } else {
        let before = hits(path, lines.drop_last(), query);
        if occurs(lines.last(), query) {
            before.push(hit(path, lines.len(), lines.last()))
        } else {
            before
        }
    }
}

/// The display lines of `records`.
pub open spec fn display_lines(records: Seq<MatchView>, style: Style) -> Seq<Seq<char>> {
    Seq::new(records.len(), |i: int| rendered_record(records[i], style))
}

/// The line that a record stems from: the record at position `k` is the
/// record of a line that contains the query, and its line number is the
/// position of that line in the file, counted from 1.
pub proof fn lemma_hit_origin(path: Seq<char>, lines: Seq<Seq<char>>, query: Seq<char>, k: int) -> (i:
    int)
    requires
        0 <= k < hits(path, lines, query).len(),
    ensures
        k <= i < lines.len(),
        occurs(lines[i], query),
        hits(path, lines, query)[k] == hit(path, (i + 1) as nat, lines[i]),
    decreases lines.len(),
{
    let init = lines.drop_last();
    let before = hits(path, init, query);
    if k < before.len() {
        let i = lemma_hit_origin(path, init, query, k);
        assert(init[i] == lines[i]);
        i
    } else {
        if before.len() > 0 {
            let last = lemma_hit_origin(path, init, query, before.len() - 1);
        }
        lines.len() - 1
    }
}

/// The record of a line: every line that contains the query has a record,
/// with the position of the line, counted from 1, as its line number.
pub proof fn lemma_line_hit(path: Seq<char>, lines: Seq<Seq<char>>, query: Seq<char>, i: int) -> (k:
    int)
    requires
        0 <= i < lines.len(),
        occurs(lines[i], query),
    ensures
        0 <= k < hits(path, lines, query).len(),
        hits(path, lines, query)[k] == hit(path, (i + 1) as nat, lines[i]),
    decreases lines.len(),
{
    let init = lines.drop_last();
    let before = hits(path, init, query);
    if i == lines.len() - 1 {
        before.len() as int
    } else {
        assert(init[i] == lines[i]);
        lemma_line_hit(path, init, query, i)
    }
}

/// Records come in the order of their lines: a later record has a
/// greater line number.
pub proof fn lemma_hits_ascending(
    path: Seq<char>,
    lines: Seq<Seq<char>>,
    query: Seq<char>,
    j: int,
    k: int,
)
    requires
        0 <= j < k < hits(path, lines, query).len(),
    ensures
        hits(path, lines, query)[j].line_number < hits(path, lines, query)[k].line_number,
    decreases lines.len(),
{
    let init = lines.drop_last();
    let before = hits(path, init, query);
    if k < before.len() {
        lemma_hits_ascending(path, init, query, j, k);
    } else {
        let i = lemma_hit_origin(path, init, query, j);
    }
}

/// A file has no record exactly if none of its lines contains the query.
pub proof fn lemma_no_match_no_hits(path: Seq<char>, lines: Seq<Seq<char>>, query: Seq<char>)
    ensures
        hits(path, lines, query).len() == 0 <==> forall|i: int|
            0 <= i < lines.len() ==> !occurs(#[trigger] lines[i], query),
{
    if hits(path, lines, query).len() > 0 {
        let i = lemma_hit_origin(path, lines, query, 0);
        assert(occurs(lines[i], query));
    } else {
        assert forall|i: int| 0 <= i < lines.len() implies !occurs(#[trigger] lines[i], query) by {
            if occurs(lines[i], query) {
                let k = lemma_line_hit(path, lines, query, i);
            }
        }
    }
}

/// The empty query matches every line: there is one record for each line,
/// in order.
pub proof fn lemma_empty_query_hits_all(path: Seq<char>, lines: Seq<Seq<char>>)
    ensures
        hits(path, lines, Seq::<char>::empty()).len() == lines.len(),
        forall|i: int|
            0 <= i < lines.len() ==> #[trigger] hits(path, lines, Seq::<char>::empty())[i] == hit(
                path,
                (i + 1) as nat,
                lines[i],
            ),
    decreases lines.len(),
{
    if lines.len() > 0 {
        let init = lines.drop_last();
        lemma_empty_query_hits_all(path, init);
        crate::text::lemma_empty_occurs(lines.last());
        assert forall|i: int| 0 <= i < lines.len() implies #[trigger] hits(
            path,
            lines,
            Seq::<char>::empty(),
        )[i] == hit(path, (i + 1) as nat, lines[i]) by {
            if i < init.len() {
                assert(init[i] == lines[i]);
            }
        }
    }
}

/// The content of a record never begins or ends with white space.
pub proof fn lemma_hit_content_trimmed(
    path: Seq<char>,
    lines: Seq<Seq<char>>,
    query: Seq<char>,
    k: int,
)
    requires
        0 <= k < hits(path, lines, query).len(),
    ensures
        ({
            let content = hits(path, lines, query)[k].content;
            content.len() > 0 ==> !is_whitespace(content.first()) && !is_whitespace(content.last())
        }),
{
    let i = lemma_hit_origin(path, lines, query, k);
    crate::text::lemma_trimmed_edges(lines[i]);
}

/// Searches `lines`, the lines of the file displayed as `display`, for
/// `query`, and returns one record for each line that contains it.
pub fn search_lines(display: &str, lines: &Vec<String>, query: &str) -> (found: Vec<MatchRecord>)
    ensures
        record_views(found@) == hits(display@, texts(lines@), query@),
        forall|k: int| 0 <= k < found.len() ==> found[k].wf(),
{
    let needle = to_chars(query);
    let mut found: Vec<MatchRecord> = Vec::new();
    let n: usize = lines.len();
    let mut i: usize = 0;
    proof {
        assert(texts(lines@).take(0) =~= Seq::<Seq<char>>::empty());
        assert(record_views(found@) =~= Seq::<MatchView>::empty());
    }
    while i < n
        invariant
            i <= n,
            n == lines.len(),
            needle@ == query@,
            record_views(found@) == hits(display@, texts(lines@).take(i as int), query@),
            forall|k: int| 0 <= k < found.len() ==> found[k].wf(),
        decreases n - i,
    {
        let line: &str = lines[i].as_str();
        let hay = to_chars(line);
        proof {
            let seen = texts(lines@).take(i + 1);
            assert(seen.drop_last() =~= texts(lines@).take(i as int));
            assert(seen.last() == line@);
        }
        if chars_contain(&hay, &needle) {
            let record = MatchRecord {
                path: String::from_str(display),
                line_number: i + 1,
                content: String::from_str(trim(line)),
            };
            proof {
                crate::text::lemma_trimmed_idempotent(line@);
                assert(record@ == hit(display@, (i + 1) as nat, line@));
                assert(record_views(found@.push(record)) =~= record_views(found@).push(record@));
            }
            found.push(record);
        }
        i += 1;
    }
    proof {
        assert(texts(lines@).take(n as int) =~= texts(lines@));
    }
    found
}

/// Renders the display line of each record.
pub fn render_all(records: &Vec<MatchRecord>, style: Style) -> (out: Vec<String>)
    ensures
        texts(out@) == display_lines(record_views(records@), style),
{
    let mut out: Vec<String> = Vec::new();
    let n: usize = records.len();
    let mut i: usize = 0;
    while i < n
        invariant
            i <= n,
            n == records.len(),
            out.len() == i,
            forall|k: int| 0 <= k < i ==> out@[k]@ == rendered_record(records@[k]@, style),
        decreases n - i,
    {
        out.push(records[i].render(style));
        i += 1;
    }
    proof {
        assert(texts(out@) =~= display_lines(record_views(records@), style));
    }
    out
}

/// The display lines, in colour, of the lines of `text` that contain
/// `query`.
pub open spec fn text_output(display: Seq<char>, text: Seq<char>, query: Seq<char>) -> Seq<
    Seq<char>,
> {
    display_lines(hits(display, lines_of(text), query), Style::Ansi)
}

/// Searches `text`, the contents of the file displayed as `display`, for
/// `query`, and returns the display line of each line that contains it.
pub fn search_in_text(display: &str, text: &str, query: &str) -> (out: Vec<String>)
    ensures
        texts(out@) == text_output(display@, text@, query@),
{
    let lines = split_lines(text);
    let found = search_lines(display, &lines, query);
    render_all(&found, Style::Ansi)
}

/// Why a file could not be scanned.
#[derive(Clone, Copy, Debug, PartialEq, Eq, Structural)]
pub enum ScanError {
    /// The contents of the file are not valid UTF-8 text.
    InvalidText,
}

/// What scanning a file gives. A file that could not be read has no
/// contents and gives no lines; contents that are not valid UTF-8 are an
/// error; other contents give the display lines of their matching lines.
pub open spec fn file_output(
    display: Seq<char>,
    contents: Option<Seq<u8>>,
    query: Seq<char>,
) -> Result<Seq<Seq<char>>, ScanError> {
    match contents {
        None => Ok(Seq::empty()),
        Some(bytes) => if valid_utf8(bytes) {
            Ok(text_output(display, decode_utf8(bytes), query))
        } else {
            Err(ScanError::InvalidText)
        },
    }
}

/// The bytes behind an optional slice.
pub open spec fn bytes_of(contents: Option<&[u8]>) -> Option<Seq<u8>> {
    match contents {
        None => None,
        Some(bytes) => Some(bytes@),
    }
}

/// Whether `out` is the Rust value of the outcome `expected`.
pub open spec fn is_outcome(
    out: Result<Vec<String>, ScanError>,
    expected: Result<Seq<Seq<char>>, ScanError>,
) -> bool {
    match out {
        Ok(lines) => expected == Ok::<Seq<Seq<char>>, ScanError>(texts(lines@)),
        Err(error) => expected == Err::<Seq<Seq<char>>, ScanError>(error),
    }
}

/// Scans the file displayed as `display` for `query`. `contents` are the
/// bytes of the file, or `None` if the file could not be read.
pub fn search_in_file(display: &str, contents: Option<&[u8]>, query: &str) -> (out: Result<
    Vec<String>,
    ScanError,
>)
    ensures
        is_outcome(out, file_output(display@, bytes_of(contents), query@)),
{
    match contents {
        None => {
            let lines: Vec<String> = Vec::new();
            proof {
                assert(texts(lines@) =~= Seq::<Seq<char>>::empty());
            }
            Ok(lines)
        },
        Some(bytes) => match decode(bytes) {
            Some(text) => Ok(search_in_text(display, text, query)),
            None => Err(ScanError::InvalidText),
        },
    }
}

} // verus!
