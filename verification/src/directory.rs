//! Scanning the entries of one directory.
//!
//! A listing holds the direct children of a directory in the order in which
//! they were found. Only candidates are scanned. Their display lines come
//! in the order of the listing and, within a file, in the order of the
//! lines. A file that could not be read gives no lines. Contents that are
//! not valid text end the scan: the lines found so far stand, and nothing
//! after the failing entry is scanned.

use vstd::prelude::*;
use crate::lines::texts;
use crate::path::{candidate, is_candidate};
use crate::scan::{ScanError, file_output, search_in_file};

verus! {

/// One direct child of a directory.
#[derive(Clone, Debug)]
pub struct Entry {
    /// The path of the entry, as it is displayed.
    pub path: String,
    /// The bytes of the file, or `None` if it could not be read.
    pub contents: Option<Vec<u8>>,
}

/// What an [`Entry`] stands for.
pub struct EntryView {
    pub path: Seq<char>,
    pub contents: Option<Seq<u8>>,
}

impl View for Entry {
    type V = EntryView;

    open spec fn view(&self) -> EntryView {
        EntryView {
            path: self.path@,
            contents: match self.contents {
                None => None,
                Some(bytes) => Some(bytes@),
            },
        }
    }
}

/// The views of a sequence of entries.
pub open spec fn entry_views(entries: Seq<Entry>) -> Seq<EntryView> {
    Seq::new(entries.len(), |i: int| entries[i]@)
}

/// The result of a scan.
#[derive(Clone, Debug)]
pub struct Scan {
    /// The lines to display, in order.
    pub lines: Vec<String>,
    /// The position in the listing of the entry whose contents were not
    /// valid text, if the scan ended at one.
    pub failed_at: Option<usize>,
}

/// What a [`Scan`] stands for.
pub struct ScanView {
    pub lines: Seq<Seq<char>>,
    pub failed_at: Option<int>,
}

impl View for Scan {
    type V = ScanView;

    open spec fn view(&self) -> ScanView {
        ScanView {
            lines: texts(self.lines@),
            failed_at: match self.failed_at {
                None => None,
                Some(at) => Some(at as int),
            },
        }
    }
}

/// The result of scanning `entries` for `query`.
pub open spec fn scanned(entries: Seq<EntryView>, query: Seq<char>) -> ScanView
    decreases entries.len(),
{
    if entries.len() == 0 {
        ScanView { lines: Seq::empty(), failed_at: None }
    } else {
        let before = scanned(entries.drop_last(), query);
        let entry = entries.last();
        if before.failed_at is Some || !candidate(entry.path) {
            before
        } else {
            match file_output(entry.path, entry.contents, query) {
                Ok(lines) => ScanView { lines: before.lines + lines, failed_at: None },
                Err(_) => ScanView { lines: before.lines, failed_at: Some(entries.len() - 1) },
            }
        }
    }
}

/// The line that reports a directory that could not be read.
pub open spec fn directory_error() -> Seq<char> {
    "Error: An error read while loading the directory"@
}

/// The result of scanning a directory for `query`. A directory that could
/// not be read has no listing and gives one line, which says so.
pub open spec fn reported(listing: Option<Seq<EntryView>>, query: Seq<char>) -> ScanView {
    match listing {
        None => ScanView { lines: seq![directory_error()], failed_at: None },
        Some(entries) => scanned(entries, query),
    }
}

/// After a failure nothing more is scanned: the result of the whole
/// listing is the result of its part up to the failing entry.
pub proof fn lemma_failure_ends_scan(entries: Seq<EntryView>, query: Seq<char>, upto: int)
    requires
        0 <= upto <= entries.len(),
        scanned(entries.take(upto), query).failed_at is Some,
    ensures
        scanned(entries, query) == scanned(entries.take(upto), query),
    decreases entries.len(),
{
    if upto == entries.len() {
        assert(entries.take(upto) =~= entries);
    } else {
        let init = entries.drop_last();
        assert(init.take(upto) =~= entries.take(upto));
        lemma_failure_ends_scan(init, query, upto);
    }
}

/// An entry that is no candidate adds nothing: without it the scan gives
/// the same lines, and fails or not as it did with it.
pub proof fn lemma_non_candidate_ignored(entries: Seq<EntryView>, query: Seq<char>, at: int)
    requires
        0 <= at < entries.len(),
        !candidate(entries[at].path),
    ensures
        scanned(entries.remove(at), query).lines == scanned(entries, query).lines,
        scanned(entries.remove(at), query).failed_at is Some <==> scanned(
            entries,
            query,
        ).failed_at is Some,
    decreases entries.len(),
{
    let init = entries.drop_last();
    if at == entries.len() - 1 {
        assert(entries.remove(at) =~= init);
    } else {
        let without = entries.remove(at);
        assert(without.drop_last() =~= init.remove(at));
        assert(without.last() == entries.last());
        assert(init[at] == entries[at]);
        lemma_non_candidate_ignored(init, query, at);
    }
}

/// A scan depends on nothing but the listing and the query: two scans of
/// the same listing for the same query give the same result.
pub proof fn lemma_scan_repeatable(
    first: ScanView,
    second: ScanView,
    listing: Option<Seq<EntryView>>,
    query: Seq<char>,
)
    requires
        first == reported(listing, query),
        second == reported(listing, query),
    ensures
        first == second,
{
}

/// Scans the entries of a listing for `query`.
pub fn scan_entries(entries: &Vec<Entry>, query: &str) -> (scan: Scan)
    ensures
        scan@ == scanned(entry_views(entries@), query@),
{
    let mut lines: Vec<String> = Vec::new();
    let mut failed_at: Option<usize> = None;
    let n: usize = entries.len();
    let mut i: usize = 0;
    proof {
        assert(entry_views(entries@).take(0) =~= Seq::<EntryView>::empty());
        assert(texts(lines@) =~= Seq::<Seq<char>>::empty());
    }
    while i < n && failed_at.is_none()
        invariant
            i <= n,
            n == entries.len(),
            (Scan { lines, failed_at })@ == scanned(entry_views(entries@).take(i as int), query@),
        decreases n - i,
    {
        let entry = &entries[i];
        proof {
            let seen = entry_views(entries@).take(i + 1);
            assert(seen.drop_last() =~= entry_views(entries@).take(i as int));
            assert(seen.last() == entry@);
        }
        if is_candidate(entry.path.as_str()) {
            let found = match &entry.contents {
                None => search_in_file(entry.path.as_str(), None, query),
                Some(bytes) => search_in_file(entry.path.as_str(), Some(bytes.as_slice()), query),
            };
            match found {
                Ok(mut more) => {
                    let ghost before = texts(lines@);
                    let ghost added = texts(more@);
                    lines.append(&mut more);
                    proof {
                        assert(texts(lines@) =~= before + added);
                    }
                },
                Err(_) => {
                    failed_at = Some(i);
                },
            }
        }
        i += 1;
    }
    proof {
        if failed_at.is_some() {
            lemma_failure_ends_scan(entry_views(entries@), query@, i as int);
        } else {
            assert(entry_views(entries@).take(i as int) =~= entry_views(entries@));
        }
    }
    Scan { lines, failed_at }
}

/// Scans a directory for `query`. `listing` holds the entries of the
/// directory, or `None` if the directory could not be read.
pub fn scan_directory(listing: Option<&Vec<Entry>>, query: &str) -> (scan: Scan)
    ensures
        scan@ == reported(
            match listing {
                None => None,
                Some(entries) => Some(entry_views(entries@)),
            },
            query@,
        ),
{
    match listing {
        None => {
            let mut lines: Vec<String> = Vec::new();
            lines.push(String::from_str("Error: An error read while loading the directory"));
            proof {
                assert(texts(lines@) =~= seq![directory_error()]);
            }
            Scan { lines, failed_at: None }
        },
        Some(entries) => scan_entries(entries, query),
    }
}

} // verus!
