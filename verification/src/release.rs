//! The digest index parser: release metadata text to a map from file path to
//! expected digest.

use crate::error::{MirrorError, MirrorErrorView};
use crate::text::{
    fields, is_single_line, is_space, is_space_char, is_token, join_lines,
    lemma_fields_after_space, lemma_fields_after_token, lemma_split_joined_lines,
    lemma_split_lines_nonempty, split_fields, split_lines, trim, trimmed_is,
};
use vstd::hash_map::StringHashMap;
use vstd::prelude::*;
use vstd::string::*;

verus! {

/// One row of a digest section: a file's path and the digest it should have.
pub struct Entry {
    pub path: Seq<char>,
    pub digest: Seq<char>,
}

/// Whether `line` is the header that opens a digest section: the token
/// `SHA256` with nothing but whitespace around it.
pub open spec fn is_header(line: Seq<char>) -> bool {
    trim(line) == "SHA256"@
}

/// Whether `line` is read as a row: the scan is inside a digest section and
/// the line starts with whitespace.
pub open spec fn is_row(in_section: bool, line: Seq<char>) -> bool {
    in_section && line.len() > 0 && is_space(line[0])
}

/// The entry that a row holds: with exactly three fields (digest, size,
/// path) the path and the digest, with any other number nothing.
pub open spec fn row_entry(line: Seq<char>) -> Option<Entry> {
    let f = fields(line);
    if f.len() == 3 {
        Some(Entry { path: f[2], digest: f[0] })
    } else {
        None
    }
}

/// Where a scan of release text stands: whether it is inside a digest
/// section, and the entries read so far, in order.
pub struct Scan {
    pub in_section: bool,
    pub rows: Seq<Entry>,
}

/// The scan after one more line.
///
/// Inside a section a line that starts with whitespace is a row and keeps the
/// section open. Any other line ends the section, unless it is itself a
/// header; outside a section every line is tested for being a header.
pub open spec fn scan_line(before: Scan, line: Seq<char>) -> Scan {
    if is_row(before.in_section, line) {
        Scan {
            in_section: true,
            rows: match row_entry(line) {
                Some(entry) => before.rows.push(entry),
                None => before.rows,
            },
        }
    } else {
        Scan { in_section: is_header(line), rows: before.rows }
    }
}

/// The scan after `lines`, starting outside any section.
pub open spec fn scan_lines(lines: Seq<Seq<char>>) -> Scan
    decreases lines.len(),
{
    if lines.len() == 0 {
        Scan { in_section: false, rows: Seq::<Entry>::empty() }
    } else {
        scan_line(scan_lines(lines.drop_last()), lines.last())
    }
}

/// The entries of the digest sections of `text`, in order.
pub open spec fn release_rows(text: Seq<char>) -> Seq<Entry> {
    scan_lines(split_lines(text)).rows
}

/// The map that `rows` make, or the first path that occurs a second time.
pub open spec fn collect(rows: Seq<Entry>) -> Result<Map<Seq<char>, Seq<char>>, Seq<char>>
    decreases rows.len(),
{
    if rows.len() == 0 {
        Ok(Map::<Seq<char>, Seq<char>>::empty())
    } else {
        match collect(rows.drop_last()) {
            Err(path) => Err(path),
            Ok(index) => if index.contains_key(rows.last().path) {
                Err(rows.last().path)
            } else {
                Ok(index.insert(rows.last().path, rows.last().digest))
            },
        }
    }
}

/// The paths of `rows` are pairwise distinct.
pub open spec fn distinct_paths(rows: Seq<Entry>) -> bool {
    forall|i: int, j: int| 0 <= i < j < rows.len() ==> rows[i].path != rows[j].path
}

/// What parsing `text` gives: the digest index, or the duplicated path.
pub open spec fn parse_release_spec(text: Seq<char>) -> Result<Map<Seq<char>, Seq<char>>, Seq<char>> {
    collect(release_rows(text))
}

/// The digest index of one release document: for each file path the digest
/// that the file should have. No path occurs twice.
pub struct DigestIndex {
    entries: StringHashMap<String>,
}

impl View for DigestIndex {
    type V = Map<Seq<char>, Seq<char>>;

    closed spec fn view(&self) -> Map<Seq<char>, Seq<char>> {
        self.entries@.map_values(|digest: String| digest@)
    }
}

impl DigestIndex {
    /// An index without entries.
    pub fn new() -> (index: DigestIndex)
        ensures
            index@ == Map::<Seq<char>, Seq<char>>::empty(),
    {
        let index = DigestIndex { entries: StringHashMap::new() };
        index
    }

    /// The number of entries.
    pub fn len(&self) -> (n: usize)
        ensures
            n == self@.len(),
    {
        broadcast use vstd::hash_map::axiom_string_hash_map_spec_len;

        assert(self@.dom() =~= self.entries@.dom());
        self.entries.len()
    }

    /// Whether the index has an entry for `path`.
    pub fn contains(&self, path: &str) -> (b: bool)
        ensures
            b == self@.contains_key(path@),
    {
        self.entries.contains_key(path)
    }

    /// The digest recorded for `path`, if there is one.
    pub fn get(&self, path: &str) -> (digest: Option<&String>)
        ensures
            match digest {
                Some(d) => self@.contains_key(path@) && d@ == self@[path@],
                None => !self@.contains_key(path@),
            },
    {
        self.entries.get(path)
    }

    /// Records `digest` for `path`, or refuses where `path` has an entry
    /// already: the index then stays as it was.
    pub fn insert(&mut self, path: String, digest: String) -> (r: Result<(), MirrorError>)
        ensures
            match r {
                Ok(()) => !old(self)@.contains_key(path@) && final(self)@ == old(self)@.insert(
                    path@,
                    digest@,
                ),
                Err(e) => old(self)@.contains_key(path@) && final(self)@ == old(self)@ && e@
                    == (MirrorErrorView::ParseInconsistency { path: path@ }),
            },
    {
        if self.entries.contains_key(path.as_str()) {
            return Err(MirrorError::ParseInconsistency { path });
        }
        self.entries.insert(path, digest);
        Ok(())
    }
}

/// The running state of the executable parser.
struct Scanner {
    in_section: bool,
    index: DigestIndex,
    failure: Option<MirrorError>,
}

impl Scanner {
    /// The scanner holds what `scan` amounts to: the same section flag, and
    /// the index or the error that the rows of `scan` make.
    spec fn at(&self, scan: Scan) -> bool {
        &&& self.in_section == scan.in_section
        &&& match self.failure {
            None => collect(scan.rows) == Ok::<Map<Seq<char>, Seq<char>>, Seq<char>>(
                self.index@,
            ),
            Some(e) => collect(scan.rows) matches Err(path) && e@
                == (MirrorErrorView::ParseInconsistency { path }),
        }
    }

    fn new() -> (scanner: Scanner)
        ensures
            scanner.at(scan_lines(Seq::<Seq<char>>::empty())),
    {
        Scanner { in_section: false, index: DigestIndex::new(), failure: None }
    }

    /// Takes in one line.
    fn absorb(&mut self, line: &Vec<char>, Ghost(before): Ghost<Scan>)
        requires
            old(self).at(before),
        ensures
            final(self).at(scan_line(before, line@)),
    {
        if self.in_section && line.len() > 0 && is_space_char(line[0]) {
            let mut row = split_fields(line);
            if row.len() == 3 {
                let path = row.pop();
                let _size = row.pop();
                let digest = row.pop();
                match (path, digest) {
                    (Some(path), Some(digest)) => {
                        assert(before.rows.push(Entry { path: path@, digest: digest@ }).drop_last()
                            == before.rows);
                        if self.failure.is_none() {
                            match self.index.insert(path, digest) {
                                Ok(()) => {},
                                Err(e) => {
                                    self.failure = Some(e);
                                },
                            }
                        }
                    },
                    _ => {},
                }
            }
        } else {
            self.in_section = trimmed_is(line, "SHA256");
        }
    }

    fn finish(self) -> (r: Result<DigestIndex, MirrorError>)
        ensures
            forall|scan: Scan| #[trigger]
                self.at(scan) ==> match r {
                    Ok(index) => collect(scan.rows) == Ok::<Map<Seq<char>, Seq<char>>, Seq<char>>(
                        index@,
                    ),
                    Err(e) => collect(scan.rows) matches Err(path) && e@
                        == (MirrorErrorView::ParseInconsistency { path }),
                },
    {
        match self.failure {
            None => Ok(self.index),
            Some(e) => Err(e),
        }
    }
}

/// Parses release metadata into its digest index.
///
/// The lines are scanned in order. A header line opens a digest section;
/// inside one, each line that starts with whitespace and has exactly three
/// fields gives an entry. A path listed twice makes the document
/// inconsistent: the error names the first path that occurs again.
pub fn parse_release(text: &str) -> (r: Result<DigestIndex, MirrorError>)
    ensures
        match r {
            Ok(index) => parse_release_spec(text@) == Ok::<Map<Seq<char>, Seq<char>>, Seq<char>>(
                index@,
            ),
            Err(e) => parse_release_spec(text@) matches Err(path) && e@
                == (MirrorErrorView::ParseInconsistency { path }),
        },
{
    let mut scanner = Scanner::new();
    let mut line: Vec<char> = Vec::new();
    for c in it: text.chars()
        invariant
            it.seq() == text@,
            line@ == split_lines(text@.take(it.index() as int)).last(),
            scanner.at(scan_lines(split_lines(text@.take(it.index() as int)).drop_last())),
    {
        let ghost seen = text@.take(it.index() as int);
        let ghost next = text@.take(it.index() + 1);
        proof {
            assert(next.drop_last() == seen);
            lemma_split_lines_nonempty(seen);
        }
        if c == '\n' {
            scanner.absorb(&line, Ghost(scan_lines(split_lines(seen).drop_last())));
            line.clear();
            assert(split_lines(next).drop_last() == split_lines(seen));
        } else {
            line.push(c);
            assert(split_lines(next).drop_last() == split_lines(seen).drop_last());
        }
    }
    proof {
        assert(text@.take(text@.len() as int) == text@);
        lemma_split_lines_nonempty(text@);
    }
    scanner.absorb(&line, Ghost(scan_lines(split_lines(text@).drop_last())));
    scanner.finish()
}

/// Some row of `rows` is for `path`.
pub open spec fn has_path(rows: Seq<Entry>, path: Seq<char>) -> bool {
    exists|i: int| 0 <= i < rows.len() && (#[trigger] rows[i]).path == path
}

/// What collecting rows amounts to. Rows with pairwise distinct paths give
/// the map that holds exactly their pairs of path and digest. Any other rows
/// give the path of the first row whose path has occurred before.
pub proof fn lemma_collect(rows: Seq<Entry>)
    ensures
        match collect(rows) {
            Ok(index) => {
                &&& distinct_paths(rows)
                &&& forall|path: Seq<char>| index.contains_key(path) <==> has_path(rows, path)
                &&& forall|i: int|
                    0 <= i < rows.len() ==> #[trigger] index[rows[i].path] == rows[i].digest
            },
            Err(path) => exists|j: int|
                {
                    &&& 0 <= j < rows.len()
                    &&& (#[trigger] rows[j]).path == path
                    &&& distinct_paths(rows.take(j))
                    &&& has_path(rows.take(j), path)
                },
        },
        collect(rows) is Ok <==> distinct_paths(rows),
    decreases rows.len(),
{
    if rows.len() > 0 {
        let before = rows.drop_last();
        let last = rows.last();
        let n = rows.len() - 1;
        lemma_collect(before);
        match collect(before) {
            Err(path) => {
                let j = choose|j: int|
                    {
                        &&& 0 <= j < before.len()
                        &&& (#[trigger] before[j]).path == path
                        &&& distinct_paths(before.take(j))
                        &&& has_path(before.take(j), path)
                    };
                assert(before.take(j) == rows.take(j));
            },
            Ok(index) => {
                if index.contains_key(last.path) {
                    assert(has_path(before, last.path));
                } else {
                    let grown = index.insert(last.path, last.digest);
                    assert forall|i: int, j: int| 0 <= i < j < rows.len() implies rows[i].path
                        != rows[j].path by {
                        if j == n {
                            assert(before[i].path == rows[i].path);
                            if rows[i].path == last.path {
                                assert(has_path(before, last.path));
                            }
                        } else {
                            assert(before[i].path != before[j].path);
                        }
                    }
                    assert forall|path: Seq<char>| grown.contains_key(path) <==> has_path(
                        rows,
                        path,
                    ) by {
                        if has_path(rows, path) {
                            let i = choose|i: int|
                                0 <= i < rows.len() && (#[trigger] rows[i]).path == path;
                            if i < n {
                                assert(before[i].path == path);
                                assert(has_path(before, path));
                            }
                        }
                        if grown.contains_key(path) && path != last.path {
                            assert(has_path(before, path));
                        }
                    }
                    assert forall|i: int| 0 <= i < rows.len() implies #[trigger] grown[rows[i].path]
                        == rows[i].digest by {
                        if i < n {
                            assert(before[i].path == rows[i].path);
                        }
                    }
                }
            },
        }
    }
}

/// The three fields of a row as a document writes them.
pub struct Row {
    pub digest: Seq<char>,
    pub size: Seq<char>,
    pub path: Seq<char>,
}

impl Row {
    /// Each of the three fields is a token.
    pub open spec fn well_formed(self) -> bool {
        is_token(self.digest) && is_token(self.size) && is_token(self.path)
    }

    /// The row as a line: a space, then digest, size and path with one
    /// space between them.
    pub open spec fn line(self) -> Seq<char> {
        seq![' '] + self.digest + seq![' '] + self.size + seq![' '] + self.path
    }

    /// The entry that the row stands for.
    pub open spec fn entry(self) -> Entry {
        Entry { path: self.path, digest: self.digest }
    }
}

/// The lines of a digest section that holds `rows`: the header and one line
/// for each row.
pub open spec fn section_lines(rows: Seq<Row>) -> Seq<Seq<char>> {
    seq!["SHA256"@] + rows.map_values(|row: Row| row.line())
}

/// A well-formed row is read as a row inside a section, and gives its entry.
pub proof fn lemma_row_line(row: Row)
    requires
        row.well_formed(),
    ensures
        is_row(true, row.line()),
        row_entry(row.line()) == Some(row.entry()),
        is_single_line(row.line()),
{
    let space = seq![' '];
    let tail = space + row.path;
    let middle = row.size + tail;
    let back = space + middle;
    let front = row.digest + back;
    assert(row.line() == space + front);
    lemma_fields_after_space(' ', front);
    lemma_fields_after_token(row.digest, back);
    lemma_fields_after_space(' ', middle);
    lemma_fields_after_token(row.size, tail);
    lemma_fields_after_space(' ', row.path);
    lemma_fields_after_token(row.path, Seq::<char>::empty());
}

/// The header token is a header line, is no row, and holds no line feed.
pub proof fn lemma_header_line()
    ensures
        is_header("SHA256"@),
        forall|in_section: bool| !is_row(in_section, "SHA256"@),
        is_single_line("SHA256"@),
{
    reveal_strlit("SHA256");
}

/// A digest section adds exactly its rows: after any lines, a header
/// followed by well-formed rows leaves the scan inside the section, with the
/// entries of those rows appended in order.
pub proof fn lemma_scan_section(before: Seq<Seq<char>>, rows: Seq<Row>)
    requires
        forall|i: int| 0 <= i < rows.len() ==> (#[trigger] rows[i]).well_formed(),
    ensures
        scan_lines(before + section_lines(rows)) == (Scan {
            in_section: true,
            rows: scan_lines(before).rows + rows.map_values(|row: Row| row.entry()),
        }),
    decreases rows.len(),
{
    let lines = before + section_lines(rows);
    let entries = rows.map_values(|row: Row| row.entry());
    if rows.len() == 0 {
        lemma_header_line();
        assert(lines.drop_last() == before);
    } else {
        let earlier = rows.drop_last();
        lemma_scan_section(before, earlier);
        lemma_row_line(rows.last());
        assert(lines.drop_last() == before + section_lines(earlier));
        assert((scan_lines(before).rows + earlier.map_values(|row: Row| row.entry())).push(
            rows.last().entry(),
        ) == scan_lines(before).rows + entries);
    }
}

/// Outside a section, lines that are no header change nothing.
pub proof fn lemma_scan_outside(lines: Seq<Seq<char>>, more: Seq<Seq<char>>)
    requires
        !scan_lines(lines).in_section,
        forall|i: int| 0 <= i < more.len() ==> !is_header(#[trigger] more[i]),
    ensures
        scan_lines(lines + more) == scan_lines(lines),
    decreases more.len(),
{
    if more.len() > 0 {
        lemma_scan_outside(lines, more.drop_last());
        assert((lines + more).drop_last() == lines + more.drop_last());
    }
}

/// The entries of a document with a digest section. Whatever lines come
/// before the header, the section adds the entries of its rows, in order,
/// to those read before it. The section ends with the document or with the
/// first line that does not start with whitespace; where neither that line
/// nor one after it is a header, nothing more is read.
pub proof fn lemma_release_document(
    before: Seq<Seq<char>>,
    rows: Seq<Row>,
    after: Seq<Seq<char>>,
)
    requires
        forall|i: int| 0 <= i < rows.len() ==> (#[trigger] rows[i]).well_formed(),
        forall|i: int| 0 <= i < before.len() ==> is_single_line(#[trigger] before[i]),
        forall|i: int| 0 <= i < after.len() ==> is_single_line(#[trigger] after[i]),
        forall|i: int| 0 <= i < after.len() ==> !is_header(#[trigger] after[i]),
        after.len() > 0 ==> !is_row(true, after[0]),
    ensures
        release_rows(join_lines(before + section_lines(rows) + after)) == scan_lines(before).rows
            + rows.map_values(|row: Row| row.entry()),
{
    let section = section_lines(rows);
    let lines = before + section + after;
    lemma_header_line();
    assert forall|i: int| 0 <= i < lines.len() implies is_single_line(#[trigger] lines[i]) by {
        if before.len() < i < before.len() + section.len() {
            lemma_row_line(rows[i - before.len() - 1]);
        }
    }
    lemma_split_joined_lines(lines);
    lemma_scan_section(before, rows);
    if after.len() > 0 {
        let closed = (before + section).push(after[0]);
        assert(closed.drop_last() == before + section);
        lemma_scan_outside(closed, after.skip(1));
        assert(closed + after.skip(1) == lines);
    }
}

} // verus!
