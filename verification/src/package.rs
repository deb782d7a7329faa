//! File records and the line-by-line decoder that reads them from a package
//! index.

use crate::error::{DecodeFault, DecodeFaultView, MirrorError, MirrorErrorView};
use crate::text::{
    is_single_line, join_lines, lemma_split_joined_lines, lemma_split_lines_nonempty, match_at,
    parse_number, parse_u64, split_lines, to_chars, to_string,
};
use flate2::read::GzDecoder;
use std::io::Read;
use vstd::prelude::*;
use vstd::string::*;

verus! {

/// One file of the repository: what it is called, where it lies, and what
/// its content has to be.
#[derive(Debug, PartialEq, Eq)]
pub struct Package {
    /// The package's name.
    pub name: String,
    /// The package's version.
    pub version: String,
    /// The file's path: below a source's base on the remote side, below the
    /// working directory on the local side.
    pub filename: String,
    /// The SHA-256 digest of the file's content, in hexadecimal.
    pub sha256: String,
    /// The file's length in bytes.
    pub size: u64,
}

/// The mathematical value of a [`Package`].
pub struct PackageView {
    pub name: Seq<char>,
    pub version: Seq<char>,
    pub filename: Seq<char>,
    pub sha256: Seq<char>,
    pub size: u64,
}

impl PackageView {
    /// The record with nothing observed: empty texts and size zero.
    pub open spec fn empty() -> PackageView {
        PackageView {
            name: Seq::<char>::empty(),
            version: Seq::<char>::empty(),
            filename: Seq::<char>::empty(),
            sha256: Seq::<char>::empty(),
            size: 0,
        }
    }

    /// A record may be emitted once its digest has the length of a SHA-256
    /// digest in hexadecimal: 64 characters.
    pub open spec fn is_complete(self) -> bool {
        self.sha256.len() == 64
    }
}

impl View for Package {
    type V = PackageView;

    open spec fn view(&self) -> PackageView {
        PackageView {
            name: self.name@,
            version: self.version@,
            filename: self.filename@,
            sha256: self.sha256@,
            size: self.size,
        }
    }
}

impl DeepView for Package {
    type V = PackageView;

    open spec fn deep_view(&self) -> PackageView {
        self@
    }
}

impl Clone for Package {
    fn clone(&self) -> (copy: Package)
        ensures
            copy == *self,
    {
        Package {
            name: self.name.clone(),
            version: self.version.clone(),
            filename: self.filename.clone(),
            sha256: self.sha256.clone(),
            size: self.size,
        }
    }
}

impl Package {
    /// A record with nothing observed yet.
    pub fn new() -> (package: Package)
        ensures
            package@ == PackageView::empty(),
    {
        Package {
            name: String::new(),
            version: String::new(),
            filename: String::new(),
            sha256: String::new(),
            size: 0,
        }
    }

    /// Whether the record may be emitted: its digest is 64 characters long.
    pub fn is_complete(&self) -> (b: bool)
        ensures
            b == self@.is_complete(),
    {
        self.sha256.as_str().unicode_len() == 64
    }
}

/// One line of a package index, read as a field of a record.
#[derive(Debug, PartialEq, Eq)]
pub enum Field {
    /// `Package: `, the marker that starts a new record.
    Name(String),
    /// `Version: `
    Version(String),
    /// `Filename: `
    Filename(String),
    /// `SHA256: `
    Digest(String),
    /// `Size: `
    Size(u64),
    /// Any other line.
    Other,
}

/// The mathematical value of a [`Field`].
pub enum FieldView {
    Name(Seq<char>),
    Version(Seq<char>),
    Filename(Seq<char>),
    Digest(Seq<char>),
    Size(u64),
    Other,
}

impl View for Field {
    type V = FieldView;

    open spec fn view(&self) -> FieldView {
        match self {
            Field::Name(v) => FieldView::Name(v@),
            Field::Version(v) => FieldView::Version(v@),
            Field::Filename(v) => FieldView::Filename(v@),
            Field::Digest(v) => FieldView::Digest(v@),
            Field::Size(n) => FieldView::Size(*n),
            Field::Other => FieldView::Other,
        }
    }
}

/// What follows `marker` on a line that starts with it.
pub open spec fn value_after(line: Seq<char>, marker: Seq<char>) -> Option<Seq<char>> {
    if marker.is_prefix_of(line) {
        Some(line.skip(marker.len() as int))
    } else {
        None
    }
}

/// The field that `line` holds, or the text of a size that is no unsigned
/// 64-bit integer.
///
/// The markers are tried in the order name, version, file name, digest,
/// size; the value is the whole remainder of the line.
pub open spec fn field_of(line: Seq<char>) -> Result<FieldView, Seq<char>> {
    if value_after(line, "Package: "@) is Some {
        Ok(FieldView::Name(value_after(line, "Package: "@)->0))
    } else if value_after(line, "Version: "@) is Some {
        Ok(FieldView::Version(value_after(line, "Version: "@)->0))
    } else if value_after(line, "Filename: "@) is Some {
        Ok(FieldView::Filename(value_after(line, "Filename: "@)->0))
    } else if value_after(line, "SHA256: "@) is Some {
        Ok(FieldView::Digest(value_after(line, "SHA256: "@)->0))
    } else if value_after(line, "Size: "@) is Some {
        match parse_u64(value_after(line, "Size: "@)->0) {
            Some(n) => Ok(FieldView::Size(n)),
            None => Err(value_after(line, "Size: "@)->0),
        }
    } else {
        Ok(FieldView::Other)
    }
}

/// The accumulator after `field`: a name starts a fresh record, any other
/// field overwrites its place in the current one.
pub open spec fn after_field(current: PackageView, field: FieldView) -> PackageView {
    match field {
        FieldView::Name(v) => PackageView { name: v, ..PackageView::empty() },
        FieldView::Version(v) => PackageView { version: v, ..current },
        FieldView::Filename(v) => PackageView { filename: v, ..current },
        FieldView::Digest(v) => PackageView { sha256: v, ..current },
        FieldView::Size(n) => PackageView { size: n, ..current },
        FieldView::Other => current,
    }
}

/// The record that `field` makes the accumulator give out: the current one,
/// where the field is a name and the current record is complete.
pub open spec fn emission(current: PackageView, field: FieldView) -> Option<PackageView> {
    if field is Name && current.is_complete() {
        Some(current)
    } else {
        None
    }
}

/// Where the decoding of an index stands: the current accumulator, the
/// records emitted so far, and the text of the first size that could not be
/// read. After such a fault nothing more is read.
pub struct Decoding {
    pub current: PackageView,
    pub emitted: Seq<PackageView>,
    pub fault: Option<Seq<char>>,
}

/// The decoding after one more line.
pub open spec fn decode_line(before: Decoding, line: Seq<char>) -> Decoding {
    if before.fault is Some {
        before
    } else {
        match field_of(line) {
            Err(value) => Decoding { fault: Some(value), ..before },
            Ok(field) => Decoding {
                current: after_field(before.current, field),
                emitted: match emission(before.current, field) {
                    Some(record) => before.emitted.push(record),
                    None => before.emitted,
                },
                fault: None,
            },
        }
    }
}

/// The decoding after `lines`, starting from an empty accumulator.
pub open spec fn decode_lines(lines: Seq<Seq<char>>) -> Decoding
    decreases lines.len(),
{
    if lines.len() == 0 {
        Decoding {
            current: PackageView::empty(),
            emitted: Seq::<PackageView>::empty(),
            fault: None,
        }
    } else {
        decode_line(decode_lines(lines.drop_last()), lines.last())
    }
}

/// What decoding index text gives: the records emitted, in order, or the
/// text of the first unreadable size. The accumulator that is left at the
/// end of the text is not emitted.
pub open spec fn parse_packages_spec(text: Seq<char>) -> Result<Seq<PackageView>, Seq<char>> {
    let end = decode_lines(split_lines(text));
    match end.fault {
        Some(value) => Err(value),
        None => Ok(end.emitted),
    }
}

/// The error for a size field that holds `value`.
pub open spec fn size_error(value: Seq<char>) -> MirrorErrorView {
    MirrorErrorView::DecodeFailed { fault: DecodeFaultView::Size { value } }
}

/// Reads the line in `line` as a field.
fn read_field_chars(line: &Vec<char>) -> (r: Result<Field, MirrorError>)
    ensures
        match r {
            Ok(field) => field_of(line@) == Ok::<FieldView, Seq<char>>(field@),
            Err(e) => field_of(line@) matches Err(value) && e@ == size_error(value),
        },
{
    let end = line.len();
    if let Some(n) = match_at(line, 0, "Package: ") {
        Ok(Field::Name(to_string(line, n, end)))
    } else if let Some(n) = match_at(line, 0, "Version: ") {
        Ok(Field::Version(to_string(line, n, end)))
    } else if let Some(n) = match_at(line, 0, "Filename: ") {
        Ok(Field::Filename(to_string(line, n, end)))
    } else if let Some(n) = match_at(line, 0, "SHA256: ") {
        Ok(Field::Digest(to_string(line, n, end)))
    } else if let Some(n) = match_at(line, 0, "Size: ") {
        match parse_number(line, n) {
            Some(size) => Ok(Field::Size(size)),
            None => Err(
                MirrorError::DecodeFailed {
                    fault: DecodeFault::Size { value: to_string(line, n, end) },
                },
            ),
        }
    } else {
        Ok(Field::Other)
    }
}

/// Reads one line of a package index as a field.
///
/// Fails on a size line whose value is no unsigned 64-bit integer; the error
/// carries that value.
pub fn read_field(line: &str) -> (r: Result<Field, MirrorError>)
    ensures
        match r {
            Ok(field) => field_of(line@) == Ok::<FieldView, Seq<char>>(field@),
            Err(e) => field_of(line@) matches Err(value) && e@ == size_error(value),
        },
{
    let chars = to_chars(line);
    read_field_chars(&chars)
}

/// The record under construction while an index is decoded.
pub struct Accumulator {
    current: Package,
}

impl View for Accumulator {
    type V = PackageView;

    closed spec fn view(&self) -> PackageView {
        self.current@
    }
}

impl Accumulator {
    /// An accumulator that has observed nothing.
    pub fn new() -> (acc: Accumulator)
        ensures
            acc@ == PackageView::empty(),
    {
        Accumulator { current: Package::new() }
    }

    /// Forgets what was observed.
    pub fn reset(&mut self)
        ensures
            final(self)@ == PackageView::empty(),
    {
        self.current = Package::new();
    }

    /// Takes in one field. A name gives out the record accumulated so far if
    /// it is complete, drops it if not, and starts a fresh one under that
    /// name; any other field is stored in the current record.
    pub fn observe(&mut self, field: Field) -> (emitted: Option<Package>)
        ensures
            final(self)@ == after_field(old(self)@, field@),
            match emitted {
                Some(record) => emission(old(self)@, field@) == Some(record@),
                None => emission(old(self)@, field@) is None,
            },
    {
        match field {
            Field::Name(name) => {
                let mut record = Package::new();
                record.name = name;
                core::mem::swap(&mut self.current, &mut record);
                if record.is_complete() {
                    Some(record)
                } else {
                    None
                }
            },
            Field::Version(version) => {
                self.current.version = version;
                None
            },
            Field::Filename(filename) => {
                self.current.filename = filename;
                None
            },
            Field::Digest(digest) => {
                self.current.sha256 = digest;
                None
            },
            Field::Size(size) => {
                self.current.size = size;
                None
            },
            Field::Other => None,
        }
    }

    /// Ends the accumulation: the current record, if it is complete.
    pub fn finalize(self) -> (last: Option<Package>)
        ensures
            match last {
                Some(record) => self@.is_complete() && record@ == self@,
                None => !self@.is_complete(),
            },
    {
        if self.current.is_complete() {
            Some(self.current)
        } else {
            None
        }
    }
}

/// Whether `r` is what the decoder owes for `expected`: the emitted records
/// with exactly the expected values, or the error for the expected size
/// text.
pub open spec fn is_decoded(
    r: Result<Vec<Package>, MirrorError>,
    expected: Result<Seq<PackageView>, Seq<char>>,
) -> bool {
    match r {
        Ok(records) => expected == Ok::<Seq<PackageView>, Seq<char>>(records.deep_view()),
        Err(e) => expected matches Err(value) && e@ == size_error(value),
    }
}

/// The running state of the executable decoder.
struct Run {
    acc: Accumulator,
    records: Vec<Package>,
    failure: Option<MirrorError>,
}

impl Run {
    /// The run holds what `decoding` amounts to.
    spec fn at(&self, decoding: Decoding) -> bool {
        match self.failure {
            None => {
                &&& decoding.fault is None
                &&& self.acc@ == decoding.current
                &&& self.records.deep_view() == decoding.emitted
            },
            Some(e) => decoding.fault matches Some(value) && e@ == size_error(value),
        }
    }

    fn new() -> (run: Run)
        ensures
            run.at(decode_lines(Seq::<Seq<char>>::empty())),
    {
        let run = Run { acc: Accumulator::new(), records: Vec::new(), failure: None };
        assert(run.records.deep_view() == Seq::<PackageView>::empty());
        run
    }

    /// Takes in one line.
    fn absorb(&mut self, line: &Vec<char>, Ghost(before): Ghost<Decoding>)
        requires
            old(self).at(before),
        ensures
            final(self).at(decode_line(before, line@)),
    {
        if self.failure.is_none() {
            match read_field_chars(line) {
                Ok(field) => {
                    if let Some(record) = self.acc.observe(field) {
                        let ghost emitted = self.records.deep_view();
                        self.records.push(record);
                        assert(self.records.deep_view() == emitted.push(record@));
                    }
                },
                Err(e) => {
                    self.failure = Some(e);
                },
            }
        }
    }

    fn finish(self) -> (r: Result<Vec<Package>, MirrorError>)
        ensures
            forall|decoding: Decoding| #[trigger]
                self.at(decoding) ==> is_decoded(
                    r,
                    match decoding.fault {
                        Some(value) => Err(value),
                        None => Ok(decoding.emitted),
                    },
                ),
    {
        match self.failure {
            None => Ok(self.records),
            Some(e) => Err(e),
        }
    }
}

/// Decodes the text of a package index into its file records.
///
/// The lines are read in order into one accumulator. Each line that starts
/// a new record gives out the record before it, if that one is complete. The
/// record that is open when the text ends is not given out. A size that is
/// no unsigned 64-bit integer fails the whole index.
pub fn parse_packages(text: &str) -> (r: Result<Vec<Package>, MirrorError>)
    ensures
        is_decoded(r, parse_packages_spec(text@)),
        r matches Ok(records) ==> forall|i: int|
            0 <= i < records.len() ==> (#[trigger] records[i])@.is_complete(),
{
    let mut run = Run::new();
    let mut line: Vec<char> = Vec::new();
    for c in it: text.chars()
        invariant
            it.seq() == text@,
            line@ == split_lines(text@.take(it.index() as int)).last(),
            run.at(decode_lines(split_lines(text@.take(it.index() as int)).drop_last())),
    {
        let ghost seen = text@.take(it.index() as int);
        let ghost next = text@.take(it.index() + 1);
        proof {
            assert(next.drop_last() == seen);
            lemma_split_lines_nonempty(seen);
        }
        if c == '\n' {
            run.absorb(&line, Ghost(decode_lines(split_lines(seen).drop_last())));
            line.clear();
            assert(split_lines(next).drop_last() == split_lines(seen));
        } else {
            line.push(c);
            assert(split_lines(next).drop_last() == split_lines(seen).drop_last());
        }
    }
    proof {
        assert(text@.take(text@.len() as int) == text@);
        lemma_split_lines_nonempty(text@);
    }
    run.absorb(&line, Ghost(decode_lines(split_lines(text@).drop_last())));
    let r = run.finish();
    proof {
        lemma_emitted_complete(split_lines(text@));
        if r is Ok {
            let records = r->Ok_0;
            assert forall|i: int| 0 <= i < records.len() implies (#[trigger] records[i])@.is_complete() by {
                assert(records.deep_view()[i] == records[i]@);
            }
        }
    }
    r
}

#[verifier::external_type_specification]
#[verifier::external_body]
pub struct ExIoError(std::io::Error);

/// The text that a gzip blob holds: what inflating its first member gives,
/// read as UTF-8. `None` where the blob does not start with a sound gzip
/// member or the inflated bytes are no UTF-8.
pub uninterp spec fn gunzip_text(blob: Seq<u8>) -> Option<Seq<char>>;

/// Inflates a gzip blob into text.
///
/// Trusted: stands for `flate2::read::GzDecoder::new` on the bytes, read to
/// its end with `Read::read_to_string`. The decoder inflates one gzip member
/// and reports a damaged stream or invalid UTF-8 as an error, so the outcome
/// depends on the bytes alone; the contract gives it the name
/// [`gunzip_text`].
#[verifier::external_body]
fn decode_reader(bytes: Vec<u8>) -> (r: Result<String, std::io::Error>)
    ensures
        match r {
            Ok(text) => gunzip_text(bytes@) == Some(text@),
            Err(_) => gunzip_text(bytes@) is None,
        },
{
    let mut gz = GzDecoder::new(&bytes[..]);
    let mut s = String::new();
    gz.read_to_string(&mut s)?;
    Ok(s)
}

/// The error for a blob that cannot be inflated into text.
pub open spec fn stream_error() -> MirrorErrorView {
    MirrorErrorView::DecodeFailed { fault: DecodeFaultView::Stream }
}

/// Decodes a compressed package index into its file records.
///
/// Fails with a stream error where the blob holds no text, and as
/// [`parse_packages`] does on the text that it holds.
pub fn decode_index(blob: Vec<u8>) -> (r: Result<Vec<Package>, MirrorError>)
    ensures
        match gunzip_text(blob@) {
            Some(text) => is_decoded(r, parse_packages_spec(text)),
            None => r matches Err(e) && e@ == stream_error(),
        },
        r matches Ok(records) ==> forall|i: int|
            0 <= i < records.len() ==> (#[trigger] records[i])@.is_complete(),
{
    match decode_reader(blob) {
        Ok(text) => parse_packages(text.as_str()),
        Err(_) => Err(MirrorError::DecodeFailed { fault: DecodeFault::Stream }),
    }
}

/// `line` is a name line: it starts a new record.
pub open spec fn is_marker(line: Seq<char>) -> bool {
    "Package: "@.is_prefix_of(line)
}

/// What follows `marker` on the last of `lines` that starts with it.
pub open spec fn last_value(lines: Seq<Seq<char>>, marker: Seq<char>) -> Option<Seq<char>>
    decreases lines.len(),
{
    if lines.len() == 0 {
        None
    } else if value_after(lines.last(), marker) is Some {
        value_after(lines.last(), marker)
    } else {
        last_value(lines.drop_last(), marker)
    }
}

/// The text of a value, empty where there is none.
pub open spec fn text_of(value: Option<Seq<char>>) -> Seq<char> {
    match value {
        Some(text) => text,
        None => Seq::<char>::empty(),
    }
}

/// The number that a size value writes, zero where there is none.
pub open spec fn size_of(value: Option<Seq<char>>) -> u64 {
    match value {
        Some(text) => match parse_u64(text) {
            Some(n) => n,
            None => 0,
        },
        None => 0,
    }
}

/// A block of index lines: a name line first, no name line after it, and
/// every size readable.
pub open spec fn is_block(block: Seq<Seq<char>>) -> bool {
    &&& block.len() > 0
    &&& is_marker(block[0])
    &&& forall|i: int| 1 <= i < block.len() ==> !is_marker(#[trigger] block[i])
    &&& forall|i: int| 0 <= i < block.len() ==> field_of(#[trigger] block[i]) is Ok
}

/// The record that a block describes: for each field the value of the last
/// line of the block that holds that field, and nothing where no line does.
pub open spec fn block_record(block: Seq<Seq<char>>) -> PackageView {
    PackageView {
        name: text_of(last_value(block, "Package: "@)),
        version: text_of(last_value(block, "Version: "@)),
        filename: text_of(last_value(block, "Filename: "@)),
        sha256: text_of(last_value(block, "SHA256: "@)),
        size: size_of(last_value(block, "Size: "@)),
    }
}

/// The lines of `blocks`, one block after the other.
pub open spec fn block_lines(blocks: Seq<Seq<Seq<char>>>) -> Seq<Seq<char>>
    decreases blocks.len(),
{
    if blocks.len() == 0 {
        Seq::<Seq<char>>::empty()
    } else {
        block_lines(blocks.drop_last()) + blocks.last()
    }
}

/// The records of those of `blocks` that are complete, in order.
pub open spec fn complete_records(blocks: Seq<Seq<Seq<char>>>) -> Seq<PackageView>
    decreases blocks.len(),
{
    if blocks.len() == 0 {
        Seq::<PackageView>::empty()
    } else if block_record(blocks.last()).is_complete() {
        complete_records(blocks.drop_last()).push(block_record(blocks.last()))
    } else {
        complete_records(blocks.drop_last())
    }
}

/// A line starts with at most one of the five field markers.
proof fn lemma_one_marker(line: Seq<char>)
    ensures
        value_after(line, "Package: "@) is Some ==> line.len() > 1 && line[0] == 'P',
        value_after(line, "Version: "@) is Some ==> line.len() > 1 && line[0] == 'V',
        value_after(line, "Filename: "@) is Some ==> line.len() > 1 && line[0] == 'F',
        value_after(line, "SHA256: "@) is Some ==> line.len() > 1 && line[0] == 'S' && line[1]
            == 'H',
        value_after(line, "Size: "@) is Some ==> line.len() > 1 && line[0] == 'S' && line[1]
            == 'i',
{
    reveal_strlit("Package: ");
    reveal_strlit("Version: ");
    reveal_strlit("Filename: ");
    reveal_strlit("SHA256: ");
    reveal_strlit("Size: ");
    if value_after(line, "Version: "@) is Some {
        assert(line.subrange(0, 9)[0] == line[0]);
    }
    if value_after(line, "Filename: "@) is Some {
        assert(line.subrange(0, 10)[0] == line[0]);
    }
    if value_after(line, "SHA256: "@) is Some {
        assert(line.subrange(0, 8)[0] == line[0]);
        assert(line.subrange(0, 8)[1] == line[1]);
    }
    if value_after(line, "Size: "@) is Some {
        assert(line.subrange(0, 6)[0] == line[0]);
        assert(line.subrange(0, 6)[1] == line[1]);
    }
}

/// One line more in a block, read into the accumulator, keeps the
/// accumulator equal to the record of the block.
proof fn lemma_block_step(block: Seq<Seq<char>>)
    requires
        block.len() > 0,
        field_of(block.last()) is Ok,
        block.len() > 1 ==> !is_marker(block.last()),
    ensures
        block_record(block) == after_field(
            if is_marker(block.last()) {
                PackageView::empty()
            } else {
                block_record(block.drop_last())
            },
            field_of(block.last())->Ok_0,
        ),
{
    lemma_one_marker(block.last());
}

/// Decoding one block after other lines: the record that was open before
/// the block is emitted if it is complete, and the accumulator ends as the
/// record of the block.
pub proof fn lemma_decode_block(lines: Seq<Seq<char>>, block: Seq<Seq<char>>)
    requires
        is_block(block),
        decode_lines(lines).fault is None,
    ensures
        decode_lines(lines + block) == (Decoding {
            current: block_record(block),
            emitted: if decode_lines(lines).current.is_complete() {
                decode_lines(lines).emitted.push(decode_lines(lines).current)
            } else {
                decode_lines(lines).emitted
            },
            fault: None,
        }),
    decreases block.len(),
{
    let whole = lines + block;
    let shorter = block.drop_last();
    assert(whole.drop_last() == lines + shorter);
    lemma_block_step(block);
    if block.len() > 1 {
        lemma_decode_block(lines, shorter);
    }
}

/// The boundary law of the decoder. Of an index that is made of blocks, the
/// decoder emits the record of every block but the last, in order, leaving
/// out those that are not complete; the record of the last block stays in
/// the accumulator and is not emitted.
pub proof fn lemma_decode_blocks(blocks: Seq<Seq<Seq<char>>>)
    requires
        blocks.len() > 0,
        forall|i: int| 0 <= i < blocks.len() ==> is_block(#[trigger] blocks[i]),
    ensures
        decode_lines(block_lines(blocks)) == (Decoding {
            current: block_record(blocks.last()),
            emitted: complete_records(blocks.drop_last()),
            fault: None,
        }),
    decreases blocks.len(),
{
    let earlier = blocks.drop_last();
    if blocks.len() > 1 {
        lemma_decode_blocks(earlier);
    }
    lemma_decode_block(block_lines(earlier), blocks.last());
}

/// Where every block is complete, the complete records are the records of
/// all blocks: as many as there are blocks.
pub proof fn lemma_all_complete(blocks: Seq<Seq<Seq<char>>>)
    requires
        forall|i: int| 0 <= i < blocks.len() ==> block_record(#[trigger] blocks[i]).is_complete(),
    ensures
        complete_records(blocks) == blocks.map_values(|block: Seq<Seq<char>>| block_record(block)),
        complete_records(blocks).len() == blocks.len(),
    decreases blocks.len(),
{
    if blocks.len() > 0 {
        lemma_all_complete(blocks.drop_last());
    }
}

/// The decoder emits complete records only: a record whose digest is not 64
/// characters long when the next name line arrives is never emitted.
pub proof fn lemma_emitted_complete(lines: Seq<Seq<char>>)
    ensures
        forall|i: int|
            0 <= i < decode_lines(lines).emitted.len() ==> (#[trigger] decode_lines(
                lines,
            ).emitted[i]).is_complete(),
    decreases lines.len(),
{
    if lines.len() > 0 {
        lemma_emitted_complete(lines.drop_last());
    }
}

/// The boundary law on text: an index text whose lines are `blocks` decodes
/// into the complete records of all blocks but the last.
pub proof fn lemma_parse_blocks(blocks: Seq<Seq<Seq<char>>>)
    requires
        blocks.len() > 0,
        forall|i: int| 0 <= i < blocks.len() ==> is_block(#[trigger] blocks[i]),
        forall|i: int|
            0 <= i < block_lines(blocks).len() ==> is_single_line(#[trigger] block_lines(blocks)[i]),
    ensures
        parse_packages_spec(join_lines(block_lines(blocks))) == Ok::<
            Seq<PackageView>,
            Seq<char>,
        >(complete_records(blocks.drop_last())),
{
    lemma_decode_blocks(blocks);
    lemma_split_joined_lines(block_lines(blocks));
}

} // verus!
