//! The decisions of a download worker: whether a file is fetched at all,
//! where from, and how far a transfer has come.

use crate::error::{MirrorError, MirrorErrorView};
use crate::integrity::{compare_file_hash, same_ignoring_case, sha256_hex, sizes_match};
use crate::package::{Package, PackageView};
use vstd::prelude::*;
use vstd::string::*;

verus! {

/// What the file system says of a record's local path.
#[derive(Debug, Clone, Copy, PartialEq, Eq)]
pub enum LocalFile {
    /// No file exists at the path.
    Missing,
    /// A file exists and is `len` bytes long.
    Present { len: u64 },
}

/// What a worker does next for a record.
#[derive(Debug, Clone, Copy, PartialEq, Eq)]
pub enum Step {
    /// Create the parent directories, then download.
    CreateAndFetch,
    /// Download over the stale or partial local file.
    Refetch,
    /// Read the local file and compare its digest.
    CheckDigest,
}

/// The first gate as a function of the expected size and the local state.
pub open spec fn first_step(size: u64, local: LocalFile) -> Step {
    match local {
        LocalFile::Missing => Step::CreateAndFetch,
        LocalFile::Present { len } => if len != size {
            Step::Refetch
        } else {
            Step::CheckDigest
        },
    }
}

/// Whether a record has to be fetched, given the content of its local file
/// (`None` where there is no file): always when the file is missing or its
/// length is not the expected size, and else exactly when the digest of the
/// content is not the expected one.
pub open spec fn must_fetch(record: PackageView, local: Option<Seq<u8>>) -> bool {
    match local {
        None => true,
        Some(content) => content.len() != record.size || !same_ignoring_case(
            sha256_hex(content),
            record.sha256,
        ),
    }
}

/// What the file system says of a path that holds `local`.
pub open spec fn local_state(local: Option<Seq<u8>>) -> LocalFile {
    match local {
        None => LocalFile::Missing,
        Some(content) => LocalFile::Present { len: content.len() as u64 },
    }
}

/// Decides from the local state alone what to do for a record of `size`
/// bytes: download where no file exists or its length differs, compare
/// digests where the lengths agree.
pub fn conditional_download(size: u64, local: LocalFile) -> (step: Step)
    ensures
        step == first_step(size, local),
{
    match local {
        LocalFile::Missing => Step::CreateAndFetch,
        LocalFile::Present { len } => {
            if sizes_match(size, len) {
                Step::CheckDigest
            } else {
                Step::Refetch
            }
        },
    }
}

/// Decides, once the sizes agree, whether the local file is downloaded
/// again: exactly when its digest is not the one the record expects.
pub fn needs_refetch(record: &Package, contents: &[u8]) -> (fetch: bool)
    ensures
        fetch == !same_ignoring_case(sha256_hex(contents@), record@.sha256),
{
    !compare_file_hash(contents, record.sha256.as_str())
}

/// Checks the content that a download has left behind after the local copy
/// had the wrong digest: it is accepted exactly when its digest is the
/// expected one. The error names the record's path.
pub fn check_download(record: &Package, contents: &[u8]) -> (r: Result<(), MirrorError>)
    ensures
        match r {
            Ok(()) => same_ignoring_case(sha256_hex(contents@), record@.sha256),
            Err(e) => !same_ignoring_case(sha256_hex(contents@), record@.sha256) && e@ == (
            MirrorErrorView::DigestMismatch { path: record@.filename }),
        },
{
    if compare_file_hash(contents, record.sha256.as_str()) {
        Ok(())
    } else {
        Err(MirrorError::DigestMismatch { path: record.filename.clone() })
    }
}

/// The conditional download as a whole: a worker that follows
/// [`conditional_download`] and, where that says so, [`needs_refetch`],
/// fetches a record exactly when [`must_fetch`] holds. With a length that
/// differs it fetches whatever the digest is; with the same length and the
/// expected digest it does not fetch.
pub proof fn lemma_conditional_download(record: PackageView, local: Option<Seq<u8>>)
    requires
        local matches Some(content) ==> content.len() <= u64::MAX,
    ensures
        first_step(record.size, local_state(local)) != Step::CheckDigest ==> must_fetch(
            record,
            local,
        ),
        first_step(record.size, local_state(local)) == Step::CheckDigest ==> local is Some && (
        must_fetch(record, local) <==> !same_ignoring_case(
            sha256_hex(local->0),
            record.sha256,
        )),
        local matches Some(content) && content.len() != record.size ==> must_fetch(record, local),
        local matches Some(content) && content.len() == record.size && same_ignoring_case(
            sha256_hex(content),
            record.sha256,
        ) ==> !must_fetch(record, local),
{
}

/// The address of a record's file at one source: the source's base, a
/// slash, and the record's path.
pub fn file_url(source: &str, filename: &str) -> (url: String)
    ensures
        url@ == source@ + "/"@ + filename@,
{
    let mut url = String::from_str(source);
    url.append("/");
    url.append(filename);
    url
}

/// How far one transfer has come: the length that the source announced and
/// the bytes counted so far, never more than announced.
pub struct Transfer {
    total: u64,
    downloaded: u64,
}

impl Transfer {
    #[verifier::type_invariant]
    spec fn well_formed(self) -> bool {
        self.downloaded <= self.total
    }

    /// The length that the source announced.
    pub closed spec fn total(self) -> nat {
        self.total as nat
    }

    /// The bytes counted so far.
    pub closed spec fn downloaded(self) -> nat {
        self.downloaded as nat
    }

    /// Starts a transfer from `url`. The source has to announce the length
    /// of the body: without it the transfer is refused.
    pub fn begin(url: &str, content_length: Option<u64>) -> (r: Result<Transfer, MirrorError>)
        ensures
            match content_length {
                Some(total) => r matches Ok(t) && t.total() == total && t.downloaded() == 0,
                None => r matches Err(e) && e@ == (MirrorErrorView::ContentLengthMissing {
                    url: url@,
                }),
            },
    {
        match content_length {
            Some(total) => Ok(Transfer { total, downloaded: 0 }),
            None => Err(MirrorError::ContentLengthMissing { url: String::from_str(url) }),
        }
    }

    /// Counts a chunk of `chunk_len` bytes and returns the new count: the
    /// old one plus the chunk, capped at the announced length.
    pub fn advance(&mut self, chunk_len: usize) -> (position: u64)
        ensures
            final(self).total() == old(self).total(),
            final(self).downloaded() == position,
            position == if old(self).downloaded() + chunk_len <= old(self).total() {
                old(self).downloaded() + chunk_len
            } else {
                old(self).total() as int
            },
            old(self).downloaded() <= position <= old(self).total(),
    {
        proof {
            use_type_invariant(&*self);
        }
        let room = self.total - self.downloaded;
        if chunk_len as u64 <= room {
            self.downloaded = self.downloaded + chunk_len as u64;
        } else {
            self.downloaded = self.total;
        }
        self.downloaded
    }

    /// The length that the source announced.
    pub fn total_bytes(&self) -> (n: u64)
        ensures
            n == self.total(),
    {
        self.total
    }

    /// The bytes counted so far.
    pub fn downloaded_bytes(&self) -> (n: u64)
        ensures
            n == self.downloaded(),
            n <= self.total(),
    {
        proof {
            use_type_invariant(self);
        }
        self.downloaded
    }
}

} // verus!
