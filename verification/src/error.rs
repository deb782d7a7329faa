//! The error kinds of a mirror run.

use vstd::prelude::*;

verus! {

/// What made a package index undecodable.
#[derive(Debug, PartialEq, Eq)]
pub enum DecodeFault {
    /// The blob is no gzip member, is damaged, or does not hold UTF-8 text.
    Stream,
    /// A size field does not hold an unsigned 64-bit integer.
    Size { value: String },
}

/// An error of a mirror run, with the place it concerns.
#[derive(Debug, PartialEq, Eq)]
pub enum MirrorError {
    /// A request to `url` failed.
    FetchFailed { url: String },
    /// The answer from `url` does not say how long its body is.
    ContentLengthMissing { url: String },
    /// The local file at `path` could not be written.
    WriteFailed { path: String },
    /// The local file at `path` does not have the expected digest.
    DigestMismatch { path: String },
    /// A package index could not be decoded.
    DecodeFailed { fault: DecodeFault },
    /// A release document lists `path` twice.
    ParseInconsistency { path: String },
}

/// The mathematical value of a [`DecodeFault`].
pub enum DecodeFaultView {
    Stream,
    Size { value: Seq<char> },
}

/// The mathematical value of a [`MirrorError`].
pub enum MirrorErrorView {
    FetchFailed { url: Seq<char> },
    ContentLengthMissing { url: Seq<char> },
    WriteFailed { path: Seq<char> },
    DigestMismatch { path: Seq<char> },
    DecodeFailed { fault: DecodeFaultView },
    ParseInconsistency { path: Seq<char> },
}

impl View for DecodeFault {
    type V = DecodeFaultView;

    open spec fn view(&self) -> DecodeFaultView {
        match self {
            DecodeFault::Stream => DecodeFaultView::Stream,
            DecodeFault::Size { value } => DecodeFaultView::Size { value: value@ },
        }
    }
}

impl View for MirrorError {
    type V = MirrorErrorView;

    open spec fn view(&self) -> MirrorErrorView {
        match self {
            MirrorError::FetchFailed { url } => MirrorErrorView::FetchFailed { url: url@ },
            MirrorError::ContentLengthMissing { url } => MirrorErrorView::ContentLengthMissing {
                url: url@,
            },
            MirrorError::WriteFailed { path } => MirrorErrorView::WriteFailed { path: path@ },
            MirrorError::DigestMismatch { path } => MirrorErrorView::DigestMismatch {
                path: path@,
            },
            MirrorError::DecodeFailed { fault } => MirrorErrorView::DecodeFailed {
                fault: fault@,
            },
            MirrorError::ParseInconsistency { path } => MirrorErrorView::ParseInconsistency {
                path: path@,
            },
        }
    }
}

} // verus!
