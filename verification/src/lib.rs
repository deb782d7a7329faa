//! The verified core of a package-repository mirror.
//!
//! The library holds the rules of a mirror run and proves them: how release
//! metadata becomes a digest index ([`release`]), how a package index becomes
//! file records ([`package`]), which worker lane a record goes to
//! ([`router`]), when a local file is trusted and when it is fetched again
//! ([`integrity`], [`worker`]). Requests, files and tasks are the caller's
//! business: the library takes and returns plain values.

pub mod error;
pub mod integrity;
pub mod package;
pub mod release;
pub mod router;
pub mod text;
pub mod worker;
