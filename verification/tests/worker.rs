use repo_mirror::error::MirrorError;
use repo_mirror::integrity::{compare_file_hash, digests_equal, sizes_match};
use repo_mirror::package::Package;
use repo_mirror::worker::{
    check_download, conditional_download, file_url, needs_refetch, LocalFile, Step, Transfer,
};

const HELLO: &str = "2cf24dba5fb0a30e26e83b2ac5b9e29e1b161e5c1fa7425e73043362938b9824";
const EMPTY: &str = "e3b0c44298fc1c149afbf4c8996fb92427ae41e4649b934ca495991b7852b855";

fn record(digest: &str, size: u64) -> Package {
    Package {
        name: "foo".to_string(),
        version: "1.0".to_string(),
        filename: "pool/f/foo.deb".to_string(),
        sha256: digest.to_string(),
        size,
    }
}

/// What a worker does for one record, given the content of the local file.
fn fetches(record: &Package, local: Option<&[u8]>) -> bool {
    let state = match local {
        None => LocalFile::Missing,
        Some(content) => LocalFile::Present { len: content.len() as u64 },
    };
    match conditional_download(record.size, state) {
        Step::CreateAndFetch | Step::Refetch => true,
        Step::CheckDigest => needs_refetch(record, local.unwrap()),
    }
}

#[test]
fn sizes_match_is_equality() {
    assert!(sizes_match(0, 0));
    assert!(sizes_match(u64::MAX, u64::MAX));
    assert!(!sizes_match(1024, 1023));
    assert!(!sizes_match(0, u64::MAX));
}

#[test]
fn digests_compare_without_case() {
    assert!(digests_equal(HELLO, HELLO));
    assert!(digests_equal(HELLO, &HELLO.to_uppercase()));
    assert!(digests_equal("aBcDeF09", "AbCdEf09"));
    assert!(digests_equal("", ""));
    assert!(!digests_equal(HELLO, EMPTY));
    assert!(!digests_equal(HELLO, &HELLO[..63]));
    assert!(!digests_equal("a", "b"));
    assert!(!digests_equal("@", "`"));
    assert!(!digests_equal("[", "{"));
    assert!(!digests_equal("k", "\u{212a}"));
}

#[test]
fn compare_file_hash_hashes_the_content() {
    assert!(compare_file_hash(b"hello", HELLO));
    assert!(compare_file_hash(b"hello", &HELLO.to_uppercase()));
    assert!(compare_file_hash(b"", EMPTY));
    assert!(!compare_file_hash(b"hello", EMPTY));
    assert!(!compare_file_hash(b"hellp", HELLO));
    assert!(!compare_file_hash(b"hello", "hello"));
    assert!(!compare_file_hash(b"hello", ""));
}

#[test]
fn missing_file_is_created_and_fetched() {
    assert_eq!(conditional_download(5, LocalFile::Missing), Step::CreateAndFetch);
    assert_eq!(conditional_download(0, LocalFile::Missing), Step::CreateAndFetch);
}

#[test]
fn length_mismatch_refetches_whatever_the_digest() {
    assert_eq!(conditional_download(5, LocalFile::Present { len: 4 }), Step::Refetch);
    assert_eq!(conditional_download(5, LocalFile::Present { len: 6 }), Step::Refetch);
    assert_eq!(conditional_download(5, LocalFile::Present { len: 0 }), Step::Refetch);
    assert!(fetches(&record(HELLO, 4), Some(b"hello")));
    assert!(fetches(&record(HELLO, 6), Some(b"hello")));
}

#[test]
fn equal_length_goes_to_the_digest_check() {
    assert_eq!(conditional_download(5, LocalFile::Present { len: 5 }), Step::CheckDigest);
    assert_eq!(conditional_download(0, LocalFile::Present { len: 0 }), Step::CheckDigest);
}

#[test]
fn equal_length_fetches_only_on_digest_mismatch() {
    assert!(!needs_refetch(&record(HELLO, 5), b"hello"));
    assert!(!needs_refetch(&record(&HELLO.to_uppercase(), 5), b"hello"));
    assert!(needs_refetch(&record(HELLO, 5), b"hellp"));
    assert!(needs_refetch(&record(EMPTY, 5), b"hello"));
    assert!(!fetches(&record(HELLO, 5), Some(b"hello")));
    assert!(fetches(&record(HELLO, 5), Some(b"jello")));
    assert!(fetches(&record(HELLO, 5), None));
}

#[test]
fn second_run_transfers_nothing() {
    let source: &[u8] = b"hello";
    let wanted = record(HELLO, 5);
    let mut local: Option<Vec<u8>> = None;
    let mut transfers = 0;
    for _ in 0..2 {
        if fetches(&wanted, local.as_deref()) {
            local = Some(source.to_vec());
            transfers += 1;
        }
    }
    assert_eq!(transfers, 1);
    assert!(!fetches(&wanted, local.as_deref()));
}

#[test]
fn corrupted_file_is_fetched_once_and_then_kept() {
    let source: &[u8] = b"hello";
    let wanted = record(HELLO, 5);
    let mut local: Option<Vec<u8>> = Some(b"hxllo".to_vec());
    let mut transfers = 0;
    for _ in 0..3 {
        if fetches(&wanted, local.as_deref()) {
            local = Some(source.to_vec());
            transfers += 1;
        }
    }
    assert_eq!(transfers, 1);
    assert_eq!(local.as_deref(), Some(source));
}

#[test]
fn truncated_file_is_fetched_again() {
    let wanted = record(HELLO, 5);
    assert!(fetches(&wanted, Some(b"hel")));
}

#[test]
fn file_url_joins_with_one_slash() {
    assert_eq!(file_url("http://mirror.example/debian", "pool/f/foo.deb"), "http://mirror.example/debian/pool/f/foo.deb");
    assert_eq!(file_url("http://mirror.example/debian/", "pool/f/foo.deb"), "http://mirror.example/debian//pool/f/foo.deb");
    assert_eq!(file_url("", ""), "/");
}

#[test]
fn transfer_needs_a_content_length() {
    assert_eq!(
        Transfer::begin("http://m/x", None).err(),
        Some(MirrorError::ContentLengthMissing { url: "http://m/x".to_string() })
    );
    let transfer = Transfer::begin("http://m/x", Some(10)).ok().unwrap();
    assert_eq!(transfer.total_bytes(), 10);
    assert_eq!(transfer.downloaded_bytes(), 0);
}

#[test]
fn transfer_counts_up_to_the_announced_length() {
    let mut transfer = Transfer::begin("http://m/x", Some(10)).ok().unwrap();
    assert_eq!(transfer.advance(4), 4);
    assert_eq!(transfer.advance(0), 4);
    assert_eq!(transfer.advance(5), 9);
    assert_eq!(transfer.advance(5), 10);
    assert_eq!(transfer.advance(usize::MAX), 10);
    assert_eq!(transfer.downloaded_bytes(), 10);
    assert_eq!(transfer.total_bytes(), 10);
}

#[test]
fn transfer_of_nothing_is_complete_at_once() {
    let mut transfer = Transfer::begin("http://m/x", Some(0)).ok().unwrap();
    assert_eq!(transfer.advance(3), 0);
}

#[test]
fn download_with_a_wrong_digest_is_a_mismatch() {
    assert_eq!(check_download(&record(HELLO, 5), b"hello"), Ok(()));
    assert_eq!(check_download(&record(&HELLO.to_uppercase(), 5), b"hello"), Ok(()));
    assert_eq!(
        check_download(&record(HELLO, 5), b"hullo"),
        Err(MirrorError::DigestMismatch { path: "pool/f/foo.deb".to_string() })
    );
}
