use flate2::write::GzEncoder;
use flate2::Compression;
use repo_mirror::error::{DecodeFault, MirrorError};
use repo_mirror::package::{
    decode_index, parse_packages, read_field, Accumulator, Field, Package,
};
use std::io::Write;

const DIGEST_A: &str = "2cf24dba5fb0a30e26e83b2ac5b9e29e1b161e5c1fa7425e73043362938b9824";
const DIGEST_B: &str = "486ea46224d1bb4fb680f34f7c9ad96a8f24ec88be73ea8e5a6c65260e9cb8a7";

fn gzip(text: &[u8]) -> Vec<u8> {
    let mut encoder = GzEncoder::new(Vec::new(), Compression::default());
    encoder.write_all(text).unwrap();
    encoder.finish().unwrap()
}

fn block(name: &str, version: &str, filename: &str, digest: &str, size: &str) -> String {
    format!(
        "Package: {}\nVersion: {}\nFilename: {}\nSHA256: {}\nSize: {}\n\n",
        name, version, filename, digest, size
    )
}

fn record(name: &str, version: &str, filename: &str, digest: &str, size: u64) -> Package {
    Package {
        name: name.to_string(),
        version: version.to_string(),
        filename: filename.to_string(),
        sha256: digest.to_string(),
        size,
    }
}

#[test]
fn new_package_is_empty() {
    let package = Package::new();
    assert_eq!(package, record("", "", "", "", 0));
    assert!(!package.is_complete());
}

#[test]
fn clone_keeps_every_field() {
    let package = record("foo", "1.0", "pool/f/foo.deb", DIGEST_A, 7);
    assert_eq!(package.clone(), package);
}

#[test]
fn completeness_is_a_digest_of_64_characters() {
    assert!(record("", "", "", DIGEST_A, 0).is_complete());
    assert!(!record("foo", "1", "f", &DIGEST_A[..63], 1).is_complete());
    assert!(!record("foo", "1", "f", &format!("{}0", DIGEST_A), 1).is_complete());
    let wide: String = std::iter::repeat('\u{e9}').take(64).collect();
    assert!(record("foo", "1", "f", &wide, 1).is_complete());
    let narrow: String = std::iter::repeat('\u{e9}').take(32).collect();
    assert!(!record("foo", "1", "f", &narrow, 1).is_complete());
}

#[test]
fn read_field_recognises_each_marker() {
    assert_eq!(read_field("Package: foo"), Ok(Field::Name("foo".to_string())));
    assert_eq!(read_field("Version: 1.0-2"), Ok(Field::Version("1.0-2".to_string())));
    assert_eq!(read_field("Filename: pool/f/foo.deb"), Ok(Field::Filename("pool/f/foo.deb".to_string())));
    assert_eq!(read_field("SHA256: abc"), Ok(Field::Digest("abc".to_string())));
    assert_eq!(read_field("Size: 1024"), Ok(Field::Size(1024)));
    assert_eq!(read_field("Description: a thing"), Ok(Field::Other));
    assert_eq!(read_field(""), Ok(Field::Other));
    assert_eq!(read_field("Package:foo"), Ok(Field::Other));
    assert_eq!(read_field(" Package: foo"), Ok(Field::Other));
    assert_eq!(read_field("Package: "), Ok(Field::Name(String::new())));
}

#[test]
fn read_field_takes_the_whole_remainder() {
    assert_eq!(read_field("Package: foo: bar"), Ok(Field::Name("foo: bar".to_string())));
    assert_eq!(read_field("Version: 1:2.0"), Ok(Field::Version("1:2.0".to_string())));
}

#[test]
fn read_field_fails_on_an_unreadable_size() {
    assert_eq!(
        read_field("Size: big"),
        Err(MirrorError::DecodeFailed { fault: DecodeFault::Size { value: "big".to_string() } })
    );
    assert_eq!(
        read_field("Size: "),
        Err(MirrorError::DecodeFailed { fault: DecodeFault::Size { value: String::new() } })
    );
    assert_eq!(
        read_field("Size: 18446744073709551616"),
        Err(MirrorError::DecodeFailed {
            fault: DecodeFault::Size { value: "18446744073709551616".to_string() }
        })
    );
}

#[test]
fn accumulator_emits_on_the_next_name_only() {
    let mut acc = Accumulator::new();
    assert_eq!(acc.observe(Field::Name("foo".to_string())), None);
    assert_eq!(acc.observe(Field::Version("1.0".to_string())), None);
    assert_eq!(acc.observe(Field::Filename("pool/foo.deb".to_string())), None);
    assert_eq!(acc.observe(Field::Digest(DIGEST_A.to_string())), None);
    assert_eq!(acc.observe(Field::Size(1024)), None);
    assert_eq!(acc.observe(Field::Other), None);
    assert_eq!(
        acc.observe(Field::Name("bar".to_string())),
        Some(record("foo", "1.0", "pool/foo.deb", DIGEST_A, 1024))
    );
    assert_eq!(acc.observe(Field::Name("baz".to_string())), None);
    assert_eq!(acc.finalize(), None);
}

#[test]
fn accumulator_keeps_the_last_value_of_a_field() {
    let mut acc = Accumulator::new();
    acc.observe(Field::Name("foo".to_string()));
    acc.observe(Field::Size(1));
    acc.observe(Field::Digest("short".to_string()));
    acc.observe(Field::Size(2));
    acc.observe(Field::Digest(DIGEST_B.to_string()));
    assert_eq!(acc.finalize(), Some(record("foo", "", "", DIGEST_B, 2)));
}

#[test]
fn accumulator_reset_forgets_everything() {
    let mut acc = Accumulator::new();
    acc.observe(Field::Name("foo".to_string()));
    acc.observe(Field::Digest(DIGEST_A.to_string()));
    acc.reset();
    assert_eq!(acc.observe(Field::Name("bar".to_string())), None);
}

#[test]
fn one_complete_block_and_a_second_marker_yield_one_record() {
    let text = format!(
        "Package: foo\nVersion: 1.0\nFilename: pool/f/foo/foo_1.0_amd64.deb\nSHA256: {}\nSize: 1024\n\nPackage: bar\n",
        DIGEST_A
    );
    let records = parse_packages(&text).unwrap();
    assert_eq!(
        records,
        vec![record("foo", "1.0", "pool/f/foo/foo_1.0_amd64.deb", DIGEST_A, 1024)]
    );
}

#[test]
fn the_last_block_is_never_emitted() {
    let text = block("foo", "1.0", "pool/foo.deb", DIGEST_A, "10");
    assert_eq!(parse_packages(&text), Ok(vec![]));
    let three = format!(
        "{}{}{}",
        block("a", "1", "pool/a.deb", DIGEST_A, "1"),
        block("b", "2", "pool/b.deb", DIGEST_B, "2"),
        block("c", "3", "pool/c.deb", DIGEST_A, "3")
    );
    assert_eq!(
        parse_packages(&three),
        Ok(vec![record("a", "1", "pool/a.deb", DIGEST_A, 1), record("b", "2", "pool/b.deb", DIGEST_B, 2)])
    );
}

#[test]
fn blocks_without_a_full_digest_are_dropped() {
    let text = format!(
        "{}Package: nodigest\nVersion: 1\nFilename: pool/n.deb\nSize: 5\n\n{}{}",
        block("short", "1", "pool/s.deb", "abc", "1"),
        block("good", "2", "pool/g.deb", DIGEST_B, "2"),
        block("last", "3", "pool/l.deb", DIGEST_A, "3")
    );
    assert_eq!(parse_packages(&text), Ok(vec![record("good", "2", "pool/g.deb", DIGEST_B, 2)]));
}

#[test]
fn records_do_not_inherit_fields_of_the_block_before() {
    let text = format!(
        "{}Package: bare\nSHA256: {}\nPackage: end\n",
        block("full", "1", "pool/f.deb", DIGEST_A, "9"),
        DIGEST_B
    );
    assert_eq!(
        parse_packages(&text),
        Ok(vec![record("full", "1", "pool/f.deb", DIGEST_A, 9), record("bare", "", "", DIGEST_B, 0)])
    );
}

#[test]
fn fields_before_the_first_name_make_a_nameless_record() {
    let text = format!("SHA256: {}\nSize: 3\nPackage: foo\n", DIGEST_A);
    assert_eq!(parse_packages(&text), Ok(vec![record("", "", "", DIGEST_A, 3)]));
}

#[test]
fn unreadable_size_fails_the_whole_index() {
    let text = format!(
        "{}Package: bad\nSize: 12x\nPackage: next\nSize: oops\n",
        block("a", "1", "pool/a.deb", DIGEST_A, "1")
    );
    assert_eq!(
        parse_packages(&text),
        Err(MirrorError::DecodeFailed { fault: DecodeFault::Size { value: "12x".to_string() } })
    );
}

#[test]
fn empty_text_has_no_records() {
    assert_eq!(parse_packages(""), Ok(vec![]));
}

#[test]
fn decode_index_inflates_and_decodes() {
    let text = format!(
        "{}{}",
        block("foo", "1.0", "pool/f/foo/foo_1.0_amd64.deb", DIGEST_A, "1024"),
        block("bar", "2.0", "pool/b/bar/bar_2.0_amd64.deb", DIGEST_B, "2048")
    );
    let records = decode_index(gzip(text.as_bytes())).unwrap();
    assert_eq!(
        records,
        vec![record("foo", "1.0", "pool/f/foo/foo_1.0_amd64.deb", DIGEST_A, 1024)]
    );
}

#[test]
fn decode_index_refuses_what_is_no_gzip() {
    let text = block("foo", "1.0", "pool/foo.deb", DIGEST_A, "1");
    assert_eq!(
        decode_index(text.into_bytes()),
        Err(MirrorError::DecodeFailed { fault: DecodeFault::Stream })
    );
    assert_eq!(
        decode_index(Vec::new()),
        Err(MirrorError::DecodeFailed { fault: DecodeFault::Stream })
    );
}

#[test]
fn decode_index_refuses_a_damaged_stream() {
    let mut blob = gzip(block("foo", "1.0", "pool/foo.deb", DIGEST_A, "1").as_bytes());
    let cut = blob.len() / 2;
    blob.truncate(cut);
    assert_eq!(
        decode_index(blob),
        Err(MirrorError::DecodeFailed { fault: DecodeFault::Stream })
    );
}

#[test]
fn decode_index_refuses_text_that_is_not_utf8() {
    assert_eq!(
        decode_index(gzip(&[0x50, 0xff, 0xfe, 0x0a])),
        Err(MirrorError::DecodeFailed { fault: DecodeFault::Stream })
    );
}

#[test]
fn decode_index_passes_on_a_size_fault() {
    let blob = gzip(b"Package: foo\nSize: -1\n");
    assert_eq!(
        decode_index(blob),
        Err(MirrorError::DecodeFailed { fault: DecodeFault::Size { value: "-1".to_string() } })
    );
}
