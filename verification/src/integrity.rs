//! The verification engine: the cheap comparison of sizes and the expensive
//! comparison of content digests.

use crate::text::to_chars;
use vstd::prelude::*;
use vstd::string::*;

verus! {

/// The code of `c` with the ASCII capitals `A` to `Z` mapped to their small
/// letters; every other character keeps its own code.
pub open spec fn fold_case(c: char) -> u32 {
    if 0x41 <= c as u32 <= 0x5a {
        (c as u32 + 0x20) as u32
    } else {
        c as u32
    }
}

/// `a` and `b` are the same text up to the case of ASCII letters.
pub open spec fn same_ignoring_case(a: Seq<char>, b: Seq<char>) -> bool {
    &&& a.len() == b.len()
    &&& forall|i: int| 0 <= i < a.len() ==> fold_case(#[trigger] a[i]) == fold_case(b[i])
}

/// The SHA-256 digest of `data`, written as 64 hexadecimal digits.
pub uninterp spec fn sha256_hex(data: Seq<u8>) -> Seq<char>;

/// Size check, the first gate: the local length is exactly the expected one.
pub fn sizes_match(expected: u64, actual_len: u64) -> (same: bool)
    ensures
        same == (expected == actual_len),
{
    expected == actual_len
}

fn fold_case_of(c: char) -> (code: u32)
    ensures
        code == fold_case(c),
{
    let code: u32 = c as u32;
    if 0x41 <= code && code <= 0x5a {
        code + 0x20
    } else {
        code
    }
}

/// Whether a computed digest is the expected one, whatever the case of the
/// hexadecimal letters on either side.
pub fn digests_equal(actual: &str, expected: &str) -> (same: bool)
    ensures
        same == same_ignoring_case(actual@, expected@),
{
    let a = to_chars(actual);
    let b = to_chars(expected);
    if a.len() != b.len() {
        return false;
    }
    let mut i: usize = 0;
    while i < a.len()
        invariant
            i <= a.len(),
            a.len() == b.len(),
            a@ == actual@,
            b@ == expected@,
            forall|j: int| 0 <= j < i ==> fold_case(#[trigger] a@[j]) == fold_case(b@[j]),
        decreases a.len() - i,
    {
        if fold_case_of(a[i]) != fold_case_of(b[i]) {
            return false;
        }
        i += 1;
    }
    true
}

/// Computes the SHA-256 digest of `data` in hexadecimal.
///
/// Trusted: stands for `sha256::digest` on a byte slice, which hashes the
/// bytes with SHA-256 and writes the 32 bytes of the digest as hexadecimal
/// digits. The result depends on the bytes alone; the contract gives it the
/// name [`sha256_hex`].
#[verifier::external_body]
fn sha256_digest(data: &[u8]) -> (hex: String)
    ensures
        hex@ == sha256_hex(data@),
{
    sha256::digest(data)
}

/// Digest check, the second gate: whether the content of a local file has
/// the expected digest. Reads all of `contents`.
pub fn compare_file_hash(contents: &[u8], digest: &str) -> (same: bool)
    ensures
        same == same_ignoring_case(sha256_hex(contents@), digest@),
{
    let actual = sha256_digest(contents);
    digests_equal(actual.as_str(), digest)
}

} // verus!
