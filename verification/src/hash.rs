//! Naming the bytes a plan was derived from.
//!
//! A plan records what it read by hash, so that an old plan can be checked
//! against the files it claims to come from.

use vstd::prelude::*;

use sha2::Digest;

use crate::text::{push_char, push_str};

verus! {

/// The SHA-256 digest of `data`.
pub uninterp spec fn sha256(data: Seq<u8>) -> Seq<u8>;

/// Calls `sha2::Sha256::digest`, which hashes `data` in one go.
///
/// Claims that the result is the digest of exactly these bytes, and that it
/// is thirty-two bytes long, the output size the `Sha256` type is declared
/// with. What the digest is, is not stated.
#[verifier::external_body]
fn sha256_of(data: &[u8]) -> (res: Vec<u8>)
    ensures
        res@ == sha256(data@),
        res@.len() == 32,
{
    sha2::Sha256::digest(data).to_vec()
}

/// A lowercase hexadecimal digit.
pub open spec fn hex_digit(d: u8) -> char {
    if d < 10 {
        (48 + d) as char
    } else {
        (87 + d) as char
    }
}

/// Bytes as lowercase hexadecimal, two digits each, most significant first.
pub open spec fn hex_text(bytes: Seq<u8>) -> Seq<char>
    decreases bytes.len(),
{
    if bytes.len() == 0 {
        Seq::empty()
    } else {
        hex_text(bytes.drop_last()) + seq![
            hex_digit(bytes.last() / 16),
            hex_digit(bytes.last() % 16),
        ]
    }
}

fn hex_char(d: u8) -> (res: char)
    requires
        d < 16,
    ensures
        res == hex_digit(d),
{
    if d < 10 {
        (48 + d) as char
    } else {
        (87 + d) as char
    }
}

/// `sha256:` and the digest in lowercase hexadecimal.
pub fn label(digest: &[u8]) -> (res: String)
    ensures
        res@ == "sha256:"@ + hex_text(digest@),
{
    let mut out = String::new();
    push_str(&mut out, "sha256:");
    let ghost start = out@;
    let mut i: usize = 0;
    proof {
        assert(digest@.take(0) =~= Seq::<u8>::empty());
    }
    while i < digest.len()
        invariant
            i <= digest@.len(),
            start == "sha256:"@,
            out@ == start + hex_text(digest@.take(i as int)),
        decreases digest.len() - i,
    {
        let b = digest[i];
        push_char(&mut out, hex_char(b / 16));
        push_char(&mut out, hex_char(b % 16));
        proof {
            let t = digest@.take(i + 1);
            assert(t.drop_last() =~= digest@.take(i as int));
            assert(t.last() == b);
            assert(out@ =~= start + hex_text(t));
        }
        i = i + 1;
    }
    proof {
        assert(digest@.take(i as int) =~= digest@);
    }
    out
}

proof fn lemma_hex_len(bytes: Seq<u8>)
    ensures
        hex_text(bytes).len() == 2 * bytes.len(),
    decreases bytes.len(),
{
    if bytes.len() > 0 {
        lemma_hex_len(bytes.drop_last());
    }
}

/// `sha256:` and sixty-four hex characters, over the bytes as given.
pub fn hash_label(data: &[u8]) -> (res: String)
    ensures
        res@ == "sha256:"@ + hex_text(sha256(data@)),
        res@.len() == 71,
{
    let digest = sha256_of(data);
    proof {
        lemma_hex_len(digest@);
        reveal_strlit("sha256:");
    }
    label(digest.as_slice())
}

} // verus!
