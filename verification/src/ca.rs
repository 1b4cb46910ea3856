//! The certificate pin a browser is told to trust: the base64 of the SHA-256
//! of the local authority's public key (its SubjectPublicKeyInfo), the value
//! Chromium's `--ignore-certificate-errors-spki-list` expects.

use base64::Engine;
use sha2::Digest;
use vstd::prelude::*;

use crate::proxydetect::{lines, lines_of};
use crate::text::{
    chars_to_string, extend_chars, starts_with, starts_with_exec, to_chars, trim, trim_chars,
    views,
};

verus! {

/// What `base64::engine::general_purpose::STANDARD.decode` yields for a text:
/// `None` when it refuses it.
pub uninterp spec fn base64_decoded(text: Seq<char>) -> Option<Seq<u8>>;

/// The digit of value `v` (0 to 63) in the standard base64 alphabet.
pub open spec fn b64_digit(v: int) -> char {
    "ABCDEFGHIJKLMNOPQRSTUVWXYZabcdefghijklmnopqrstuvwxyz0123456789+/"@[v]
}

/// What `STANDARD.encode` yields for some bytes: each group of three bytes
/// as four digits of six bits each, a final group of one or two bytes
/// padded with zero bits and `=` to four characters.
pub open spec fn base64_encoded(d: Seq<u8>) -> Seq<char>
    decreases d.len(),
{
    if d.len() == 0 {
        Seq::<char>::empty()
    } else if d.len() == 1 {
        let a = d[0] as int;
        seq![b64_digit(a / 4), b64_digit((a % 4) * 16), '=', '=']
    } else if d.len() == 2 {
        let (a, b) = (d[0] as int, d[1] as int);
        seq![b64_digit(a / 4), b64_digit((a % 4) * 16 + b / 16), b64_digit((b % 16) * 4), '=']
    } else {
        let (a, b, c) = (d[0] as int, d[1] as int, d[2] as int);
        seq![
            b64_digit(a / 4),
            b64_digit((a % 4) * 16 + b / 16),
            b64_digit((b % 16) * 4 + c / 64),
            b64_digit(c % 64),
        ] + base64_encoded(d.skip(3))
    }
}

/// The SHA-256 digest of some bytes, as `sha2::Sha256::digest` computes it.
pub uninterp spec fn sha256(data: Seq<u8>) -> Seq<u8>;

/// `STANDARD.decode` (standard alphabet, padded), with the error dropped.
#[verifier::external_body]
fn b64_decode(text: &str) -> (r: Option<Vec<u8>>)
    ensures
        match r {
            Some(v) => base64_decoded(text@) == Some(v@),
            None => base64_decoded(text@) is None,
        },
{
    base64::engine::general_purpose::STANDARD.decode(text).ok()
}

/// `STANDARD.encode` (standard alphabet, padded).
#[verifier::external_body]
fn b64_encode(data: &[u8]) -> (r: String)
    ensures
        r@ == base64_encoded(data@),
{
    base64::engine::general_purpose::STANDARD.encode(data)
}

/// `Sha256::digest`; the digest is 32 bytes long.
#[verifier::external_body]
fn sha256_digest(data: &[u8]) -> (r: Vec<u8>)
    ensures
        r@ == sha256(data@),
        r@.len() == 32,
{
    sha2::Sha256::digest(data).to_vec()
}

/// The lines that are not PEM armour (`-----BEGIN ...`), joined.
pub open spec fn pem_body(ls: Seq<Seq<char>>) -> Seq<char>
    decreases ls.len(),
{
    if ls.len() == 0 {
        Seq::<char>::empty()
    } else {
        let prev = pem_body(ls.drop_last());
        if starts_with(ls.last(), "-----"@) {
            prev
        } else {
            prev + ls.last()
        }
    }
}

/// The pin of a public key given as a PEM `PUBLIC KEY` block: the armour
/// lines dropped, the rest decoded from base64 (nothing when that fails),
/// hashed with SHA-256 and encoded in base64.
pub open spec fn spec_spki_pin(pem: Seq<char>) -> Seq<char> {
    let der = match base64_decoded(trim(pem_body(lines(pem)))) {
        Some(d) => d,
        None => Seq::<u8>::empty(),
    };
    base64_encoded(sha256(der))
}

/// Computes `base64(SHA-256(SubjectPublicKeyInfo))` from the public key's
/// PEM text.
pub fn spki_pin(public_key_pem: &str) -> (r: String)
    ensures
        r@ == spec_spki_pin(public_key_pem@),
{
    let ls = lines_of(&to_chars(public_key_pem));
    let ghost all = views(ls@);
    let armour = to_chars("-----");
    let mut body: Vec<char> = Vec::new();
    let mut i: usize = 0;
    assert(all.take(0) =~= Seq::<Seq<char>>::empty());
    while i < ls.len()
        invariant
            i <= ls@.len(),
            all == views(ls@),
            armour@ == "-----"@,
            body@ == pem_body(all.take(i as int)),
        decreases ls@.len() - i,
    {
        proof {
            assert(all.take(i + 1).drop_last() =~= all.take(i as int));
            assert(all.take(i + 1).last() == ls@[i as int]@);
        }
        if !starts_with_exec(&ls[i], &armour) {
            extend_chars(&mut body, &ls[i]);
        }
        i = i + 1;
    }
    assert(all.take(ls@.len() as int) =~= all);
    let text = chars_to_string(&trim_chars(&body));
    let der = match b64_decode(text.as_str()) {
        Some(d) => d,
        None => Vec::new(),
    };
    let digest = sha256_digest(der.as_slice());
    b64_encode(digest.as_slice())
}

} // verus!
