//! SHA-1 digests of transferred data and their lowercase hexadecimal form.

use vstd::prelude::*;
use sha1::Digest;

verus! {

/// A running SHA-1 hasher of the `sha1` crate, held in a private field.  `sha1::Sha1` is
/// an alias of the generic `CoreWrapper<Sha1Core>`, whose bounds are written with
/// `typenum`; the hasher is reached only through the functions below, and what it holds
/// is the input it has processed, `sha1_input`.
#[verifier::external_body]
pub struct Sha1Hasher {
    inner: sha1::Sha1,
}

/// The SHA-1 digest of `data`.
pub uninterp spec fn sha1_digest(data: Seq<u8>) -> Seq<u8>;

/// The bytes that a running SHA-1 hasher has processed so far.
pub uninterp spec fn sha1_input(hasher: Sha1Hasher) -> Seq<u8>;

/// `Digest::new` for `sha1::Sha1`: a hasher that has processed nothing.
#[verifier::external_body]
pub(crate) fn sha1_new() -> (hasher: Sha1Hasher)
    ensures
        sha1_input(hasher) == Seq::<u8>::empty(),
{
    Sha1Hasher { inner: sha1::Sha1::new() }
}

/// `Digest::update` for `sha1::Sha1` ("Process data, updating the internal state"): the
/// hasher goes on to process `data` after what it processed before.
#[verifier::external_body]
pub(crate) fn sha1_update(hasher: &mut Sha1Hasher, data: &[u8])
    ensures
        sha1_input(*final(hasher)) == sha1_input(*old(hasher)) + data@,
{
    hasher.inner.update(data);
}

/// `Digest::finalize` for `sha1::Sha1`: the SHA-1 digest of all that the hasher processed,
/// `OutputSize = U20` bytes long.
#[verifier::external_body]
pub(crate) fn sha1_finalize(hasher: Sha1Hasher) -> (digest: Vec<u8>)
    ensures
        digest@ == sha1_digest(sha1_input(hasher)),
        digest@.len() == 20,
{
    hasher.inner.finalize().to_vec()
}

/// The ASCII code of the lowercase hexadecimal digit for `v` (`0 <= v < 16`).
pub open spec fn hex_digit(v: int) -> u8 {
    if v < 10 {
        (48 + v) as u8
    } else {
        (87 + v) as u8
    }
}

/// The lowercase hexadecimal form of `bytes`, as ASCII bytes: two digits per byte, the high
/// half first (what `format!("{:x}", ..)` writes for a digest).
pub open spec fn lower_hex(bytes: Seq<u8>) -> Seq<u8> {
    Seq::new(
        2 * bytes.len(),
        |i: int|
            if i % 2 == 0 {
                hex_digit((bytes[i / 2] / 16) as int)
            } else {
                hex_digit((bytes[i / 2] % 16) as int)
            },
    )
}

fn hex_digit_of(v: u8) -> (d: u8)
    requires
        v < 16,
    ensures
        d == hex_digit(v as int),
{
    if v < 10 {
        48 + v
    } else {
        87 + v
    }
}

/// The lowercase hexadecimal form of `bytes`.
pub fn to_lower_hex(bytes: &[u8]) -> (hex: Vec<u8>)
    requires
        2 * bytes@.len() <= usize::MAX,
    ensures
        hex@ == lower_hex(bytes@),
{
    let mut hex: Vec<u8> = Vec::new();
    let mut i: usize = 0;
    while i < bytes.len()
        invariant
            i <= bytes@.len(),
            hex@.len() == 2 * i,
            forall|k: int| 0 <= k < 2 * i ==> hex@[k] == lower_hex(bytes@)[k],
        decreases bytes@.len() - i,
    {
        let b = bytes[i];
        hex.push(hex_digit_of(b / 16));
        hex.push(hex_digit_of(b % 16));
        proof {
            assert forall|k: int| 0 <= k < 2 * (i + 1) implies hex@[k] == lower_hex(
                bytes@,
            )[k] by {
                if k >= 2 * i {
                    assert(k / 2 == i as int);
                }
            }
        }
        i = i + 1;
    }
    assert(hex@ =~= lower_hex(bytes@));
    hex
}

/// The SHA-1 digest of `data`, 20 bytes long.
pub fn sha1_of(data: &[u8]) -> (digest: Vec<u8>)
    ensures
        digest@ == sha1_digest(data@),
        digest@.len() == 20,
{
    let mut hasher = sha1_new();
    sha1_update(&mut hasher, data);
    assert(sha1_input(hasher) =~= data@);
    sha1_finalize(hasher)
}

} // verus!
