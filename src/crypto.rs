//! Fixed-length digests and signature checks over a small set of named
//! algorithms. The primitives themselves come from the RustCrypto and dalek
//! crates; this module fixes which one runs and checks the buffer sizes.
use vstd::prelude::*;
use sha2::Digest;

verus! {

/// The signature schemes that `verify` accepts.
pub enum SignatureAlgorithm {
    Ed25519,
}

/// The digest algorithms that `hash` accepts.
#[derive(Copy, Clone, Debug)]
pub enum HashAlgorithm {
    Blake2b256,
    Blake2b512,
    Sha256,
    Sha512,
}

pub const BLAKE2B256_OUTPUT_SIZE: usize = 32;

pub const BLAKE2B512_OUTPUT_SIZE: usize = 64;

pub const SHA256_OUTPUT_SIZE: usize = 32;

pub const SHA512_OUTPUT_SIZE: usize = 64;

/// The SHA-256 digest of a byte string.
pub uninterp spec fn sha256_of(data: Seq<u8>) -> Seq<u8>;

/// The SHA-512 digest of a byte string.
pub uninterp spec fn sha512_of(data: Seq<u8>) -> Seq<u8>;

/// The BLAKE2b digest of a byte string, with 32 bytes of output.
pub uninterp spec fn blake2b256_of(data: Seq<u8>) -> Seq<u8>;

/// The BLAKE2b digest of a byte string, with 64 bytes of output.
pub uninterp spec fn blake2b512_of(data: Seq<u8>) -> Seq<u8>;

/// Whether `sig` is a valid Ed25519 signature of `data` under the public key `pk`.
pub uninterp spec fn ed25519_accepts(pk: Seq<u8>, data: Seq<u8>, sig: Seq<u8>) -> bool;

/// The number of bytes in a digest of the given algorithm.
pub open spec fn digest_len(alg: HashAlgorithm) -> nat {
    match alg {
        HashAlgorithm::Blake2b256 => 32,
        HashAlgorithm::Blake2b512 => 64,
        HashAlgorithm::Sha256 => 32,
        HashAlgorithm::Sha512 => 64,
    }
}

/// The digest of `data` under the given algorithm.
pub open spec fn digest_of(alg: HashAlgorithm, data: Seq<u8>) -> Seq<u8> {
    match alg {
        HashAlgorithm::Blake2b256 => blake2b256_of(data),
        HashAlgorithm::Blake2b512 => blake2b512_of(data),
        HashAlgorithm::Sha256 => sha256_of(data),
        HashAlgorithm::Sha512 => sha512_of(data),
    }
}

/// Relies on `sha2::Sha256::digest` (the `Digest` trait): the digest depends on
/// the data alone and is a `GenericArray` of 32 bytes.
#[verifier::external_body]
fn sha256_digest(data: &[u8]) -> (r: Vec<u8>)
    ensures
        r@ == sha256_of(data@),
        r@.len() == 32,
{
    sha2::Sha256::digest(data).to_vec()
}

/// Relies on `sha2::Sha512::digest` (the `Digest` trait): the digest depends on
/// the data alone and is a `GenericArray` of 64 bytes.
#[verifier::external_body]
fn sha512_digest(data: &[u8]) -> (r: Vec<u8>)
    ensures
        r@ == sha512_of(data@),
        r@.len() == 64,
{
    sha2::Sha512::digest(data).to_vec()
}

/// Relies on `blake2::Blake2b::<U32>::digest` (the `Digest` trait): the digest
/// depends on the data alone and is a `GenericArray` of 32 bytes.
#[verifier::external_body]
fn blake2b256_digest(data: &[u8]) -> (r: Vec<u8>)
    ensures
        r@ == blake2b256_of(data@),
        r@.len() == 32,
{
    blake2::Blake2b::<blake2::digest::consts::U32>::digest(data).to_vec()
}

/// Relies on `blake2::Blake2b512::digest` (the `Digest` trait): the digest
/// depends on the data alone and is a `GenericArray` of 64 bytes.
#[verifier::external_body]
fn blake2b512_digest(data: &[u8]) -> (r: Vec<u8>)
    ensures
        r@ == blake2b512_of(data@),
        r@.len() == 64,
{
    blake2::Blake2b512::digest(data).to_vec()
}

/// Relies on `ed25519_dalek::VerifyingKey::verify_strict`, with the key read by
/// `VerifyingKey::try_from(&[u8])` and the signature by
/// `ed25519::Signature::from_slice`. The answer depends on the three byte
/// strings alone; both readers refuse input of the wrong length (32 and 64
/// bytes), and then the answer is `false`.
#[verifier::external_body]
fn ed25519_verify_strict(pk: &[u8], data: &[u8], sig: &[u8]) -> (r: bool)
    ensures
        r == ed25519_accepts(pk@, data@, sig@),
        pk@.len() != 32 ==> !r,
        sig@.len() != 64 ==> !r,
{
    match (ed25519_dalek::VerifyingKey::try_from(pk), ed25519_dalek::Signature::from_slice(sig)) {
        (Ok(key), Ok(signature)) => key.verify_strict(data, &signature).is_ok(),
        _ => false,
    }
}

/// The digest length of an algorithm, in bytes.
pub fn output_size(alg: HashAlgorithm) -> (r: usize)
    ensures
        r == digest_len(alg),
{
    match alg {
        HashAlgorithm::Blake2b256 => BLAKE2B256_OUTPUT_SIZE,
        HashAlgorithm::Blake2b512 => BLAKE2B512_OUTPUT_SIZE,
        HashAlgorithm::Sha256 => SHA256_OUTPUT_SIZE,
        HashAlgorithm::Sha512 => SHA512_OUTPUT_SIZE,
    }
}

/// Checks a signature. Failure is reported uniformly: a malformed key, a
/// malformed signature and a signature that does not match all give `Err(())`.
pub fn verify(alg: SignatureAlgorithm, pubkey: &[u8], data: &[u8], sig: &[u8]) -> (r: Result<(), ()>)
    ensures
        r is Ok <==> (match alg {
            SignatureAlgorithm::Ed25519 => ed25519_accepts(pubkey@, data@, sig@),
        }),
{
    match alg {
        SignatureAlgorithm::Ed25519 => {
            if ed25519_verify_strict(pubkey, data, sig) {
                Ok(())
            } else {
                Err(())
            }
        },
    }
}

/// Writes the digest of `data` into `out`. Fails, leaving `out` untouched,
/// when `out` is not exactly as long as the algorithm's digest.
pub fn hash(alg: HashAlgorithm, data: &[u8], out: &mut [u8]) -> (r: Result<(), ()>)
    ensures
        r is Ok <==> old(out)@.len() == digest_len(alg),
        r is Ok ==> final(out)@ == digest_of(alg, data@),
        r is Err ==> final(out)@ == old(out)@,
{
    if out.len() != output_size(alg) {
        return Err(());
    }
    let digest = match alg {
        HashAlgorithm::Blake2b256 => blake2b256_digest(data),
        HashAlgorithm::Blake2b512 => blake2b512_digest(data),
        HashAlgorithm::Sha256 => sha256_digest(data),
        HashAlgorithm::Sha512 => sha512_digest(data),
    };
    let n = out.len();
    let mut i: usize = 0;
    while i < n
        invariant
            n == out@.len(),
            n == digest@.len(),
            0 <= i <= n,
            forall|j: int| 0 <= j < i ==> out@[j] == digest@[j],
        decreases n - i,
    {
        out[i] = digest[i];
        i = i + 1;
    }
    assert(out@ =~= digest@);
    Ok(())
}

} // verus!
