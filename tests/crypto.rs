use ed25519_dalek::{Signer, SigningKey};
use rust_server::crypto::{hash, output_size, verify, HashAlgorithm, SignatureAlgorithm};

fn hex(b: &[u8]) -> String {
    b.iter().map(|x| format!("{:02x}", x)).collect()
}

fn digest(alg: HashAlgorithm, data: &[u8]) -> Vec<u8> {
    let mut out = vec![0u8; output_size(alg)];
    assert_eq!(hash(alg, data, &mut out), Ok(()));
    out
}

#[test]
fn sha256_of_empty_is_fixed_and_deterministic() {
    let a = digest(HashAlgorithm::Sha256, b"");
    let b = digest(HashAlgorithm::Sha256, b"");
    assert_eq!(a.len(), 32);
    assert_eq!(a, b);
    assert_eq!(hex(&a), "e3b0c44298fc1c149afbf4c8996fb92427ae41e4649b934ca495991b7852b855");
}

#[test]
fn sha256_of_abc() {
    assert_eq!(
        hex(&digest(HashAlgorithm::Sha256, b"abc")),
        "ba7816bf8f01cfea414140de5dae2223b00361a396177a9cb410ff61f20015ad"
    );
}

#[test]
fn sha512_of_empty() {
    assert_eq!(
        hex(&digest(HashAlgorithm::Sha512, b"")),
        "cf83e1357eefb8bdf1542850d66d8007d620e4050b5715dc83f4a921d36ce9ce\
         47d0d13c5d85f2b0ff8318d2877eec2f63b931bd47417a81a538327af927da3e"
    );
}

#[test]
fn blake2b512_of_empty() {
    assert_eq!(
        hex(&digest(HashAlgorithm::Blake2b512, b"")),
        "786a02f742015903c6c6fd852552d272912f4740e15847618a86e217f71f5419\
         d25e1031afee585313896444934eb04b903a685b1448b755d56f701afe9be2ce"
    );
}

#[test]
fn blake2b256_of_empty() {
    assert_eq!(
        hex(&digest(HashAlgorithm::Blake2b256, b"")),
        "0e5751c026e543b2e8ab2eb06099daa1d1e5df47778f7787faab45cdf12fe3a8"
    );
}

#[test]
fn output_sizes() {
    assert_eq!(output_size(HashAlgorithm::Blake2b256), 32);
    assert_eq!(output_size(HashAlgorithm::Blake2b512), 64);
    assert_eq!(output_size(HashAlgorithm::Sha256), 32);
    assert_eq!(output_size(HashAlgorithm::Sha512), 64);
}

#[test]
fn wrong_buffer_length_is_refused_and_untouched() {
    let mut short = vec![7u8; 31];
    assert_eq!(hash(HashAlgorithm::Sha256, b"abc", &mut short), Err(()));
    assert_eq!(short, vec![7u8; 31]);
    let mut long = vec![7u8; 64];
    assert_eq!(hash(HashAlgorithm::Blake2b256, b"abc", &mut long), Err(()));
    assert_eq!(long, vec![7u8; 64]);
}

#[test]
fn ed25519_accepts_a_good_signature_and_rejects_others() {
    let key = SigningKey::from_bytes(&[7u8; 32]);
    let public = key.verifying_key().to_bytes();
    let msg = b"attack at dawn";
    let sig = key.sign(msg).to_bytes();
    assert_eq!(verify(SignatureAlgorithm::Ed25519, &public, msg, &sig), Ok(()));

    let mut bad = sig;
    bad[0] ^= 1;
    assert_eq!(verify(SignatureAlgorithm::Ed25519, &public, msg, &bad), Err(()));
    assert_eq!(verify(SignatureAlgorithm::Ed25519, &public, b"attack at dusk", &sig), Err(()));
    assert_eq!(verify(SignatureAlgorithm::Ed25519, &public[..31], msg, &sig), Err(()));
    assert_eq!(verify(SignatureAlgorithm::Ed25519, &public, msg, &sig[..63]), Err(()));
}
