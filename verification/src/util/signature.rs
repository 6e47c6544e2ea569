use rsa::pkcs1::{DecodeRsaPrivateKey, DecodeRsaPublicKey, EncodeRsaPrivateKey, EncodeRsaPublicKey};
use rsa::signature::{SignatureEncoding, Signer, Verifier};
use vstd::prelude::*;

use crate::util::key::{spec_key_bytes, spec_signature_by, spec_verifies, spec_is_valid_public_key, KeyError, PK, SK};
use crate::util::hexcode::hex_decode;

verus! {

/// Raw signature bytes as they travel inside blocks and transactions.
pub type Signature = Vec<u8>;

/// Signature bytes produced by [`sign`].
#[derive(Debug, Default, PartialEq, Eq)]
pub struct SignatureWrapper(pub Vec<u8>);

/// Whether the bytes parse as a PKCS#1 DER RSA public key.
pub uninterp spec fn spec_rsa_public_key_parses(der: Seq<u8>) -> bool;

/// The PKCS#1 DER public key that belongs to a PKCS#1 DER private key, if
/// the private key parses.
pub uninterp spec fn spec_rsa_public_der_of(private_der: Seq<u8>) -> Option<Seq<u8>>;

/// The RSASSA-PKCS1-v1_5 signature with SHA-256 of `data` under a PKCS#1 DER
/// private key, if the key parses and signing succeeds.
pub uninterp spec fn spec_rsa_sign(private_der: Seq<u8>, data: Seq<u8>) -> Option<Seq<u8>>;

/// Whether `signature` is a valid RSASSA-PKCS1-v1_5 signature with SHA-256 of
/// `data` under a PKCS#1 DER public key.
pub uninterp spec fn spec_rsa_verify(public_der: Seq<u8>, data: Seq<u8>, signature: Seq<u8>) -> bool;

/// Calls `RsaPublicKey::from_pkcs1_der` and reports whether it succeeds.
#[verifier::external_body]
pub(crate) fn rsa_public_key_parses(der: &[u8]) -> (res: bool)
    ensures
        res == spec_rsa_public_key_parses(der@),
{
    rsa::RsaPublicKey::from_pkcs1_der(der).is_ok()
}

/// Calls `RsaPrivateKey::from_pkcs1_der`, `to_public_key` and
/// `RsaPublicKey::to_pkcs1_der`. Claimed: the result is named by the input
/// bytes. Whether the public key parses back is not claimed: `rsa` parses
/// public keys only up to 4096 bits, private keys of any size.
#[verifier::external_body]
pub(crate) fn rsa_public_der_of(private_der: &[u8]) -> (res: Option<Vec<u8>>)
    ensures
        match res {
            Some(p) => spec_rsa_public_der_of(private_der@) == Some(p@),
            None => spec_rsa_public_der_of(private_der@) is None,
        },
{
    let key = rsa::RsaPrivateKey::from_pkcs1_der(private_der).ok()?;
    key.to_public_key().to_pkcs1_der().ok().map(|d| d.as_bytes().to_vec())
}

/// Calls `RsaPrivateKey::from_pkcs1_der` and `SigningKey::<Sha256>::try_sign`
/// (PKCS#1 v1.5 signing, deterministic). Claimed: the result is named by the
/// key and data; a key that signs also has a public key; and, as RSA
/// guarantees, a signature that is produced verifies under that public key
/// when the public key parses. When signing succeeds is not claimed here
/// (it also fails for parsed keys whose factors are not prime); see
/// `rsa_generate` for the keys this node makes.
#[verifier::external_body]
pub(crate) fn rsa_sign(private_der: &[u8], data: &[u8]) -> (res: Option<Vec<u8>>)
    ensures
        match res {
            Some(s) => spec_rsa_sign(private_der@, data@) == Some(s@)
                && spec_rsa_public_der_of(private_der@) is Some
                && (spec_rsa_public_key_parses(spec_rsa_public_der_of(private_der@).unwrap()) ==> spec_rsa_verify(
                spec_rsa_public_der_of(private_der@).unwrap(),
                data@,
                s@,
            )),
            None => spec_rsa_sign(private_der@, data@) is None,
        },
{
    let key = rsa::RsaPrivateKey::from_pkcs1_der(private_der).ok()?;
    let signing_key = rsa::pkcs1v15::SigningKey::<rsa::sha2::Sha256>::new(key);
    signing_key.try_sign(data).ok().map(|s| s.to_vec())
}

/// Calls `RsaPublicKey::from_pkcs1_der`, `Signature::try_from` (which never
/// fails in `rsa`'s source) and `VerifyingKey::<Sha256>::verify`. The key
/// must parse (`from_pkcs1_der` is unwrapped); the verdict is named by the
/// key, the data and the signature.
#[verifier::external_body]
pub(crate) fn rsa_verify(public_der: &[u8], data: &[u8], signature: &[u8]) -> (res: bool)
    requires
        spec_rsa_public_key_parses(public_der@),
    ensures
        res == spec_rsa_verify(public_der@, data@, signature@),
{
    let key = rsa::RsaPublicKey::from_pkcs1_der(public_der).unwrap();
    let signature = rsa::pkcs1v15::Signature::try_from(signature).unwrap();
    let verifying_key = rsa::pkcs1v15::VerifyingKey::<rsa::sha2::Sha256>::new(key);
    verifying_key.verify(data, &signature).is_ok()
}

/// Calls `RsaPrivateKey::new` with the operating system's random source and
/// `RsaPrivateKey::to_pkcs1_der`. The key is random, so nothing names it.
/// Claimed, from `rsa`'s source: from 64 bits on, generation succeeds (prime
/// generation only returns once it has two distinct primes whose product has
/// exactly the requested number of bits, that key passes `validate`, and a
/// two-prime key always encodes); the key parses back and has a public key,
/// which parses as a public key when it has at most 4096 bits; and from 489
/// bits on (a modulus of at least 62 bytes, room for the SHA-256 PKCS#1 v1.5
/// padding) the key signs any data, its factors being primes (probable
/// primes, as `rsa` tests them). The random source panics if the operating
/// system cannot give randomness.
#[verifier::external_body]
pub(crate) fn rsa_generate(bits: usize) -> (res: Option<Vec<u8>>)
    ensures
        res matches Some(k) ==> spec_rsa_public_der_of(k@) is Some,
        res matches Some(k) ==> (bits <= 4096 ==> spec_rsa_public_key_parses(
            spec_rsa_public_der_of(k@).unwrap(),
        )),
        res matches Some(k) ==> (bits >= 489 ==> forall|d: Seq<u8>| #[trigger] spec_rsa_sign(k@, d) is Some),
        bits >= 64 ==> res is Some,
{
    let mut rng = rsa::rand_core::OsRng;
    let key = rsa::RsaPrivateKey::new(&mut rng, bits).ok()?;
    key.to_pkcs1_der().ok().map(|d| d.as_bytes().to_vec())
}

/// Signs `data` with the secret key: the RSASSA-PKCS1-v1_5 / SHA-256
/// signature, or an error when the key text does not decode or signing fails.
pub fn sign(data: &[u8], sk: SK) -> (res: Result<SignatureWrapper, KeyError>)
    ensures
        match res {
            Ok(w) => spec_signature_by(sk.der@, data@) == Some(w.0@),
            Err(_) => spec_signature_by(sk.der@, data@) is None,
        },
{
    match sign_bytes(data, &sk) {
        Ok(s) => Ok(SignatureWrapper(s)),
        Err(e) => Err(e),
    }
}

/// Verifies a signature over `data` under the public key.
pub fn verify(data: &[u8], pk: PK, signature_wrapper: &SignatureWrapper) -> (res: bool)
    requires
        spec_is_valid_public_key(pk.der@),
    ensures
        res == spec_verifies(pk.der@, data@, signature_wrapper.0@),
{
    verify_bytes(data, &pk, signature_wrapper.0.as_slice())
}

/// The signature bytes of `data` under the secret key.
pub(crate) fn sign_bytes(data: &[u8], sk: &SK) -> (res: Result<Vec<u8>, KeyError>)
    ensures
        match res {
            Ok(s) => spec_signature_by(sk.der@, data@) == Some(s@)
                && spec_key_bytes(sk.der@) is Some
                && spec_rsa_public_der_of(spec_key_bytes(sk.der@).unwrap()) is Some
                && (spec_rsa_public_key_parses(spec_rsa_public_der_of(spec_key_bytes(sk.der@).unwrap()).unwrap())
                ==> spec_rsa_verify(
                    spec_rsa_public_der_of(spec_key_bytes(sk.der@).unwrap()).unwrap(),
                    data@,
                    s@,
                )),
            Err(_) => spec_signature_by(sk.der@, data@) is None,
        },
{
    let bytes = match hex_decode(sk.der.as_str().as_bytes()) {
        Some(b) => b,
        None => return Err(KeyError::InvalidEncoding),
    };
    match rsa_sign(bytes.as_slice(), data) {
        Some(s) => Ok(s),
        None => Err(KeyError::SigningFailed),
    }
}

/// Whether `signature` is a valid signature of `data` under the public key.
pub(crate) fn verify_bytes(data: &[u8], pk: &PK, signature: &[u8]) -> (res: bool)
    requires
        spec_is_valid_public_key(pk.der@),
    ensures
        res == spec_verifies(pk.der@, data@, signature@),
{
    let bytes = match hex_decode(pk.der.as_str().as_bytes()) {
        Some(b) => b,
        None => return false,
    };
    rsa_verify(bytes.as_slice(), data, signature)
}

} // verus!
