use vstd::prelude::*;
use vstd::utf8::{encode_utf8, is_ascii_chars, is_ascii_chars_encode_utf8};

use crate::util::bytes::{put_quoted, put_str, quoted_bytes, text_bytes};
use crate::util::hexcode::{hex_decode, hex_digit_char, hex_digit_value, hex_encode, spec_hex_decode, spec_hex_encode};
use crate::util::signature::{
    rsa_generate, rsa_public_der_of, rsa_public_key_parses, sign_bytes, spec_rsa_public_der_of, spec_rsa_public_key_parses,
    spec_rsa_sign, spec_rsa_verify, verify_bytes, Signature,
};

verus! {

/// A public key: the hexadecimal text of its PKCS#1 DER encoding.
#[derive(Debug, PartialEq, Eq, Hash)]
pub struct PK {
    pub der: String,
}

/// A secret key: the hexadecimal text of its PKCS#1 DER encoding.
#[derive(Debug, PartialEq, Eq)]
pub struct SK {
    pub der: String,
}

/// Why a key operation failed.
#[derive(Debug, Clone, Copy, PartialEq, Eq)]
pub enum KeyError {
    /// The key text is not hexadecimal.
    InvalidEncoding,
    /// The key bytes are not a usable RSA key.
    InvalidKey,
    /// Signing failed.
    SigningFailed,
    /// No key could be generated.
    GenerationFailed,
}

impl Clone for PK {
    fn clone(&self) -> (res: Self)
        ensures
            res == *self,
    {
        PK { der: self.der.clone() }
    }
}

impl Clone for SK {
    fn clone(&self) -> (res: Self)
        ensures
            res == *self,
    {
        SK { der: self.der.clone() }
    }
}

/// The key bytes that a key text stands for: its UTF-8 bytes read as
/// hexadecimal.
pub open spec fn spec_key_bytes(der: Seq<char>) -> Option<Seq<u8>> {
    spec_hex_decode(encode_utf8(der))
}

/// Whether a key text is a usable public key.
pub open spec fn spec_is_valid_public_key(der: Seq<char>) -> bool {
    match spec_key_bytes(der) {
        Some(b) => spec_rsa_public_key_parses(b),
        None => false,
    }
}

/// The text of the public key that belongs to a secret key text, when that
/// public key is one `rsa` takes as a public key.
pub open spec fn spec_public_key_of(sk_der: Seq<char>) -> Option<Seq<char>> {
    match spec_key_bytes(sk_der) {
        Some(b) => match spec_rsa_public_der_of(b) {
            Some(p) => if spec_rsa_public_key_parses(p) {
                Some(spec_hex_encode(p))
            } else {
                None
            },
            None => None,
        },
        None => None,
    }
}

/// Whether a secret key text signs any data.
pub open spec fn spec_signing_key_ok(sk_der: Seq<char>) -> bool {
    forall|data: Seq<u8>| #[trigger] spec_signature_by(sk_der, data) is Some
}

/// The signature of `data` under a secret key text.
pub open spec fn spec_signature_by(sk_der: Seq<char>, data: Seq<u8>) -> Option<Seq<u8>> {
    match spec_key_bytes(sk_der) {
        Some(b) => spec_rsa_sign(b, data),
        None => None,
    }
}

/// Whether `signature` verifies over `data` under a public key text.
pub open spec fn spec_verifies(pk_der: Seq<char>, data: Seq<u8>, signature: Seq<u8>) -> bool {
    match spec_key_bytes(pk_der) {
        Some(b) => spec_rsa_verify(b, data, signature),
        None => false,
    }
}

/// The bytes of ASCII characters.
pub open spec fn ascii_bytes(chars: Seq<char>) -> Seq<u8> {
    chars.map_values(|c: char| c as u8)
}

proof fn lemma_hex_digit_roundtrip(v: u8)
    requires
        v < 16,
    ensures
        hex_digit_value(hex_digit_char(v) as u8) == Some(v),
        '\0' <= hex_digit_char(v) <= '\u{7f}',
{
}

proof fn lemma_hex_encode_ascii(data: Seq<u8>)
    ensures
        is_ascii_chars(spec_hex_encode(data)),
        spec_hex_encode(data).len() == 2 * data.len(),
        spec_hex_decode(ascii_bytes(spec_hex_encode(data))) == Some(data),
    decreases data.len(),
{
    if data.len() > 0 {
        let rest = data.skip(1);
        lemma_hex_encode_ascii(rest);
        lemma_hex_digit_roundtrip(data[0] / 16);
        lemma_hex_digit_roundtrip(data[0] % 16);
        let e = spec_hex_encode(data);
        let er = spec_hex_encode(rest);
        assert(e == seq![hex_digit_char(data[0] / 16), hex_digit_char(data[0] % 16)] + er);
        assert forall|i| 0 <= i < e.len() implies '\0' <= #[trigger] e[i] <= '\u{7f}' by {
            if i >= 2 {
                assert(e[i] == er[i - 2]);
            }
        }
        let b = ascii_bytes(e);
        assert(b.skip(2) =~= ascii_bytes(er));
        assert(((data[0] / 16) * 16 + data[0] % 16) as u8 == data[0]);
        assert(seq![data[0]] + rest =~= data);
    } else {
        assert(ascii_bytes(spec_hex_encode(data)) =~= Seq::<u8>::empty());
    }
}

/// Hexadecimal text written by `hex::encode` decodes back to the same bytes:
/// a key's text always stands for the key it was made from.
pub proof fn law_hex_roundtrip(data: Seq<u8>)
    ensures
        spec_key_bytes(spec_hex_encode(data)) == Some(data),
{
    lemma_hex_encode_ascii(data);
    let e = spec_hex_encode(data);
    is_ascii_chars_encode_utf8(e);
    assert(encode_utf8(e) =~= ascii_bytes(e));
}

impl PK {
    /// Verifies `signature` over `data` under this key. The key text must be
    /// a usable public key.
    pub fn verify(&self, data: &[u8], signature: &[u8]) -> (res: bool)
        requires
            spec_is_valid_public_key(self.der@),
        ensures
            res == spec_verifies(self.der@, data@, signature@),
    {
        verify_bytes(data, self, signature)
    }
}

impl SK {
    /// The public key of this secret key; an error when the key text does
    /// not decode, is no RSA private key, or has a public key that `rsa`
    /// does not take as one (over 4096 bits). A key that is returned is a
    /// usable public key.
    pub fn to_pk(&self) -> (res: Result<PK, KeyError>)
        ensures
            match res {
                Ok(pk) => spec_public_key_of(self.der@) == Some(pk.der@)
                    && spec_is_valid_public_key(pk.der@),
                Err(_) => spec_public_key_of(self.der@) is None,
            },
    {
        let bytes = match hex_decode(self.der.as_str().as_bytes()) {
            Some(b) => b,
            None => return Err(KeyError::InvalidEncoding),
        };
        match rsa_public_der_of(bytes.as_slice()) {
            Some(p) => {
                if !rsa_public_key_parses(p.as_slice()) {
                    return Err(KeyError::InvalidKey);
                }
                let der = hex_encode(p.as_slice());
                proof {
                    law_hex_roundtrip(p@);
                }
                Ok(PK { der })
            },
            None => Err(KeyError::InvalidKey),
        }
    }

    /// Signs `data` with this key. A signature that is returned verifies
    /// under the public key of this key.
    pub fn sign(&self, data: &[u8]) -> (res: Result<Signature, KeyError>)
        ensures
            match res {
                Ok(s) => spec_signature_by(self.der@, data@) == Some(s@) && (spec_public_key_of(
                    self.der@,
                ) matches Some(pk) ==> spec_verifies(pk, data@, s@)),
                Err(_) => spec_signature_by(self.der@, data@) is None,
            },
    {
        let res = sign_bytes(data, self);
        proof {
            if res is Ok {
                let b = spec_key_bytes(self.der@).unwrap();
                law_hex_roundtrip(spec_rsa_public_der_of(b).unwrap());
            }
        }
        res
    }
}

/// Generates a random secret key of `bits` bits; from 64 bits on this
/// always succeeds. Its public key is one `rsa` takes up to 4096 bits, and
/// from 489 bits on it signs any data.
pub fn generate_sk(bits: usize) -> (res: Result<SK, KeyError>)
    ensures
        res matches Ok(sk) ==> (bits <= 4096 ==> spec_public_key_of(sk.der@) is Some),
        res matches Ok(sk) ==> (bits >= 489 ==> spec_signing_key_ok(sk.der@)),
        bits >= 64 ==> res is Ok,
{
    match rsa_generate(bits) {
        Some(k) => {
            let der = hex_encode(k.as_slice());
            proof {
                law_hex_roundtrip(k@);
            }
            Ok(SK { der })
        },
        None => Err(KeyError::GenerationFailed),
    }
}

/// Generates a random key pair of `bits` bits: the public key is the one of
/// the secret key. From 64 up to 4096 bits this always succeeds (larger
/// public keys are ones `rsa` does not take), and from 489 bits on the
/// secret key signs any data.
pub fn generate_pk_and_sk(bits: usize) -> (res: Result<(PK, SK), KeyError>)
    ensures
        res matches Ok((pk, sk)) ==> spec_public_key_of(sk.der@) == Some(pk.der@)
            && spec_is_valid_public_key(pk.der@),
        res matches Ok((pk, sk)) ==> (bits >= 489 ==> spec_signing_key_ok(sk.der@)),
        64 <= bits <= 4096 ==> res is Ok,
{
    let sk = generate_sk(bits)?;
    let pk = sk.to_pk()?;
    Ok((pk, sk))
}

/// A public key as `Debug` writes it: `PK { der: "..." }`.
pub open spec fn pk_debug_bytes(der: Seq<char>) -> Seq<u8> {
    text_bytes("PK { der: ") + quoted_bytes(der) + text_bytes(" }")
}

/// Appends a public key as `Debug` writes it.
pub fn put_pk_debug(buf: &mut Vec<u8>, pk: &PK)
    ensures
        final(buf)@ == old(buf)@ + pk_debug_bytes(pk.der@),
{
    put_str(buf, "PK { der: ");
    put_quoted(buf, &pk.der);
    put_str(buf, " }");
    assert(final(buf)@ =~= old(buf)@ + pk_debug_bytes(pk.der@));
}

} // verus!
