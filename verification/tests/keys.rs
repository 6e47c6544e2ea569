use dawn::blockchain::address::is_valid_address;
use dawn::util::key::{generate_pk_and_sk, generate_sk, KeyError, PK, SK};
use dawn::util::signature::{sign, verify};

#[test]
fn public_key_of_non_hex_text_is_refused() {
    let sk = SK { der: "zz".to_string() };
    assert_eq!(sk.to_pk(), Err(KeyError::InvalidEncoding));
}

#[test]
fn public_key_of_bytes_that_are_no_key_is_refused() {
    let sk = SK { der: "00ff".to_string() };
    assert_eq!(sk.to_pk(), Err(KeyError::InvalidKey));
}

#[test]
fn key_of_zero_bits_cannot_be_generated() {
    assert_eq!(generate_sk(0), Err(KeyError::GenerationFailed));
}

#[test]
fn signing_with_non_hex_key_fails() {
    let sk = SK { der: "not a key".to_string() };
    assert_eq!(sk.sign(b"data"), Err(KeyError::InvalidEncoding));
}

#[test]
fn signature_verifies_under_the_signers_public_key_only() {
    let (pk, sk) = generate_pk_and_sk(512).unwrap();
    let (other_pk, _) = generate_pk_and_sk(512).unwrap();
    let signature = sk.sign(b"pay 10").unwrap();
    assert!(pk.verify(b"pay 10", &signature));
    assert!(!pk.verify(b"pay 11", &signature));
    assert!(!other_pk.verify(b"pay 10", &signature));
}

#[test]
fn signature_wrapper_functions_agree_with_key_methods() {
    let (pk, sk) = generate_pk_and_sk(512).unwrap();
    let wrapped = sign(b"block", sk.clone()).unwrap();
    assert_eq!(wrapped.0, sk.sign(b"block").unwrap());
    assert!(verify(b"block", pk.clone(), &wrapped));
    assert!(!verify(b"other", pk, &wrapped));
}

#[test]
fn public_key_text_is_hex_and_a_valid_address() {
    let (pk, sk) = generate_pk_and_sk(512).unwrap();
    assert_eq!(sk.to_pk().unwrap(), pk);
    assert!(pk.der.len() % 2 == 0);
    assert!(pk.der.chars().all(|c| c.is_ascii_hexdigit() && !c.is_ascii_uppercase()));
    assert!(is_valid_address(&pk));
    // The secret key's own text is not a public key.
    assert!(!is_valid_address(&PK { der: sk.der.clone() }));
}

#[test]
fn malformed_addresses_are_invalid() {
    assert!(!is_valid_address(&PK { der: "this-is-not-hex".to_string() }));
    assert!(!is_valid_address(&PK { der: "abc".to_string() }));
    assert!(!is_valid_address(&PK { der: "00".to_string() }));
    assert!(!is_valid_address(&PK { der: String::new() }));
}

#[test]
fn keys_of_64_bits_and_node_keys_are_generated() {
    let sk = generate_sk(64).unwrap();
    assert!(sk.to_pk().is_ok());
    let node_key = dawn::node::generate_key().unwrap();
    assert!(node_key.to_pk().is_ok());
}
