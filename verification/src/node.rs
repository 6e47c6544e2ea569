use vstd::prelude::*;

use crate::util::key::{generate_sk, spec_public_key_of, spec_signing_key_ok, KeyError, SK};

verus! {

/// The size in bits of a node's key.
pub const NODE_KEY_BITS: usize = 512;

/// A fresh node key of `NODE_KEY_BITS` bits; generating it always
/// succeeds, it has a public key and it signs any data.
pub fn generate_key() -> (res: Result<SK, KeyError>)
    ensures
        res matches Ok(sk) ==> spec_public_key_of(sk.der@) is Some && spec_signing_key_ok(sk.der@),
        res is Ok,
{
    generate_sk(NODE_KEY_BITS)
}

} // verus!
