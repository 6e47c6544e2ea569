use vstd::prelude::*;

use crate::util::hexcode::hex_decode;
use crate::util::key::{spec_is_valid_public_key, PK};
use crate::util::signature::rsa_public_key_parses;

verus! {

/// An account: the public key that owns outputs and signs transactions.
pub type Address = PK;

/// Whether two addresses are the same key text.
pub open spec fn same_address(a: Address, b: Address) -> bool {
    a.der@ == b.der@
}

/// Whether an address is a usable public key: hexadecimal text of a PKCS#1
/// DER RSA public key.
pub fn is_valid_address(address: &Address) -> (res: bool)
    ensures
        res == spec_is_valid_public_key(address.der@),
{
    match hex_decode(address.der.as_str().as_bytes()) {
        Some(b) => rsa_public_key_parses(b.as_slice()),
        None => false,
    }
}

/// Whether two addresses are the same key text.
pub fn addresses_equal(a: &Address, b: &Address) -> (res: bool)
    ensures
        res == same_address(*a, *b),
{
    a.der == b.der
}

} // verus!
