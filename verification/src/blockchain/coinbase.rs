use vstd::prelude::*;

use crate::blockchain::address::{is_valid_address, Address};
use crate::blockchain::transaction::{all_outs_valid, Transaction, TransactionOut, TransactionV};

verus! {

/// Blocks between two halvings of the coinbase amount.
pub const COINBASE_AMOUNT_HALVING_INTERVAL: u64 = 210000;

/// The coinbase amount before any halving.
pub const INITIAL_COINBASE_AMOUNT: u64 = 50;

/// The new coins a block at `block_height` creates: the initial amount,
/// halved once per interval (nothing once it has been halved 64 times).
pub open spec fn spec_coinbase_amount(block_height: u64) -> u64 {
    let halvings = block_height / COINBASE_AMOUNT_HALVING_INTERVAL;
    if halvings < 64 {
        INITIAL_COINBASE_AMOUNT >> halvings
    } else {
        0
    }
}

fn coinbase_amount(block_height: u64) -> (res: u64)
    ensures
        res == spec_coinbase_amount(block_height),
{
    let halvings: u64 = block_height / COINBASE_AMOUNT_HALVING_INTERVAL;
    if halvings < 64 {
        INITIAL_COINBASE_AMOUNT >> halvings
    } else {
        0
    }
}

/// The sender of coinbase transactions: the empty key text.
fn coinbase_address() -> (res: Address)
    ensures
        res.der@ == Seq::<char>::empty(),
{
    Address { der: String::new() }
}

/// Whether a transaction is a well-formed coinbase for `block_height`.
pub open spec fn spec_is_coinbase(t: TransactionV, block_height: u64) -> bool {
    &&& t.sender.der@.len() == 0
    &&& t.tx_in.len() == 0
    &&& t.out.len() == 1
    &&& t.out[0].amount == spec_coinbase_amount(block_height)
    &&& all_outs_valid(t.out)
}

/// The coinbase transaction paying `address` the new coins of a block at
/// `block_height`.
pub fn coinbase_transaction(address: &Address, block_height: u64) -> (res: Transaction)
    ensures
        res.sender.der@ == Seq::<char>::empty(),
        res.out@ == seq![TransactionOut { address: *address, amount: spec_coinbase_amount(block_height) }],
        res.tx_in@ == Seq::<crate::blockchain::transaction::TransactionIn>::empty(),
        res.fee == 0,
        res.signature@ == Seq::<u8>::empty(),
        crate::util::key::spec_is_valid_public_key(address.der@) ==> spec_is_coinbase(
            res@,
            block_height,
        ),
{
    let out = vec![TransactionOut { address: address.clone(), amount: coinbase_amount(block_height) }];
    let res = Transaction {
        sender: coinbase_address(),
        out,
        tx_in: Vec::new(),
        fee: 0,
        signature: Vec::new(),
    };
    assert(res.out@ =~= seq![TransactionOut { address: *address, amount: spec_coinbase_amount(block_height) }]);
    res
}

/// Whether a transaction is a well-formed coinbase for `block_height`: sent
/// from the coinbase address, no inputs, exactly one output of the coinbase
/// amount, to a usable address.
pub fn is_valid_coinbase_transaction(transaction: &Transaction, block_height: u64) -> (res: bool)
    ensures
        res == spec_is_coinbase(transaction@, block_height),
{
    let res = transaction.sender.der.as_str().is_empty() && transaction.tx_in.len() == 0
        && transaction.out.len() == 1 && transaction.out[0].amount == coinbase_amount(block_height)
        && is_valid_address(&transaction.out[0].address);
    proof {
        if transaction.out@.len() == 1 {
            assert(all_outs_valid(transaction.out@) == crate::util::key::spec_is_valid_public_key(
                transaction.out@[0].address.der@,
            ));
        }
    }
    res
}

} // verus!
