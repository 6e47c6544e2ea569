use dawn::blockchain::address::Address;
use dawn::blockchain::coinbase::{coinbase_transaction, is_valid_coinbase_transaction};
use dawn::util::key::{generate_pk_and_sk, SK};

fn keypair() -> (Address, SK) {
    let (pk, sk) = generate_pk_and_sk(512).unwrap();
    (pk, sk)
}

#[test]
fn coinbase_coinbase_transaction_is_valid() {
    let (miner, _) = keypair();
    let block_height = 1;
    let tx = coinbase_transaction(&miner, block_height);
    assert!(is_valid_coinbase_transaction(&tx, block_height));
}

#[test]
fn coinbase_coinbase_transaction_invalid_when_amount_changed() {
    let (miner, _) = keypair();
    let block_height = 1;
    let mut tx = coinbase_transaction(&miner, block_height);
    tx.out[0].amount = 999;
    assert!(!is_valid_coinbase_transaction(&tx, block_height));
}
