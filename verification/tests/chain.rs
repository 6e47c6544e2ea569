use dawn::beacon::{Beacon, InMemoryBeaconCache};
use dawn::blockchain::address::Address;
use dawn::blockchain::block::{genesis_block, Block};
use dawn::blockchain::chain::Chain;
use dawn::blockchain::transaction::{coinbase_transaction, Transaction, TransactionIn};
use dawn::util::key::{generate_pk_and_sk, SK};

fn keypair() -> (Address, SK) {
    let (pk, sk) = generate_pk_and_sk(512).unwrap();
    (pk, sk)
}

fn dummy_block(prev: &Block, txs: Vec<Transaction>, beacon: i32) -> Block {
    Block {
        index: prev.index + 1,
        timestamp: prev.timestamp + 1,
        transactions: txs,
        beacon: Beacon { values: vec![beacon] },
        vdf_solution: vec![],
        previous_hash: prev.hash,
        issuer: prev.issuer.clone(),
        signature: vec![],
        hash: [prev.index as u8 + 1; 32],
    }
}

fn chain_with_coinbase(miner: &Address) -> Chain {
    let g = genesis_block();
    let b1 = dummy_block(&g, vec![coinbase_transaction(miner, 1)], 1);
    Chain { blocks: vec![g, b1] }
}

#[test]
fn new_has_only_genesis() {
    let c = Chain::new();
    assert_eq!(c.blocks.len(), 1);
    assert_eq!(c.get_latest_block(), genesis_block());
}

#[test]
fn get_unspent_and_find_unspent_work() {
    let (miner, _) = keypair();
    let c = chain_with_coinbase(&miner);
    let (utxos, next_id) = c.get_unspent_transactions();
    assert_eq!(utxos.len(), 2); /* coinbase and fee */
    assert_eq!(utxos[0].amount, 50);
    assert_eq!(next_id, 3); /* coinbase -> fee ->  */
    assert!(c.find_unspent_transaction(1).is_some());
    assert!(c.find_unspent_transaction(999).is_none());
}

#[test]
fn generate_transaction_returns_none_when_insufficient() {
    let (sender, sk) = keypair();
    let (recipient, _) = keypair();
    let c = chain_with_coinbase(&sender);
    let tx = c.generate_transaction(&sender, &recipient, 999, &sk, &[], 0).unwrap();
    assert!(tx.is_none());
}

#[test]
fn generate_transaction_uses_utxo_and_returns_change() {
    let (sender, sk) = keypair();
    let (recipient, _) = keypair();
    let c = chain_with_coinbase(&sender);

    let tx = c.generate_transaction(&sender, &recipient, 30, &sk, &[], 0).unwrap().unwrap();

    assert_eq!(tx.tx_in, vec![TransactionIn { unspent_id: 1 }]);
    assert_eq!(tx.out.iter().map(|o| o.amount).sum::<u64>(), 50);
}

#[test]
fn generate_transaction_respects_used_transactions_filter() {
    let (sender, sk) = keypair();
    let (recipient, _) = keypair();
    let c = chain_with_coinbase(&sender);

    let used = c.generate_transaction(&sender, &recipient, 30, &sk, &[], 0).unwrap().unwrap();

    let next = c.generate_transaction(&sender, &recipient, 10, &sk, &[used], 0).unwrap();

    assert!(next.is_none());
}

#[test]
fn get_balance_sums_unspent_by_address() {
    let (a, _) = keypair();
    let (b, _) = keypair();

    let g = genesis_block();
    let b1 = dummy_block(&g, vec![coinbase_transaction(&a, 0)], 1);
    let b2 = dummy_block(&b1, vec![coinbase_transaction(&b, 1)], 2);
    let c = Chain { blocks: vec![g, b1, b2] };

    assert_eq!(c.get_balance(&a), 50);
    assert_eq!(c.get_balance(&b), 50);
}

#[test]
fn add_block_rejects_invalid_block() {
    let c = Chain::new();
    let bad = dummy_block(&c.get_latest_block(), vec![], 1);
    let (next, changed) = c.add_block(bad, false, false, &InMemoryBeaconCache::new());
    assert!(!changed);
    assert_eq!(next, c);
}

#[test]
fn replace_rejects_invalid_longer_chain() {
    let base = Chain::new();
    let g = genesis_block();
    let longer_but_invalid = Chain { blocks: vec![g.clone(), dummy_block(&g, vec![], 1)] };
    assert_eq!(base.replace(longer_but_invalid), base);
}

#[test]
fn generate_transaction_returns_none_when_amount_plus_fee_exceeds_funds() {
    let (sender, sk) = keypair();
    let (recipient, _) = keypair();
    let c = chain_with_coinbase(&sender);

    let tx = c.generate_transaction(&sender, &recipient, 49, &sk, &[], 2).unwrap();

    assert!(tx.is_none());
}
