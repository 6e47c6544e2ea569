use dawn::beacon::Beacon;
use dawn::blockchain::address::Address;
use dawn::blockchain::block::{genesis_block, Block};
use dawn::blockchain::chain::Chain;
use dawn::blockchain::transaction::{coinbase_transaction, Transaction, TransactionIn, TransactionOut, UnspentTransaction};
use dawn::state::State;
use dawn::util::key::{generate_pk_and_sk, SK};

fn key_pair() -> (Address, SK) {
    generate_pk_and_sk(512).unwrap()
}

fn next_block(prev: &Block, issuer: &Address, txs: Vec<Transaction>) -> Block {
    Block {
        index: prev.index + 1,
        timestamp: prev.timestamp + 1,
        transactions: txs,
        beacon: Beacon { values: Vec::new() },
        vdf_solution: vec![],
        previous_hash: prev.hash,
        issuer: issuer.clone(),
        signature: vec![],
        hash: [prev.index as u8 + 7; 32],
    }
}

/// A chain whose second block pays the coinbase to `miner` twice over two
/// blocks.
fn chain_with_two_rewards(miner: &Address) -> Chain {
    let g = genesis_block();
    let b1 = next_block(&g, miner, vec![coinbase_transaction(miner, 1)]);
    let b2 = next_block(&b1, miner, vec![coinbase_transaction(miner, 2)]);
    Chain { blocks: vec![g, b1, b2] }
}

#[test]
fn unspent_ids_rise_and_stay_below_next_id() {
    let (a, sk) = key_pair();
    let (b, _) = key_pair();
    let g = genesis_block();
    let b1 = next_block(&g, &a, vec![coinbase_transaction(&a, 1)]);
    let chain = Chain { blocks: vec![g.clone(), b1.clone()] };
    let tx = chain.generate_transaction(&a, &b, 10, &sk, &[], 2).unwrap().unwrap();
    let b2 = next_block(&b1, &a, vec![coinbase_transaction(&a, 2), tx]);
    let chain = Chain { blocks: vec![g, b1, b2] };

    let (unspent, next_id) = chain.get_unspent_transactions();

    let ids: Vec<u64> = unspent.iter().map(|u| u.id).collect();
    assert_eq!(ids, vec![2, 3, 4, 5, 6]);
    assert_eq!(next_id, 7);
    // One more than the outputs made: the first block's reward and fee
    // output, the second block's reward, payment, change and fee output.
    assert_eq!(next_id, 1 + 2 + 4);
    assert!(ids.windows(2).all(|w| w[0] < w[1]));
    // The fee output of the second block pays its issuer the fee.
    assert_eq!(unspent[4].amount, 2);
    assert_eq!(unspent[4].address, a);
}

#[test]
fn generated_payment_is_taken_by_the_pool() {
    let (_, sk) = key_pair();
    let (recipient, _) = key_pair();
    let mut state = State::new(sk, Chain::new()).unwrap();
    state.chain = chain_with_two_rewards(&state.address);

    let tx = state
        .chain
        .generate_transaction(&state.address, &recipient, 30, &state.secret_key, &state.transactions, 5)
        .unwrap()
        .unwrap();
    assert!(tx.verify_signature());
    assert!(tx.is_valid(&state.chain.get_unspent_transactions().0));

    let (next, changed) = state.add_transaction(&tx);
    assert!(changed);
    assert_eq!(next.transactions, vec![tx]);
}

#[test]
fn pool_refuses_a_second_spend_of_one_output() {
    let (_, sk) = key_pair();
    let (recipient, _) = key_pair();
    let mut state = State::new(sk, Chain::new()).unwrap();
    state.chain = chain_with_two_rewards(&state.address);

    let first = state
        .chain
        .generate_transaction(&state.address, &recipient, 10, &state.secret_key, &[], 0)
        .unwrap()
        .unwrap();
    let second = state
        .chain
        .generate_transaction(&state.address, &recipient, 20, &state.secret_key, &[], 0)
        .unwrap()
        .unwrap();
    assert_eq!(first.tx_in, second.tx_in);

    let (state, changed) = state.add_transaction(&first);
    assert!(changed);
    let (state, changed) = state.add_transaction(&second);
    assert!(!changed);
    assert_eq!(state.transactions, vec![first]);
}

#[test]
fn payment_built_against_the_pool_spends_other_outputs() {
    let (_, sk) = key_pair();
    let (recipient, _) = key_pair();
    let mut state = State::new(sk, Chain::new()).unwrap();
    state.chain = chain_with_two_rewards(&state.address);

    let first = state
        .chain
        .generate_transaction(&state.address, &recipient, 10, &state.secret_key, &state.transactions, 0)
        .unwrap()
        .unwrap();
    let (state, changed) = state.add_transaction(&first);
    assert!(changed);
    let second = state
        .chain
        .generate_transaction(&state.address, &recipient, 20, &state.secret_key, &state.transactions, 0)
        .unwrap()
        .unwrap();
    assert_ne!(first.tx_in, second.tx_in);

    let (state, changed) = state.add_transaction(&second);
    assert!(changed);
    assert_eq!(state.transactions.len(), 2);
}

#[test]
fn payment_takes_the_shortest_prefix_of_outputs() {
    let (sender, sk) = key_pair();
    let (recipient, _) = key_pair();
    let chain = chain_with_two_rewards(&sender);

    // 50 is reached by the first reward alone.
    let tx = chain.generate_transaction(&sender, &recipient, 45, &sk, &[], 5).unwrap().unwrap();
    assert_eq!(tx.tx_in.len(), 1);
    assert_eq!(tx.out[0], TransactionOut { address: recipient.clone(), amount: 45 });
    assert_eq!(tx.out[1], TransactionOut { address: sender.clone(), amount: 0 });

    // 51 needs the outputs up to the second reward (the first block's fee
    // output in between pays nothing).
    let tx = chain.generate_transaction(&sender, &recipient, 46, &sk, &[], 5).unwrap().unwrap();
    assert_eq!(tx.tx_in.len(), 3);
    assert_eq!(tx.out[1].amount, 49);
    assert_eq!(tx.fee, 5);
}

#[test]
fn payment_with_a_foreign_key_does_not_verify() {
    let (sender, _) = key_pair();
    let (_, other_sk) = key_pair();
    let (recipient, _) = key_pair();
    let chain = chain_with_two_rewards(&sender);

    let tx = chain.generate_transaction(&sender, &recipient, 10, &other_sk, &[], 0).unwrap().unwrap();
    assert!(!tx.verify_signature());
    assert!(!tx.is_valid(&chain.get_unspent_transactions().0));
}

#[test]
fn balance_of_an_unknown_address_is_zero() {
    let (miner, _) = key_pair();
    let (stranger, _) = key_pair();
    let chain = chain_with_two_rewards(&miner);
    assert_eq!(chain.get_balance(&miner), 100);
    assert_eq!(chain.get_balance(&stranger), 0);
}

#[test]
fn coinbase_reward_halves_every_interval() {
    let (miner, _) = key_pair();
    assert_eq!(coinbase_transaction(&miner, 209_999).out[0].amount, 50);
    assert_eq!(coinbase_transaction(&miner, 210_000).out[0].amount, 25);
    assert_eq!(coinbase_transaction(&miner, 420_000).out[0].amount, 12);
    assert_eq!(coinbase_transaction(&miner, 64 * 210_000).out[0].amount, 0);
}

#[test]
fn signed_block_verifies_and_hashes_to_its_hash() {
    let (issuer, sk) = key_pair();
    let g = genesis_block();
    let block = Block::new_with_creating_signature(
        1,
        10,
        vec![coinbase_transaction(&issuer, 1)],
        Beacon { values: vec![120, -30] },
        vec![1, 2, 3],
        &issuer,
        g.hash,
        &sk,
    )
    .unwrap();
    assert!(block.verify_signature());
    assert_eq!(block.calculate_hash(), block.hash);
    assert_ne!(block.hash, g.hash);

    let mut tampered = block.clone();
    tampered.timestamp = 11;
    assert!(!tampered.verify_signature());
    assert_ne!(tampered.calculate_hash(), block.hash);
}

#[test]
fn output_and_transaction_texts() {
    let out = |der: &str, amount: u64| TransactionOut { address: Address { der: der.to_string() }, amount };
    assert_eq!(out("ab12", 7).to_text(), "ab12: 7");
    let tx = Transaction {
        sender: Address { der: "ff".to_string() },
        out: vec![out("a1", 10), out("b2", 32)],
        tx_in: Vec::new(),
        fee: 3,
        signature: Vec::new(),
    };
    assert_eq!(tx.to_text(), "ff -> a1, b2: 42");
    let empty = Transaction { out: Vec::new(), ..tx.clone() };
    assert_eq!(empty.to_text(), "ff -> : 0");
}

#[test]
fn payment_takes_only_its_fee_and_block_adds_only_its_reward() {
    let (a, sk) = key_pair();
    let (b, _) = key_pair();
    let g = genesis_block();
    let b1 = next_block(&g, &a, vec![coinbase_transaction(&a, 1)]);
    let chain = Chain { blocks: vec![g.clone(), b1.clone()] };
    let before = chain.get_unspent_transactions();
    let total = |s: &Vec<dawn::blockchain::transaction::UnspentTransaction>| s.iter().map(|u| u.amount).sum::<u64>();
    assert_eq!(total(&before.0), 50);

    let tx = chain.generate_transaction(&a, &b, 10, &sk, &[], 3).unwrap().unwrap();
    let after_tx = tx.get_unspent_transactions((before.0.clone(), before.1));
    assert_eq!(total(&after_tx.0), 50 - 3);

    let b2 = next_block(&b1, &a, vec![coinbase_transaction(&a, 2), tx]);
    let after_block = b2.get_unspent_transactions(before);
    assert_eq!(total(&after_block.0), 50 + 50);
}

#[test]
fn unspent_outputs_after_a_transaction_in_closed_form() {
    let (sender, sk) = key_pair();
    let (recipient, _) = key_pair();
    let tx = Transaction::new_with_creating_signature(
        &sender,
        vec![
            TransactionOut { address: recipient.clone(), amount: 10 },
            TransactionOut { address: sender.clone(), amount: 5 },
        ],
        vec![TransactionIn { unspent_id: 2 }],
        &sk,
    )
    .unwrap();
    let previous = vec![
        UnspentTransaction { id: 1, address: sender.clone(), amount: 20 },
        UnspentTransaction { id: 2, address: sender.clone(), amount: 30 },
    ];
    let (unspent, next_id) = tx.get_unspent_transactions((previous, 7));
    assert_eq!(next_id, 9);
    assert_eq!(
        unspent,
        vec![
            UnspentTransaction { id: 1, address: sender.clone(), amount: 20 },
            UnspentTransaction { id: 7, address: recipient, amount: 10 },
            UnspentTransaction { id: 8, address: sender, amount: 5 },
        ]
    );
}

#[test]
fn payment_spends_only_the_senders_outputs() {
    let (sender, sk) = key_pair();
    let (other, _) = key_pair();
    let (recipient, _) = key_pair();
    let g = genesis_block();
    let b1 = next_block(&g, &other, vec![coinbase_transaction(&other, 1)]);
    let b2 = next_block(&b1, &sender, vec![coinbase_transaction(&sender, 2)]);
    let chain = Chain { blocks: vec![g, b1, b2] };
    let (unspent, _) = chain.get_unspent_transactions();
    let tx = chain.generate_transaction(&sender, &recipient, 10, &sk, &[], 0).unwrap().unwrap();
    assert!(!tx.tx_in.is_empty());
    for input in &tx.tx_in {
        let spent = unspent.iter().find(|u| u.id == input.unspent_id).unwrap();
        assert_eq!(spent.address, sender);
    }
}

#[test]
fn no_payment_exactly_when_the_free_outputs_fall_short() {
    let (sender, sk) = key_pair();
    let (recipient, _) = key_pair();
    let chain = chain_with_two_rewards(&sender);
    let first = chain.generate_transaction(&sender, &recipient, 45, &sk, &[], 5).unwrap().unwrap();
    let used = vec![first];
    assert!(chain.generate_transaction(&sender, &recipient, 46, &sk, &used, 5).unwrap().is_none());
    let second = chain.generate_transaction(&sender, &recipient, 45, &sk, &used, 5).unwrap().unwrap();
    assert!(second.tx_in.iter().all(|i| used[0].tx_in.iter().all(|j| j.unspent_id != i.unspent_id)));
}
