use dawn::beacon::{Beacon, InMemoryBeaconCache};
use dawn::blockchain::address::Address;
use dawn::blockchain::block::{genesis_block, Block, MAX_TRANSACTIONS_PER_BLOCK};
use dawn::blockchain::chain::Chain;
use dawn::blockchain::transaction::{coinbase_transaction, Transaction};
use dawn::p2p::{P2PMessage, Peer};
use dawn::state::State;
use dawn::update::{update, Effect, Event};
use dawn::util::key::{generate_pk_and_sk, SK};

fn keypair() -> (Address, SK) {
    let (pk, sk) = generate_pk_and_sk(512).unwrap();
    (pk, sk)
}

fn dummy_block_with_coinbase(prev: &Block, miner: &Address) -> Block {
    Block {
        index: prev.index + 1,
        timestamp: prev.timestamp + 1,
        transactions: vec![coinbase_transaction(miner, prev.index + 1)],
        beacon: Beacon { values: Vec::new() },
        vdf_solution: vec![],
        previous_hash: prev.hash,
        issuer: miner.clone(),
        signature: vec![],
        hash: [prev.index as u8 + 1; 32],
    }
}

fn funded_state() -> State {
    let (_, sk) = keypair();
    let mut state = State::new(sk, Chain::new()).unwrap();
    let g = genesis_block();
    let b1 = dummy_block_with_coinbase(&g, &state.address);
    state.chain = Chain { blocks: vec![g, b1] };
    state
}

fn build_tx(state: &State, recipient: &Address, amount: u64, fee: u64) -> Transaction {
    state
        .chain
        .generate_transaction(&state.address, recipient, amount, &state.secret_key, &state.transactions, fee)
        .unwrap()
        .unwrap()
}

fn run_update(event: Event, state: State) -> (State, Effect) {
    let cache = InMemoryBeaconCache::new();
    update(event, state, &cache)
}

#[test]
fn add_peer_broadcasts_query_peers_on_change() {
    let state = funded_state();
    let peer = Peer::from_octets(127, 0, 0, 1);

    let (next, effect) = run_update(Event::AddPeer(peer.clone()), state);

    assert!(next.peers.contains(&peer));
    assert_eq!(effect, Effect::Broadcast(P2PMessage::QueryPeers));
}

#[test]
fn add_peer_duplicate_does_not_broadcast() {
    let mut state = funded_state();
    let peer = Peer::from_octets(127, 0, 0, 1);
    state = state.add_peer(&peer).0;

    let (next, effect) = run_update(Event::AddPeer(peer.clone()), state.clone());

    assert_eq!(next, state);
    assert_eq!(effect, Effect::Nothing);
}

#[test]
fn remove_peers_removes_and_broadcasts_query_peers() {
    let mut state = funded_state();
    let p1 = Peer::from_octets(10, 0, 0, 1);
    let p2 = Peer::from_octets(10, 0, 0, 2);
    state = state.add_peer(&p1).0;
    state = state.add_peer(&p2).0;

    let (next, effect) = run_update(Event::RemovePeers(vec![p1.clone()]), state);

    assert!(!next.peers.contains(&p1));
    assert!(next.peers.contains(&p2));
    assert_eq!(effect, Effect::Nothing);
}

#[test]
fn add_transaction_rejects_invalid_recipient() {
    let state = funded_state();
    let invalid = Address { der: "this-is-not-hex".to_string() };

    let (next, effect) = run_update(Event::AddTransaction(invalid, 10, 0), state.clone());

    assert_eq!(effect, Effect::Nothing);
    assert_eq!(next, state);
}

#[test]
fn add_transaction_accepts_and_broadcasts_when_valid() {
    let state = funded_state();
    let (recipient, _) = keypair();

    let (next, effect) = run_update(Event::AddTransaction(recipient, 10, 0), state);

    assert_eq!(next.transactions.len(), 1);
    assert_eq!(effect, Effect::Broadcast(P2PMessage::ResponseTransactions(next.transactions.clone())));
}

#[test]
fn add_transaction_with_fee_is_rejected_when_not_enough_for_fee() {
    let state = funded_state();
    let (recipient, _) = keypair();

    let (next, effect) = run_update(Event::AddTransaction(recipient, 50, 1), state.clone());

    assert_eq!(next, state);
    assert_eq!(effect, Effect::Nothing);
}

#[test]
fn add_transaction_with_fee_is_broadcast_when_sufficient() {
    let state = funded_state();
    let (recipient, _) = keypair();

    let (next, effect) = run_update(Event::AddTransaction(recipient, 48, 2), state);

    assert_eq!(next.transactions.len(), 1);
    assert_eq!(next.transactions[0].fee, 2);
    match effect {
        Effect::Broadcast(P2PMessage::ResponseTransactions(txs)) => {
            assert_eq!(txs.len(), 1);
            assert_eq!(txs[0].fee, 2);
        }
        _ => panic!("expected ResponseTransactions broadcast"),
    }
}

#[test]
fn mine_block_clears_pending_and_returns_sorted_transactions() {
    let mut state = funded_state();
    let tx1 = Transaction {
        sender: state.address.clone(),
        out: Vec::new(),
        tx_in: Vec::new(),
        fee: 1,
        signature: Vec::new(),
    };
    let tx2 = Transaction {
        sender: state.address.clone(),
        out: Vec::new(),
        tx_in: Vec::new(),
        fee: 3,
        signature: Vec::new(),
    };
    state.transactions = vec![tx1, tx2];

    let (next, effect) = run_update(Event::MineBlock, state);

    assert!(next.transactions.is_empty());
    match effect {
        Effect::MineBlock(mined) => {
            assert_eq!(mined.len(), 2);
            assert_eq!(mined[0].fee, 3);
            assert_eq!(mined[1].fee, 1);
        }
        _ => panic!("expected MineBlock effect"),
    }
}

#[test]
fn mine_block_limits_transactions_to_max_and_prioritizes_fees() {
    let mut state = funded_state();
    let total = MAX_TRANSACTIONS_PER_BLOCK + 5;
    let txs: Vec<Transaction> = (0..total)
        .map(|i| Transaction {
            sender: state.address.clone(),
            out: Vec::new(),
            tx_in: Vec::new(),
            fee: i as u64,
            signature: Vec::new(),
        })
        .collect();
    state.transactions = txs;

    let (_, effect) = run_update(Event::MineBlock, state);

    match effect {
        Effect::MineBlock(mined) => {
            assert_eq!(mined.len(), MAX_TRANSACTIONS_PER_BLOCK);

            let expected_highest = (total - 1) as u64;
            let expected_lowest = (total - MAX_TRANSACTIONS_PER_BLOCK) as u64;

            assert_eq!(mined.first().unwrap().fee, expected_highest);
            assert_eq!(mined.last().unwrap().fee, expected_lowest);
            assert!(mined.windows(2).all(|w| w[0].fee >= w[1].fee));
        }
        _ => panic!("expected MineBlock effect"),
    }
}

#[test]
fn query_transactions_returns_current_pool() {
    let mut state = funded_state();
    let (recipient, _) = keypair();
    let tx = build_tx(&state, &recipient, 10, 0);
    state.transactions.push(tx.clone());
    let expected = state.transactions.clone();

    let (next, effect) = run_update(Event::P2PMessage(None, P2PMessage::QueryTransactions), state.clone());

    assert_eq!(next, state);
    assert_eq!(effect, Effect::Broadcast(P2PMessage::ResponseTransactions(expected)));
}

#[test]
fn response_transactions_adds_new_and_rebroadcasts() {
    let state = funded_state();
    let (recipient, _) = keypair();
    let tx = build_tx(&state, &recipient, 10, 0);

    let (next, effect) =
        run_update(Event::P2PMessage(None, P2PMessage::ResponseTransactions(vec![tx.clone()])), state);

    assert_eq!(next.transactions, vec![tx.clone()]);
    assert_eq!(effect, Effect::Broadcast(P2PMessage::ResponseTransactions(vec![tx])));
}

#[test]
fn response_transactions_duplicate_is_ignored() {
    let mut state = funded_state();
    let (recipient, _) = keypair();
    let tx = build_tx(&state, &recipient, 10, 0);
    state.transactions.push(tx.clone());

    let (next, effect) =
        run_update(Event::P2PMessage(None, P2PMessage::ResponseTransactions(vec![tx])), state.clone());

    assert_eq!(next, state);
    assert_eq!(effect, Effect::Nothing);
}

#[test]
fn query_peers_adds_sender_and_responds_with_known_peers() {
    let mut state = funded_state();
    let existing = Peer::from_octets(10, 0, 0, 1);
    state = state.add_peer(&existing).0;
    let sender = Peer::from_octets(10, 0, 0, 2);

    let (next, effect) =
        run_update(Event::P2PMessage(Some(sender.clone()), P2PMessage::QueryPeers), state.clone());

    assert!(next.peers.contains(&existing));
    assert!(next.peers.contains(&sender));
    assert_eq!(next.peers.len(), 2);
    assert_eq!(effect, Effect::Broadcast(P2PMessage::ResponsePeers(vec![existing])));
}

#[test]
fn query_peers_without_sender_returns_current_list() {
    let mut state = funded_state();
    let existing = Peer::from_octets(10, 0, 0, 1);
    state = state.add_peer(&existing).0;

    let (next, effect) = run_update(Event::P2PMessage(None, P2PMessage::QueryPeers), state.clone());

    assert_eq!(next, state);
    assert_eq!(effect, Effect::Broadcast(P2PMessage::ResponsePeers(vec![existing])));
}

#[test]
fn response_peers_merges_and_rebroadcasts() {
    let mut state = funded_state();
    let existing = Peer::from_octets(10, 0, 0, 1);
    let new_peer = Peer::from_octets(10, 0, 0, 2);
    state = state.add_peer(&existing).0;

    let (next, effect) =
        run_update(Event::P2PMessage(None, P2PMessage::ResponsePeers(vec![new_peer.clone()])), state);

    assert!(next.peers.contains(&existing));
    assert!(next.peers.contains(&new_peer));
    assert_eq!(effect, Effect::Broadcast(P2PMessage::ResponsePeers(next.peers.clone())));
}

#[test]
fn response_peers_duplicate_is_ignored() {
    let mut state = funded_state();
    let existing = Peer::from_octets(10, 0, 0, 1);
    state = state.add_peer(&existing).0;

    let (next, effect) =
        run_update(Event::P2PMessage(None, P2PMessage::ResponsePeers(vec![existing.clone()])), state.clone());

    assert_eq!(next, state);
    assert_eq!(effect, Effect::Nothing);
}
