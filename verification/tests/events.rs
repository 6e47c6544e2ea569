use dawn::beacon::{Beacon, BeaconKey, InMemoryBeaconCache};
use dawn::blockchain::address::Address;
use dawn::blockchain::block::{genesis_block, Block};
use dawn::blockchain::chain::Chain;
use dawn::blockchain::transaction::{coinbase_transaction, Transaction};
use dawn::p2p::P2PMessage;
use dawn::state::State;
use dawn::update::{beacon_keys_to_prefetch, events_after_mining, update, Effect, Event};
use dawn::util::key::{generate_pk_and_sk, SK};
use dawn::util::vdf::solution_to_string;

fn key_pair() -> (Address, SK) {
    generate_pk_and_sk(512).unwrap()
}

fn block_after(prev: &Block, miner: &Address) -> Block {
    Block {
        index: prev.index + 1,
        timestamp: prev.timestamp + 1,
        transactions: vec![coinbase_transaction(miner, prev.index + 1)],
        beacon: Beacon { values: Vec::new() },
        vdf_solution: vec![],
        previous_hash: prev.hash,
        issuer: miner.clone(),
        signature: vec![],
        hash: [prev.index as u8 + 1; 32],
    }
}

fn fresh_state() -> State {
    let (_, sk) = key_pair();
    State::new(sk, Chain::new()).unwrap()
}

fn handle(event: Event, state: State) -> (State, Effect) {
    let cache = InMemoryBeaconCache::new();
    update(event, state, &cache)
}

#[test]
fn mining_without_a_beacon_starts_over() {
    let state = fresh_state();
    let events = events_after_mining(&state, Vec::new(), None, 5);
    assert_eq!(events, vec![Event::MineBlock]);
}

#[test]
fn block_that_does_not_verify_is_not_added() {
    let state = fresh_state();
    let bogus = block_after(&genesis_block(), &state.address);
    let (next, effect) = handle(Event::CompletedMineBlock(bogus), state.clone());
    assert_eq!(effect, Effect::Nothing);
    assert_eq!(next, state);
}

#[test]
fn query_latest_answers_with_the_latest_block() {
    let state = fresh_state();
    let (next, effect) = handle(Event::P2PMessage(None, P2PMessage::QueryLatest), state.clone());
    assert_eq!(next, state);
    assert_eq!(effect, Effect::Broadcast(P2PMessage::ResponseBlockChain(vec![genesis_block()])));
}

#[test]
fn query_all_answers_with_the_whole_chain() {
    let state = fresh_state();
    let (_, effect) = handle(Event::P2PMessage(None, P2PMessage::QueryAll), state.clone());
    assert_eq!(effect, Effect::Broadcast(P2PMessage::ResponseBlockChain(state.chain.blocks.clone())));
}

#[test]
fn older_blocks_from_a_peer_are_ignored() {
    let state = fresh_state();
    let (next, effect) = handle(
        Event::P2PMessage(None, P2PMessage::ResponseBlockChain(vec![genesis_block()])),
        state.clone(),
    );
    assert_eq!(next, state);
    assert_eq!(effect, Effect::Nothing);
    let (_, effect) = handle(Event::P2PMessage(None, P2PMessage::ResponseBlockChain(vec![])), state);
    assert_eq!(effect, Effect::Nothing);
}

#[test]
fn unlinked_newer_block_asks_for_the_whole_chain() {
    let state = fresh_state();
    let g = genesis_block();
    let b1 = block_after(&g, &state.address);
    let b2 = block_after(&b1, &state.address);
    let (next, effect) = handle(Event::P2PMessage(None, P2PMessage::ResponseBlockChain(vec![b2])), state.clone());
    assert_eq!(next, state);
    assert_eq!(effect, Effect::Broadcast(P2PMessage::QueryAll));
}

#[test]
fn longer_chain_that_does_not_verify_is_not_taken() {
    let state = fresh_state();
    let g = genesis_block();
    let b1 = block_after(&g, &state.address);
    let b2 = block_after(&b1, &state.address);
    let (next, effect) =
        handle(Event::P2PMessage(None, P2PMessage::ResponseBlockChain(vec![g, b1, b2])), state.clone());
    assert_eq!(next, state);
    assert_eq!(effect, Effect::Nothing);
}

#[test]
fn beacons_to_read_before_a_mined_block() {
    let state = fresh_state();
    let mut block = block_after(&genesis_block(), &state.address);
    block.timestamp = 77;
    let keys = beacon_keys_to_prefetch(&Event::CompletedMineBlock(block), &state);
    assert_eq!(keys, vec![BeaconKey::new(&genesis_block().hash, 77)]);
}

#[test]
fn beacons_to_read_before_a_peers_chain() {
    let state = fresh_state();
    let g = genesis_block();
    let b1 = block_after(&g, &state.address);
    let b2 = block_after(&b1, &state.address);
    let linked = Event::P2PMessage(None, P2PMessage::ResponseBlockChain(vec![b1.clone()]));
    assert_eq!(beacon_keys_to_prefetch(&linked, &state), vec![BeaconKey::new(&g.hash, b1.timestamp)]);
    let whole = Event::P2PMessage(None, P2PMessage::ResponseBlockChain(vec![g.clone(), b1.clone(), b2.clone()]));
    assert_eq!(
        beacon_keys_to_prefetch(&whole, &state),
        vec![BeaconKey::new(&g.hash, b1.timestamp), BeaconKey::new(&b1.hash, b2.timestamp)]
    );
    assert!(beacon_keys_to_prefetch(&Event::MineBlock, &state).is_empty());
}

#[test]
fn conflicting_transactions_from_a_peer_enter_the_pool_once() {
    let mut state = fresh_state();
    let g = genesis_block();
    state.chain = Chain { blocks: vec![g.clone(), block_after(&g, &state.address)] };
    let (recipient, _) = key_pair();
    let build = |amount: u64| -> Transaction {
        state
            .chain
            .generate_transaction(&state.address, &recipient, amount, &state.secret_key, &[], 0)
            .unwrap()
            .unwrap()
    };
    let first = build(10);
    let second = build(20);
    let (next, effect) = handle(
        Event::P2PMessage(None, P2PMessage::ResponseTransactions(vec![first.clone(), second])),
        state.clone(),
    );
    assert_eq!(next.transactions, vec![first.clone()]);
    assert_eq!(effect, Effect::Broadcast(P2PMessage::ResponseTransactions(vec![first])));
}

#[test]
fn mining_a_small_pool_takes_all_of_it() {
    let mut state = fresh_state();
    let fees = [4u64, 9, 1, 9];
    state.transactions = fees
        .iter()
        .enumerate()
        .map(|(i, fee)| Transaction {
            sender: state.address.clone(),
            out: Vec::new(),
            tx_in: Vec::new(),
            fee: *fee,
            signature: vec![i as u8],
        })
        .collect();
    let (next, effect) = handle(Event::MineBlock, state.clone());
    assert!(next.transactions.is_empty());
    match effect {
        Effect::MineBlock(mined) => {
            let got: Vec<(u64, Vec<u8>)> = mined.iter().map(|t| (t.fee, t.signature.clone())).collect();
            // Highest fee first; of equal fees the later one comes first.
            assert_eq!(got, vec![(9, vec![3]), (9, vec![1]), (4, vec![0]), (1, vec![2])]);
        }
        _ => panic!("expected a MineBlock effect"),
    }
}

#[test]
fn vdf_solution_is_written_as_decimal_bytes() {
    assert_eq!(solution_to_string(&[1, 23, 255, 0]), "1232550");
    assert_eq!(solution_to_string(&[]), "");
}
