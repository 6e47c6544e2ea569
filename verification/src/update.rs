use vstd::prelude::*;
use vstd::multiset::Multiset;

use crate::beacon::{key_view, Beacon, BeaconKey, InMemoryBeaconCache};
use crate::blockchain::address::{is_valid_address, Address};
use crate::blockchain::block::{blocks_view, spec_block_hash, spec_block_valid, spec_is_genesis, Block, BlockV, MAX_TRANSACTIONS_PER_BLOCK};
use crate::blockchain::chain::{
    clone_blocks, latest_hash, latest_index, spec_accepts_block, spec_chain_unspent, spec_chain_valid, spec_next_block,
    spec_next_block_unsignable, spec_payment_plan, Chain,
    CHECKPOINT_DEPTH, law_accepted_block_links_to_latest, law_valid_chain_links_every_block,
    law_following_block_is_accepted, latest_timestamp,
};
use crate::blockchain::transaction::{spec_signing_bytes, txs_view, Transaction, TransactionV};
use crate::p2p::{P2PMessage, P2PMessageV, Peer};
use crate::blockchain::utxo::{all_input_ids, input_ids, lemma_all_input_ids_concat};
use crate::state::{
    law_add_peer_keeps_peers_distinct_and_bounded, law_add_peers_keeps_peers_distinct_and_bounded,
    law_pool_spends_each_output_once, law_pool_spends_each_output_once_after_many,
    law_remove_peers_keeps_peers_distinct, peers_distinct, spec_add_peer, spec_add_peers, MAX_PEERS,
    spec_add_transaction, spec_add_transactions, spec_remove_peers, State, StateV,
};
use crate::util::hash::hashes_equal;
use crate::util::key::{spec_is_valid_public_key, spec_public_key_of, spec_signature_by, spec_signing_key_ok};

verus! {

/// Something that happened to the node.
#[derive(Debug, PartialEq, Eq)]
pub enum Event {
    /// The user asked to add a peer.
    AddPeer(Peer),
    /// These peers could not be reached.
    RemovePeers(Vec<Peer>),
    /// The user asked to pay an amount with a fee to a recipient.
    AddTransaction(Address, u64, u64),
    /// Time to mine the next block.
    MineBlock,
    /// This node finished mining a block.
    CompletedMineBlock(Block),
    /// A message came, from a peer when its address is known.
    P2PMessage(Option<Peer>, P2PMessage),
}

/// What an event is, as a mathematical value.
pub enum EventV {
    AddPeer(Peer),
    RemovePeers(Seq<Peer>),
    AddTransaction(Address, u64, u64),
    MineBlock,
    CompletedMineBlock(BlockV),
    P2PMessage(Option<Peer>, P2PMessageV),
}

impl View for Event {
    type V = EventV;

    open spec fn view(&self) -> EventV {
        match self {
            Event::AddPeer(p) => EventV::AddPeer(*p),
            Event::RemovePeers(ps) => EventV::RemovePeers(ps@),
            Event::AddTransaction(r, a, f) => EventV::AddTransaction(*r, *a, *f),
            Event::MineBlock => EventV::MineBlock,
            Event::CompletedMineBlock(b) => EventV::CompletedMineBlock(b@),
            Event::P2PMessage(p, m) => EventV::P2PMessage(*p, m@),
        }
    }
}

/// What the node should do after an event.
#[derive(Debug, PartialEq, Eq)]
pub enum Effect {
    /// Nothing to do.
    Nothing,
    /// Mine a block with these transactions.
    MineBlock(Vec<Transaction>),
    /// Send this message to every peer.
    Broadcast(P2PMessage),
}

/// What an effect is, as a mathematical value.
pub enum EffectV {
    Nothing,
    MineBlock(Seq<TransactionV>),
    Broadcast(P2PMessageV),
}

impl View for Effect {
    type V = EffectV;

    open spec fn view(&self) -> EffectV {
        match self {
            Effect::Nothing => EffectV::Nothing,
            Effect::MineBlock(t) => EffectV::MineBlock(txs_view(t@)),
            Effect::Broadcast(m) => EffectV::Broadcast(m@),
        }
    }
}

/// The answer to a request: whether the state changed and the effect.
#[derive(Debug, PartialEq, Eq)]
pub struct UpdateResult {
    pub changed: bool,
    pub effect: Effect,
}

/// A state with other peers.
pub open spec fn with_peers(s: StateV, peers: Seq<Peer>) -> StateV {
    StateV { secret_key: s.secret_key, address: s.address, chain: s.chain, transactions: s.transactions, peers }
}

/// A state with other pending transactions.
pub open spec fn with_transactions(s: StateV, transactions: Seq<TransactionV>) -> StateV {
    StateV { secret_key: s.secret_key, address: s.address, chain: s.chain, transactions, peers: s.peers }
}

/// A state with another chain.
pub open spec fn with_chain(s: StateV, chain: Seq<BlockV>) -> StateV {
    StateV { secret_key: s.secret_key, address: s.address, chain, transactions: s.transactions, peers: s.peers }
}

/// `t` placed into transactions ordered by ascending fee, after every
/// transaction whose fee is not higher.
pub open spec fn insert_by_fee(sorted: Seq<TransactionV>, t: TransactionV) -> Seq<TransactionV>
    decreases sorted.len(),
{
    if sorted.len() == 0 {
        seq![t]
    } else if sorted.last().fee <= t.fee {
        sorted.push(t)
    } else {
        insert_by_fee(sorted.drop_last(), t).push(sorted.last())
    }
}

/// Transactions sorted by ascending fee, keeping the order of equal fees
/// (a stable sort).
pub open spec fn sort_by_fee(s: Seq<TransactionV>) -> Seq<TransactionV>
    decreases s.len(),
{
    if s.len() == 0 {
        Seq::empty()
    } else {
        insert_by_fee(sort_by_fee(s.drop_last()), s.last())
    }
}

/// The pending transactions in mining order: highest fee first (the
/// stable ascending order, reversed).
pub open spec fn mining_order(pool: Seq<TransactionV>) -> Seq<TransactionV> {
    sort_by_fee(pool).reverse()
}

/// How many transactions a block mined from `pool` takes.
pub open spec fn mined_count(pool: Seq<TransactionV>) -> int {
    if pool.len() < MAX_TRANSACTIONS_PER_BLOCK {
        pool.len() as int
    } else {
        MAX_TRANSACTIONS_PER_BLOCK as int
    }
}

/// What `update` does: the state after the event and the effect it asks
/// for, event by event.
pub open spec fn spec_update_result(
    e: EventV,
    s: StateV,
    cache: Map<(Seq<u8>, i64), Seq<i32>>,
    next: StateV,
    effect: EffectV,
) -> bool {
    match e {
        EventV::AddPeer(p) => {
            let (peers, changed) = spec_add_peer(s.peers, p);
            next == with_peers(s, peers) && effect == (if changed {
                EffectV::Broadcast(P2PMessageV::QueryPeers)
            } else {
                EffectV::Nothing
            })
        },
        EventV::RemovePeers(ps) => next == with_peers(s, spec_remove_peers(s.peers, ps).0) && effect
            == EffectV::Nothing,
        EventV::AddTransaction(recipient, send_amount, fee) => {
            if !spec_is_valid_public_key(recipient.der@) {
                next == s && effect == EffectV::Nothing
            } else {
                match spec_payment_plan(s.chain, s.address, recipient, send_amount, s.transactions, fee) {
                    None => next == s && effect == EffectV::Nothing,
                    Some((out, tx_in)) => match spec_signature_by(
                        s.secret_key.der@,
                        spec_signing_bytes(s.address, out, tx_in),
                    ) {
                        None => next == s && effect == EffectV::Nothing,
                        Some(signature) => {
                            let t = TransactionV { sender: s.address, out, tx_in, fee, signature };
                            let (pool, changed) = spec_add_transaction(s.chain, s.transactions, t);
                            next == with_transactions(s, pool) && effect == (if changed {
                                EffectV::Broadcast(P2PMessageV::ResponseTransactions(seq![t]))
                            } else {
                                EffectV::Nothing
                            })
                        },
                    },
                }
            }
        },
        EventV::MineBlock => {
            let order = mining_order(s.transactions);
            let k = mined_count(s.transactions);
            next == with_transactions(s, order.skip(k)) && effect == EffectV::MineBlock(order.take(k))
        },
        EventV::CompletedMineBlock(b) => {
            let accepted = spec_accepts_block(s.chain, b, true, true, cache);
            next == with_chain(s, if accepted { s.chain.push(b) } else { s.chain }) && effect == (if accepted {
                EffectV::Broadcast(P2PMessageV::ResponseBlockChain(seq![b]))
            } else {
                EffectV::Nothing
            })
        },
        EventV::P2PMessage(from, message) => match message {
            P2PMessageV::QueryAll => next == s && effect == EffectV::Broadcast(
                P2PMessageV::ResponseBlockChain(s.chain),
            ),
            P2PMessageV::QueryLatest => next == s && (effect matches EffectV::Broadcast(
                P2PMessageV::ResponseBlockChain(bs),
            ) && bs.len() == 1 && (if s.chain.len() > 0 {
                bs[0] == s.chain.last()
            } else {
                spec_is_genesis(bs[0])
            })),
            P2PMessageV::ResponseBlockChain(blocks) => {
                if blocks.len() == 0 {
                    next == s && effect == EffectV::Nothing
                } else {
                    let received = blocks.last();
                    if received.index > latest_index(s.chain) {
                        if received.previous_hash == latest_hash(s.chain) {
                            let accepted = spec_accepts_block(s.chain, received, false, true, cache);
                            next == with_chain(s, if accepted { s.chain.push(received) } else { s.chain })
                                && effect == (if accepted {
                                EffectV::Broadcast(P2PMessageV::ResponseBlockChain(seq![received]))
                            } else {
                                EffectV::Nothing
                            })
                        } else if blocks.len() == 1 {
                            next == s && effect == EffectV::Broadcast(P2PMessageV::QueryAll)
                        } else {
                            next == with_chain(
                                s,
                                if spec_chain_valid(blocks) && blocks.len() > s.chain.len() {
                                    blocks
                                } else {
                                    s.chain
                                },
                            ) && effect == EffectV::Nothing
                        }
                    } else {
                        next == s && effect == EffectV::Nothing
                    }
                }
            },
            P2PMessageV::QueryTransactions => next == s && effect == EffectV::Broadcast(
                P2PMessageV::ResponseTransactions(s.transactions),
            ),
            P2PMessageV::ResponseTransactions(txs) => {
                let (pool, changed) = spec_add_transactions(s.chain, s.transactions, txs);
                next == with_transactions(s, pool) && effect == (if changed {
                    EffectV::Broadcast(P2PMessageV::ResponseTransactions(pool))
                } else {
                    EffectV::Nothing
                })
            },
            P2PMessageV::QueryPeers => next == (match from {
                Some(p) => with_peers(s, spec_add_peer(s.peers, p).0),
                None => s,
            }) && effect == EffectV::Broadcast(P2PMessageV::ResponsePeers(s.peers)),
            P2PMessageV::ResponsePeers(peers) => {
                let (ps, changed) = spec_add_peers(s.peers, peers);
                next == with_peers(s, ps) && effect == (if changed {
                    EffectV::Broadcast(P2PMessageV::ResponsePeers(ps))
                } else {
                    EffectV::Nothing
                })
            },
        },
    }
}

pub proof fn lemma_insert_by_fee_len(sorted: Seq<TransactionV>, t: TransactionV)
    ensures
        insert_by_fee(sorted, t).len() == sorted.len() + 1,
    decreases sorted.len(),
{
    if sorted.len() > 0 && sorted.last().fee > t.fee {
        lemma_insert_by_fee_len(sorted.drop_last(), t);
    }
}

pub proof fn lemma_sort_by_fee_len(s: Seq<TransactionV>)
    ensures
        sort_by_fee(s).len() == s.len(),
    decreases s.len(),
{
    if s.len() > 0 {
        lemma_sort_by_fee_len(s.drop_last());
        lemma_insert_by_fee_len(sort_by_fee(s.drop_last()), s.last());
    }
}

/// Places `t` into transactions sorted by ascending fee, after every
/// transaction whose fee is not higher.
fn insert_sorted_by_fee(sorted: &mut Vec<Transaction>, t: Transaction)
    ensures
        txs_view(final(sorted)@) == insert_by_fee(txs_view(old(sorted)@), t@),
{
    let ghost sv = txs_view(sorted@);
    let mut k = sorted.len();
    assert(sv.take(k as int) =~= sv);
    assert(sv.skip(k as int) =~= Seq::<TransactionV>::empty());
    while k > 0 && sorted[k - 1].fee > t.fee
        invariant
            k <= sorted@.len(),
            sv == txs_view(sorted@),
            insert_by_fee(sv, t@) == insert_by_fee(sv.take(k as int), t@) + sv.skip(k as int),
        decreases k,
    {
        proof {
            let s1 = sv.take(k as int);
            assert(s1.last() == sv[k - 1]);
            assert(s1.drop_last() =~= sv.take(k - 1));
            assert(sv.skip(k - 1) =~= seq![sv[k - 1]] + sv.skip(k as int));
            assert(insert_by_fee(s1, t@) == insert_by_fee(sv.take(k - 1), t@).push(sv[k - 1]));
            assert(insert_by_fee(sv.take(k - 1), t@).push(sv[k - 1]) + sv.skip(k as int) =~= insert_by_fee(
                sv.take(k - 1),
                t@,
            ) + sv.skip(k - 1));
        }
        k = k - 1;
    }
    let ghost tv = t@;
    sorted.insert(k, t);
    proof {
        if k > 0 {
            assert(sv.take(k as int).last() == sv[k - 1]);
        }
        assert(insert_by_fee(sv.take(k as int), tv) =~= sv.take(k as int).push(tv));
        assert(txs_view(sorted@) =~= sv.take(k as int).push(tv) + sv.skip(k as int));
    }
}

/// Copies of transactions sorted by ascending fee, keeping the order of
/// equal fees.
fn sort_by_fee_stable(pool: &Vec<Transaction>) -> (res: Vec<Transaction>)
    ensures
        txs_view(res@) == sort_by_fee(txs_view(pool@)),
{
    let mut sorted: Vec<Transaction> = Vec::new();
    let mut i: usize = 0;
    while i < pool.len()
        invariant
            i <= pool@.len(),
            txs_view(sorted@) == sort_by_fee(txs_view(pool@.take(i as int))),
        decreases pool@.len() - i,
    {
        proof {
            assert(txs_view(pool@.take(i + 1)).drop_last() =~= txs_view(pool@.take(i as int)));
            assert(txs_view(pool@.take(i + 1)).last() == pool@[i as int]@);
        }
        insert_sorted_by_fee(&mut sorted, pool[i].clone());
        i = i + 1;
    }
    assert(pool@.take(i as int) =~= pool@);
    sorted
}

/// Copies of transactions in reverse order.
fn reversed(v: &Vec<Transaction>) -> (res: Vec<Transaction>)
    ensures
        txs_view(res@) == txs_view(v@).reverse(),
{
    let mut res: Vec<Transaction> = Vec::new();
    let mut i: usize = v.len();
    while i > 0
        invariant
            i <= v@.len(),
            res@.len() == v@.len() - i,
            forall|j: int| 0 <= j < res@.len() ==> (#[trigger] res@[j])@ == v@[v@.len() - 1 - j]@,
        decreases i,
    {
        i = i - 1;
        res.push(v[i].clone());
    }
    assert(txs_view(res@) =~= txs_view(v@).reverse());
    res
}

/// Copies of the transactions from index `from` to index `to`.
fn copy_range(v: &Vec<Transaction>, from: usize, to: usize) -> (res: Vec<Transaction>)
    requires
        from <= to <= v@.len(),
    ensures
        txs_view(res@) == txs_view(v@).subrange(from as int, to as int),
{
    let mut res: Vec<Transaction> = Vec::new();
    let mut i: usize = from;
    while i < to
        invariant
            from <= i <= to,
            to <= v@.len(),
            res@.len() == i - from,
            forall|j: int| 0 <= j < res@.len() ==> (#[trigger] res@[j])@ == v@[from + j]@,
        decreases to - i,
    {
        res.push(v[i].clone());
        i = i + 1;
    }
    assert(txs_view(res@) =~= txs_view(v@).subrange(from as int, to as int));
    res
}

fn handle_mine_block(state: State) -> (res: (State, Effect))
    ensures
        spec_update_result(EventV::MineBlock, state@, Map::empty(), res.0@, res.1@),
{
    let sorted = sort_by_fee_stable(&state.transactions);
    let order = reversed(&sorted);
    let n = order.len();
    let k = if MAX_TRANSACTIONS_PER_BLOCK < n {
        MAX_TRANSACTIONS_PER_BLOCK
    } else {
        n
    };
    let mined = copy_range(&order, 0, k);
    let remaining = copy_range(&order, k, n);
    proof {
        let ov = mining_order(txs_view(state.transactions@));
        lemma_sort_by_fee_len(txs_view(state.transactions@));
        assert(ov.subrange(0, k as int) =~= ov.take(k as int));
        assert(ov.subrange(k as int, n as int) =~= ov.skip(k as int));
    }
    let State { secret_key, address, chain, transactions: _, peers } = state;
    (State { secret_key, address, chain, transactions: remaining, peers }, Effect::MineBlock(mined))
}

/// Whether a payment the node is asked to make goes through: a usable
/// recipient, a positive amount the node's unspent outputs (not spent by
/// its pool) can pay with the fee, a secret key that signs and whose public
/// key is the node's usable address, and ids that have not run out.
pub open spec fn spec_payment_goes_through(s: StateV, recipient: Address, send_amount: u64, fee: u64) -> bool {
    &&& spec_is_valid_public_key(recipient.der@)
    &&& send_amount > 0
    &&& send_amount + fee <= u64::MAX
    &&& spec_payment_plan(s.chain, s.address, recipient, send_amount, s.transactions, fee) is Some
    &&& spec_signing_key_ok(s.secret_key.der@)
    &&& spec_public_key_of(s.secret_key.der@) == Some(s.address.der@)
    &&& spec_is_valid_public_key(s.address.der@)
    &&& spec_chain_unspent(s.chain).1 < u64::MAX
}

fn handle_add_transaction(recipient: Address, send_amount: u64, fee: u64, state: State) -> (res: (State, Effect))
    requires
        spec_is_valid_public_key(recipient.der@) ==> send_amount + fee <= u64::MAX,
    ensures
        spec_update_result(EventV::AddTransaction(recipient, send_amount, fee), state@, Map::empty(), res.0@, res.1@),
        spec_payment_goes_through(state@, recipient, send_amount, fee) ==> res.0@.transactions.len()
            == state@.transactions.len() + 1 && res.1@ is Broadcast,
{
    if !is_valid_address(&recipient) {
        return (state, Effect::Nothing);
    }
    match state.chain.generate_transaction(
        &state.address,
        &recipient,
        send_amount,
        &state.secret_key,
        state.transactions.as_slice(),
        fee,
    ) {
        Ok(Some(transaction)) => {
            let (next, changed) = state.add_transaction(&transaction);
            if changed {
                let ghost tv = transaction@;
                let sent = vec![transaction];
                assert(txs_view(sent@) =~= seq![tv]);
                (next, Effect::Broadcast(P2PMessage::ResponseTransactions(sent)))
            } else {
                (next, Effect::Nothing)
            }
        },
        _ => (state, Effect::Nothing),
    }
}

fn handle_completed_mine_block(new_block: Block, state: State, beacon_cache: &InMemoryBeaconCache) -> (res: (
    State,
    Effect,
))
    ensures
        spec_update_result(EventV::CompletedMineBlock(new_block@), state@, beacon_cache@, res.0@, res.1@),
{
    let copy = new_block.clone();
    let (chain, changed) = state.chain.add_block(new_block, true, true, beacon_cache);
    let State { secret_key, address, chain: _, transactions, peers } = state;
    let next = State { secret_key, address, chain, transactions, peers };
    if changed {
        let ghost bv = copy@;
        let sent = vec![copy];
        assert(blocks_view(sent@) =~= seq![bv]);
        (next, Effect::Broadcast(P2PMessage::ResponseBlockChain(sent)))
    } else {
        (next, Effect::Nothing)
    }
}

fn handle_response_blockchain(
    from: Option<Peer>,
    blocks: Vec<Block>,
    state: State,
    beacon_cache: &InMemoryBeaconCache,
) -> (res: (State, Effect))
    ensures
        spec_update_result(
            EventV::P2PMessage(from, P2PMessageV::ResponseBlockChain(blocks_view(blocks@))),
            state@,
            beacon_cache@,
            res.0@,
            res.1@,
        ),
{
    let n = blocks.len();
    if n == 0 {
        return (state, Effect::Nothing);
    }
    let received = blocks[n - 1].clone();
    assert(blocks_view(blocks@).last() == blocks@[n - 1]@);
    let held = state.chain.get_latest_block();
    if received.index > held.index {
        if hashes_equal(&received.previous_hash, &held.hash) {
            let copy = received.clone();
            let (chain, changed) = state.chain.add_block(received, false, true, beacon_cache);
            let State { secret_key, address, chain: _, transactions, peers } = state;
            let next = State { secret_key, address, chain, transactions, peers };
            if changed {
                let ghost bv = copy@;
                let sent = vec![copy];
                assert(blocks_view(sent@) =~= seq![bv]);
                (next, Effect::Broadcast(P2PMessage::ResponseBlockChain(sent)))
            } else {
                (next, Effect::Nothing)
            }
        } else if n == 1 {
            (state, Effect::Broadcast(P2PMessage::QueryAll))
        } else {
            let chain = state.chain.replace(Chain { blocks });
            let State { secret_key, address, chain: _, transactions, peers } = state;
            (State { secret_key, address, chain, transactions, peers }, Effect::Nothing)
        }
    } else {
        (state, Effect::Nothing)
    }
}

fn handle_response_transactions(
    from: Option<Peer>,
    transactions: Vec<Transaction>,
    state: State,
) -> (res: (State, Effect))
    ensures
        spec_update_result(
            EventV::P2PMessage(from, P2PMessageV::ResponseTransactions(txs_view(transactions@))),
            state@,
            Map::empty(),
            res.0@,
            res.1@,
        ),
{
    let ghost s0 = state@;
    let mut state = state;
    let mut changed = false;
    let mut i: usize = 0;
    while i < transactions.len()
        invariant
            i <= transactions@.len(),
            (state@.transactions, changed) == crate::state::spec_add_transactions(
                s0.chain,
                s0.transactions,
                txs_view(transactions@.take(i as int)),
            ),
            state@.secret_key == s0.secret_key,
            state@.address == s0.address,
            state@.chain == s0.chain,
            state@.peers == s0.peers,
        decreases transactions@.len() - i,
    {
        proof {
            assert(txs_view(transactions@.take(i + 1)).drop_last() =~= txs_view(transactions@.take(i as int)));
            assert(txs_view(transactions@.take(i + 1)).last() == transactions@[i as int]@);
        }
        let (next, changed_) = state.add_transaction(&transactions[i]);
        state = next;
        changed = changed || changed_;
        i = i + 1;
    }
    assert(transactions@.take(i as int) =~= transactions@);
    if changed {
        let pool = crate::blockchain::block::clone_transactions(state.transactions.as_slice());
        (state, Effect::Broadcast(P2PMessage::ResponseTransactions(pool)))
    } else {
        (state, Effect::Nothing)
    }
}

/// Copies of peers.
fn copy_peers(peers: &Vec<Peer>) -> (res: Vec<Peer>)
    ensures
        res@ == peers@,
{
    let mut res: Vec<Peer> = Vec::new();
    let mut i: usize = 0;
    while i < peers.len()
        invariant
            i <= peers@.len(),
            res@ == peers@.take(i as int),
        decreases peers@.len() - i,
    {
        res.push(peers[i]);
        i = i + 1;
        assert(res@ =~= peers@.take(i as int));
    }
    assert(peers@.take(i as int) =~= peers@);
    res
}

/// Reacts to an event: the node's next state and what it should do. The
/// beacon cache must hold the beacons that `beacon_keys_to_prefetch` names
/// for the event, for blocks from other nodes to be taken. A payment to a
/// usable recipient must not ask for an amount and a fee that together
/// exceed 64 bits.
pub fn update(event: Event, state: State, beacon_cache: &InMemoryBeaconCache) -> (res: (State, Effect))
    requires
        event matches Event::AddTransaction(recipient, send_amount, fee) ==> (spec_is_valid_public_key(
            recipient.der@,
        ) ==> send_amount + fee <= u64::MAX),
    ensures
        spec_update_result(event@, state@, beacon_cache@, res.0@, res.1@),
        event@ matches EventV::AddTransaction(r, a, f) ==> (spec_payment_goes_through(state@, r, a, f)
            ==> res.0@.transactions.len() == state@.transactions.len() + 1 && res.1@ is Broadcast),
{
    match event {
        Event::AddPeer(peer) => {
            let (next, changed) = state.add_peer(&peer);
            (next, if changed {
                Effect::Broadcast(P2PMessage::QueryPeers)
            } else {
                Effect::Nothing
            })
        },
        Event::RemovePeers(peers) => (state.remove_peers(peers.as_slice()).0, Effect::Nothing),
        Event::AddTransaction(recipient, send_amount, fee) => handle_add_transaction(
            recipient,
            send_amount,
            fee,
            state,
        ),
        Event::MineBlock => handle_mine_block(state),
        Event::CompletedMineBlock(new_block) => handle_completed_mine_block(new_block, state, beacon_cache),
        Event::P2PMessage(from, message) => match message {
            P2PMessage::QueryAll => {
                let blocks = clone_blocks(state.chain.blocks.as_slice());
                (state, Effect::Broadcast(P2PMessage::ResponseBlockChain(blocks)))
            },
            P2PMessage::QueryLatest => {
                let latest = state.chain.get_latest_block();
                let ghost bv = latest@;
                let blocks = vec![latest];
                assert(blocks_view(blocks@) =~= seq![bv]);
                (state, Effect::Broadcast(P2PMessage::ResponseBlockChain(blocks)))
            },
            P2PMessage::ResponseBlockChain(blocks) => handle_response_blockchain(from, blocks, state, beacon_cache),
            P2PMessage::QueryTransactions => {
                let pool = crate::blockchain::block::clone_transactions(state.transactions.as_slice());
                (state, Effect::Broadcast(P2PMessage::ResponseTransactions(pool)))
            },
            P2PMessage::ResponseTransactions(transactions) => handle_response_transactions(from, transactions, state),
            P2PMessage::QueryPeers => {
                let known = copy_peers(&state.peers);
                let next = match from {
                    Some(peer) => state.add_peer(&peer).0,
                    None => state,
                };
                (next, Effect::Broadcast(P2PMessage::ResponsePeers(known)))
            },
            P2PMessage::ResponsePeers(peers) => {
                let (next, changed) = state.add_peers(peers.as_slice());
                if changed {
                    let known = copy_peers(&next.peers);
                    (next, Effect::Broadcast(P2PMessage::ResponsePeers(known)))
                } else {
                    (next, Effect::Nothing)
                }
            },
        },
    }
}

/// What follows an attempt to mine `transactions` at `next_timestamp`, with
/// the beacon read for that time (none when reading failed): the block
/// generated on the beacon is reported and mining goes on; without a beacon,
/// or when the node cannot sign the block, mining starts over.
pub fn events_after_mining(
    state: &State,
    transactions: Vec<Transaction>,
    beacon: Option<Beacon>,
    next_timestamp: i64,
) -> (res: Vec<Event>)
    ensures
        match beacon {
            None => res@.len() == 1 && res@[0]@ == EventV::MineBlock,
            Some(b) => {
                ||| res@.len() == 2 && res@[1]@ == EventV::MineBlock && (res@[0]@ matches EventV::CompletedMineBlock(
                    blk,
                ) && spec_next_block(
                    state@.chain,
                    state@.secret_key.der@,
                    state@.address,
                    b@,
                    txs_view(transactions@),
                    next_timestamp,
                    blk,
                ))
                ||| res@.len() == 1 && res@[0]@ == EventV::MineBlock && spec_next_block_unsignable(
                    state@.chain,
                    state@.secret_key.der@,
                    state@.address,
                    b@,
                    txs_view(transactions@),
                    next_timestamp,
                )
            },
        },
{
    match beacon {
        None => vec![Event::MineBlock],
        Some(b) => match state.chain.generate_next_block(
            &state.secret_key,
            &state.address,
            b,
            transactions,
            next_timestamp,
        ) {
            Ok(block) => vec![Event::CompletedMineBlock(block), Event::MineBlock],
            Err(_) => vec![Event::MineBlock],
        },
    }
}

/// The keys of the beacons of the last blocks of a peer's chain: for each
/// pair of neighbours among the last `CHECKPOINT_DEPTH + 1` blocks, the
/// earlier block's hash and the later block's time.
pub open spec fn chain_window_keys(blocks: Seq<BlockV>) -> Seq<(Seq<u8>, i64)> {
    if blocks.len() < 2 {
        Seq::empty()
    } else {
        let start = if blocks.len() > CHECKPOINT_DEPTH + 1 {
            blocks.len() - (CHECKPOINT_DEPTH + 1)
        } else {
            0
        };
        Seq::new(
            (blocks.len() - 1 - start) as nat,
            |i: int| (blocks[start + i].hash, blocks[start + i + 1].timestamp),
        )
    }
}

/// The beacons a node must have read before it handles an event: the one
/// for a block it mined, the one for a peer's block that follows its latest
/// block, or those of the last blocks of a peer's longer chain.
pub open spec fn spec_prefetch_keys(e: EventV, s: StateV) -> Seq<(Seq<u8>, i64)> {
    match e {
        EventV::CompletedMineBlock(b) => seq![(latest_hash(s.chain), b.timestamp)],
        EventV::P2PMessage(_, P2PMessageV::ResponseBlockChain(blocks)) => {
            if blocks.len() == 0 {
                Seq::empty()
            } else {
                let received = blocks.last();
                if received.index > latest_index(s.chain) {
                    if received.previous_hash == latest_hash(s.chain) {
                        seq![(latest_hash(s.chain), received.timestamp)]
                    } else if blocks.len() == 1 {
                        Seq::empty()
                    } else {
                        chain_window_keys(blocks)
                    }
                } else {
                    Seq::empty()
                }
            }
        },
        _ => Seq::empty(),
    }
}

fn window_keys(blocks: &Vec<Block>) -> (res: Vec<BeaconKey>)
    ensures
        res@.map_values(|k: BeaconKey| key_view(k)) == chain_window_keys(blocks_view(blocks@)),
{
    let mut res: Vec<BeaconKey> = Vec::new();
    let n = blocks.len();
    if n < 2 {
        assert(res@.map_values(|k: BeaconKey| key_view(k)) =~= chain_window_keys(blocks_view(blocks@)));
        return res;
    }
    let start: usize = if n > CHECKPOINT_DEPTH + 1 {
        n - (CHECKPOINT_DEPTH + 1)
    } else {
        0
    };
    let mut i: usize = start;
    while i + 1 < n
        invariant
            start <= i < n,
            n == blocks@.len(),
            res@.len() == i - start,
            forall|j: int|
                0 <= j < res@.len() ==> key_view(#[trigger] res@[j]) == (
                    blocks@[start + j].hash@,
                    blocks@[start + j + 1].timestamp,
                ),
        decreases n - i,
    {
        res.push(BeaconKey::new(&blocks[i].hash, blocks[i + 1].timestamp));
        i = i + 1;
    }
    proof {
        let bv = blocks_view(blocks@);
        assert forall|j: int| 0 <= j < res@.len() implies res@.map_values(|k: BeaconKey| key_view(k))[j]
            == chain_window_keys(bv)[j] by {
            assert(bv[start + j] == blocks@[start + j]@);
            assert(bv[start + j + 1] == blocks@[start + j + 1]@);
        }
        assert(res@.map_values(|k: BeaconKey| key_view(k)) =~= chain_window_keys(bv));
    }
    res
}

/// The beacons the node must read and cache before `update` handles
/// `event`, for blocks from other nodes (and its own) to be checked.
pub fn beacon_keys_to_prefetch(event: &Event, state: &State) -> (res: Vec<BeaconKey>)
    ensures
        res@.map_values(|k: BeaconKey| key_view(k)) == spec_prefetch_keys(event@, state@),
{
    let mut res: Vec<BeaconKey> = Vec::new();
    match event {
        Event::CompletedMineBlock(b) => {
            let latest = state.chain.get_latest_block();
            res.push(BeaconKey::new(&latest.hash, b.timestamp));
        },
        Event::P2PMessage(_, P2PMessage::ResponseBlockChain(blocks)) => {
            let n = blocks.len();
            if n > 0 {
                assert(blocks_view(blocks@).last() == blocks@[n - 1]@);
                let held = state.chain.get_latest_block();
                if blocks[n - 1].index > held.index {
                    if hashes_equal(&blocks[n - 1].previous_hash, &held.hash) {
                        res.push(BeaconKey::new(&held.hash, blocks[n - 1].timestamp));
                    } else if n > 1 {
                        res = window_keys(blocks);
                    }
                }
            }
        },
        _ => {},
    }
    assert(res@.map_values(|k: BeaconKey| key_view(k)) =~= spec_prefetch_keys(event@, state@));
    res
}

/// Whether fees never fall along the sequence.
pub open spec fn fees_ascending(s: Seq<TransactionV>) -> bool {
    forall|i: int, j: int| 0 <= i < j < s.len() ==> s[i].fee <= s[j].fee
}

/// Whether fees never rise along the sequence.
pub open spec fn fees_descending(s: Seq<TransactionV>) -> bool {
    forall|i: int, j: int| 0 <= i < j < s.len() ==> s[i].fee >= s[j].fee
}

proof fn lemma_insert_by_fee_sorted(sorted: Seq<TransactionV>, t: TransactionV)
    requires
        fees_ascending(sorted),
    ensures
        fees_ascending(insert_by_fee(sorted, t)),
        insert_by_fee(sorted, t).to_multiset() == sorted.to_multiset().insert(t),
        insert_by_fee(sorted, t).len() == sorted.len() + 1,
        forall|i: int|
            0 <= i < insert_by_fee(sorted, t).len() ==> (#[trigger] insert_by_fee(sorted, t)[i]).fee
                == t.fee || exists|j: int| 0 <= j < sorted.len() && sorted[j].fee == insert_by_fee(sorted, t)[i].fee,
    decreases sorted.len(),
{
    broadcast use vstd::seq_lib::group_to_multiset_ensures;

    if sorted.len() == 0 {
        assert(seq![t] =~= Seq::<TransactionV>::empty().push(t));
    } else if sorted.last().fee <= t.fee {
        let r = sorted.push(t);
        assert forall|i: int, j: int| 0 <= i < j < r.len() implies r[i].fee <= r[j].fee by {
            if j == sorted.len() {
                assert(sorted[i].fee <= sorted[sorted.len() - 1].fee);
            }
        }
        assert forall|i: int| 0 <= i < r.len() implies (#[trigger] r[i]).fee == t.fee || exists|j: int|
            0 <= j < sorted.len() && sorted[j].fee == r[i].fee by {
            if i < sorted.len() {
                assert(sorted[i].fee == r[i].fee);
            }
        }
    } else {
        let rest = sorted.drop_last();
        let last = sorted.last();
        assert(sorted =~= rest.push(last));
        assert(fees_ascending(rest));
        lemma_insert_by_fee_sorted(rest, t);
        let ins = insert_by_fee(rest, t);
        let r = ins.push(last);
        assert forall|i: int| 0 <= i < ins.len() implies ins[i].fee <= last.fee by {
            if ins[i].fee != t.fee {
                let j = choose|j: int| 0 <= j < rest.len() && rest[j].fee == ins[i].fee;
                assert(sorted[j].fee <= sorted[sorted.len() - 1].fee);
            }
        }
        assert forall|i: int, j: int| 0 <= i < j < r.len() implies r[i].fee <= r[j].fee by {
            if j == ins.len() {
                assert(r[i] == ins[i]);
            } else {
                assert(r[i] == ins[i] && r[j] == ins[j]);
            }
        }
        assert forall|i: int| 0 <= i < r.len() implies (#[trigger] r[i]).fee == t.fee || exists|j: int|
            0 <= j < sorted.len() && sorted[j].fee == r[i].fee by {
            if i == ins.len() {
                assert(sorted[sorted.len() - 1].fee == r[i].fee);
            } else {
                assert(r[i] == ins[i]);
                if ins[i].fee != t.fee {
                    let j = choose|j: int| 0 <= j < rest.len() && rest[j].fee == ins[i].fee;
                    assert(sorted[j] == rest[j]);
                }
            }
        }
    }
}

proof fn lemma_sort_by_fee(s: Seq<TransactionV>)
    ensures
        fees_ascending(sort_by_fee(s)),
        sort_by_fee(s).to_multiset() == s.to_multiset(),
    decreases s.len(),
{
    broadcast use vstd::seq_lib::group_to_multiset_ensures;

    if s.len() > 0 {
        lemma_sort_by_fee(s.drop_last());
        lemma_insert_by_fee_sorted(sort_by_fee(s.drop_last()), s.last());
        assert(s =~= s.drop_last().push(s.last()));
    } else {
        assert(sort_by_fee(s) =~= s);
    }
}

/// Mining takes the transactions with the highest fees: the block's
/// transactions come in order of falling fee, none pays less than any that
/// stays pending, the block takes `MAX_TRANSACTIONS_PER_BLOCK` of them (all
/// when fewer are pending), and together with those that stay they are
/// exactly the pending ones.
pub proof fn law_mining_takes_highest_fees(pool: Seq<TransactionV>)
    ensures
        ({
            let order = mining_order(pool);
            let k = mined_count(pool);
            &&& order.take(k).len() == k
            &&& fees_descending(order.take(k))
            &&& forall|i: int, j: int|
                0 <= i < k && 0 <= j < order.skip(k).len() ==> order.take(k)[i].fee >= order.skip(k)[j].fee
            &&& (order.take(k) + order.skip(k)).to_multiset() == pool.to_multiset()
        }),
{
    let sorted = sort_by_fee(pool);
    lemma_sort_by_fee(pool);
    lemma_sort_by_fee_len(pool);
    sorted.lemma_reverse_to_multiset();
    let order = sorted.reverse();
    let k = mined_count(pool);
    assert(order.take(k) + order.skip(k) =~= order);
    assert forall|i: int, j: int| 0 <= i < j < order.len() implies order[i].fee >= order[j].fee by {
        assert(order[i] == sorted[sorted.len() - 1 - i]);
        assert(order[j] == sorted[sorted.len() - 1 - j]);
    }
    assert forall|i: int, j: int|
        0 <= i < k && 0 <= j < order.skip(k).len() implies order.take(k)[i].fee >= order.skip(k)[j].fee by {
        assert(order.take(k)[i] == order[i]);
        assert(order.skip(k)[j] == order[k + j]);
    }
}

/// The ids the transactions spend, counted with repetition.
pub open spec fn spent_ids(s: Seq<TransactionV>) -> Multiset<u64> {
    all_input_ids(s).to_multiset()
}

proof fn lemma_spent_ids_concat(a: Seq<TransactionV>, b: Seq<TransactionV>)
    ensures
        spent_ids(a + b) == spent_ids(a).add(spent_ids(b)),
{
    lemma_all_input_ids_concat(a, b);
    vstd::seq_lib::lemma_multiset_commutative(all_input_ids(a), all_input_ids(b));
}

proof fn lemma_spent_ids_push(a: Seq<TransactionV>, t: TransactionV)
    ensures
        spent_ids(a.push(t)) == spent_ids(a).add(input_ids(t.tx_in).to_multiset()),
{
    assert(a.push(t).drop_last() =~= a);
    vstd::seq_lib::lemma_multiset_commutative(all_input_ids(a), input_ids(t.tx_in));
}

proof fn lemma_spent_ids_insert_by_fee(sorted: Seq<TransactionV>, t: TransactionV)
    ensures
        spent_ids(insert_by_fee(sorted, t)) == spent_ids(sorted).add(input_ids(t.tx_in).to_multiset()),
    decreases sorted.len(),
{
    broadcast use vstd::multiset::group_multiset_axioms;

    if sorted.len() == 0 {
        assert(seq![t] =~= Seq::<TransactionV>::empty().push(t));
        lemma_spent_ids_push(Seq::empty(), t);
    } else if sorted.last().fee <= t.fee {
        lemma_spent_ids_push(sorted, t);
    } else {
        let d = sorted.drop_last();
        let l = sorted.last();
        lemma_spent_ids_insert_by_fee(d, t);
        lemma_spent_ids_push(insert_by_fee(d, t), l);
        assert(sorted =~= d.push(l));
        lemma_spent_ids_push(d, l);
        assert(spent_ids(insert_by_fee(sorted, t)) =~= spent_ids(sorted).add(input_ids(t.tx_in).to_multiset()));
    }
}

proof fn lemma_spent_ids_sort_by_fee(s: Seq<TransactionV>)
    ensures
        spent_ids(sort_by_fee(s)) == spent_ids(s),
    decreases s.len(),
{
    if s.len() > 0 {
        lemma_spent_ids_sort_by_fee(s.drop_last());
        lemma_spent_ids_insert_by_fee(sort_by_fee(s.drop_last()), s.last());
        assert(s =~= s.drop_last().push(s.last()));
        lemma_spent_ids_push(s.drop_last(), s.last());
    } else {
        assert(sort_by_fee(s) =~= s);
    }
}

proof fn lemma_spent_ids_reverse(s: Seq<TransactionV>)
    ensures
        spent_ids(s.reverse()) == spent_ids(s),
    decreases s.len(),
{
    broadcast use vstd::multiset::group_multiset_axioms;
    broadcast use vstd::seq_lib::group_to_multiset_ensures;

    if s.len() > 0 {
        let d = s.drop_last();
        let l = s.last();
        lemma_spent_ids_reverse(d);
        assert(s.reverse() =~= seq![l] + d.reverse());
        lemma_spent_ids_concat(seq![l], d.reverse());
        assert(seq![l] =~= Seq::<TransactionV>::empty().push(l));
        lemma_spent_ids_push(Seq::empty(), l);
        assert(s =~= d.push(l));
        lemma_spent_ids_push(d, l);
        assert(all_input_ids(Seq::<TransactionV>::empty()) =~= Seq::<u64>::empty());
        assert(spent_ids(Seq::<TransactionV>::empty()) =~= Multiset::empty());
        assert(spent_ids(seq![l]) =~= input_ids(l.tx_in).to_multiset());
        assert(spent_ids(s.reverse()) =~= spent_ids(s));
    } else {
        assert(s.reverse() =~= s);
    }
}

proof fn lemma_no_duplicates_of_part(whole: Seq<u64>, part: Seq<u64>, rest: Seq<u64>)
    requires
        whole.no_duplicates(),
        whole.to_multiset() == part.to_multiset().add(rest.to_multiset()),
    ensures
        part.no_duplicates(),
{
    broadcast use vstd::multiset::group_multiset_axioms;

    whole.lemma_multiset_has_no_duplicates();
    assert forall|x: u64| part.to_multiset().contains(x) implies part.to_multiset().count(x) == 1 by {
        assert(whole.to_multiset().contains(x));
    }
    part.lemma_multiset_has_no_duplicates_conv();
}

/// Mining keeps every output spent at most once: when no two pending
/// transactions spend one output, neither do the transactions a block takes
/// nor those that stay pending.
pub proof fn law_mining_spends_each_output_once(pool: Seq<TransactionV>)
    requires
        all_input_ids(pool).no_duplicates(),
    ensures
        all_input_ids(mining_order(pool).take(mined_count(pool))).no_duplicates(),
        all_input_ids(mining_order(pool).skip(mined_count(pool))).no_duplicates(),
{
    broadcast use vstd::multiset::group_multiset_axioms;

    let order = mining_order(pool);
    let k = mined_count(pool);
    lemma_sort_by_fee_len(pool);
    lemma_spent_ids_sort_by_fee(pool);
    lemma_spent_ids_reverse(sort_by_fee(pool));
    assert(order.take(k) + order.skip(k) =~= order);
    lemma_spent_ids_concat(order.take(k), order.skip(k));
    lemma_no_duplicates_of_part(all_input_ids(pool), all_input_ids(order.take(k)), all_input_ids(order.skip(k)));
    assert(spent_ids(order.skip(k)).add(spent_ids(order.take(k))) =~= spent_ids(order.take(k)).add(
        spent_ids(order.skip(k)),
    ));
    lemma_no_duplicates_of_part(all_input_ids(pool), all_input_ids(order.skip(k)), all_input_ids(order.take(k)));
}

/// Whatever event a node handles, no output is spent twice among its
/// pending transactions: the pool spends each output at most once before
/// the event, so it does after it (as long as ids have not run out).
pub proof fn law_update_spends_each_output_once(
    e: EventV,
    s: StateV,
    cache: Map<(Seq<u8>, i64), Seq<i32>>,
    next: StateV,
    effect: EffectV,
)
    requires
        spec_update_result(e, s, cache, next, effect),
        all_input_ids(s.transactions).no_duplicates(),
        spec_chain_unspent(s.chain).1 < u64::MAX,
    ensures
        all_input_ids(next.transactions).no_duplicates(),
{
    match e {
        EventV::AddTransaction(recipient, send_amount, fee) => {
            if spec_is_valid_public_key(recipient.der@) {
                match spec_payment_plan(s.chain, s.address, recipient, send_amount, s.transactions, fee) {
                    Some((out, tx_in)) => match spec_signature_by(
                        s.secret_key.der@,
                        spec_signing_bytes(s.address, out, tx_in),
                    ) {
                        Some(signature) => {
                            let t = TransactionV { sender: s.address, out, tx_in, fee, signature };
                            law_pool_spends_each_output_once(s.chain, s.transactions, t);
                        },
                        None => {},
                    },
                    None => {},
                }
            }
        },
        EventV::MineBlock => {
            law_mining_spends_each_output_once(s.transactions);
        },
        EventV::P2PMessage(_, P2PMessageV::ResponseTransactions(txs)) => {
            law_pool_spends_each_output_once_after_many(s.chain, s.transactions, txs);
        },
        _ => {},
    }
}

/// Whatever event a node handles, it never lists a peer twice and never
/// knows more than one peer over `MAX_PEERS`.
pub proof fn law_update_keeps_peers_distinct_and_bounded(
    e: EventV,
    s: StateV,
    cache: Map<(Seq<u8>, i64), Seq<i32>>,
    next: StateV,
    effect: EffectV,
)
    requires
        spec_update_result(e, s, cache, next, effect),
        peers_distinct(s.peers),
        s.peers.len() <= MAX_PEERS + 1,
    ensures
        peers_distinct(next.peers),
        next.peers.len() <= MAX_PEERS + 1,
{
    match e {
        EventV::AddPeer(p) => law_add_peer_keeps_peers_distinct_and_bounded(s.peers, p),
        EventV::RemovePeers(ps) => law_remove_peers_keeps_peers_distinct(s.peers, ps),
        EventV::P2PMessage(from, P2PMessageV::QueryPeers) => {
            if let Some(p) = from {
                law_add_peer_keeps_peers_distinct_and_bounded(s.peers, p);
            }
        },
        EventV::P2PMessage(_, P2PMessageV::ResponsePeers(ps)) => {
            law_add_peers_keeps_peers_distinct_and_bounded(s.peers, ps);
        },
        _ => {},
    }
}

/// Whatever event a node handles, its chain never gets shorter and never
/// loses its blocks but for a longer chain that passes the chain check: it
/// stays as it was, grows by one block the chain accepts, or is replaced by
/// a longer valid chain.
pub proof fn law_update_never_shortens_chain(
    e: EventV,
    s: StateV,
    cache: Map<(Seq<u8>, i64), Seq<i32>>,
    next: StateV,
    effect: EffectV,
)
    requires
        spec_update_result(e, s, cache, next, effect),
    ensures
        next.chain.len() >= s.chain.len(),
        ({
            ||| next.chain == s.chain
            ||| exists|b: BlockV|
                next.chain == s.chain.push(b) && #[trigger] spec_accepts_block(s.chain, b, true, true, cache)
            ||| exists|b: BlockV|
                next.chain == s.chain.push(b) && #[trigger] spec_accepts_block(s.chain, b, false, true, cache)
            ||| spec_chain_valid(next.chain) && next.chain.len() > s.chain.len()
        }),
{
    match e {
        EventV::CompletedMineBlock(b) => {
            if spec_accepts_block(s.chain, b, true, true, cache) {
                assert(next.chain == s.chain.push(b));
            }
        },
        EventV::P2PMessage(_, P2PMessageV::ResponseBlockChain(blocks)) => {
            if blocks.len() > 0 {
                let received = blocks.last();
                if spec_accepts_block(s.chain, received, false, true, cache) {
                    assert(spec_accepts_block(s.chain, received, false, true, cache));
                }
            }
        },
        _ => {},
    }
}

/// A block a peer sends is appended only when it links to the latest block
/// (the next index, the latest hash as its previous hash) and the beacon
/// this node read for it, under the latest hash and the block's time, is
/// cached and differs from the block's beacon by at most five tenths of a
/// degree at every place both have; the node then passes the block on to
/// its peers.
pub proof fn law_peer_block_needs_own_beacon(
    from: Option<Peer>,
    blocks: Seq<BlockV>,
    s: StateV,
    cache: Map<(Seq<u8>, i64), Seq<i32>>,
    next: StateV,
    effect: EffectV,
    b: BlockV,
)
    requires
        spec_update_result(EventV::P2PMessage(from, P2PMessageV::ResponseBlockChain(blocks)), s, cache, next, effect),
        next.chain == s.chain.push(b),
    ensures
        b.index == latest_index(s.chain) + 1,
        b.previous_hash == latest_hash(s.chain),
        cache.contains_key((latest_hash(s.chain), b.timestamp)),
        forall|i: int|
            0 <= i < b.beacon.len() && i < cache[(latest_hash(s.chain), b.timestamp)].len() ==> -5 <= (
            #[trigger] b.beacon[i]) - cache[(latest_hash(s.chain), b.timestamp)][i] <= 5,
        effect == EffectV::Broadcast(P2PMessageV::ResponseBlockChain(seq![b])),
{
    assert(next.chain.len() == s.chain.len() + 1);
    assert(next.chain.last() == b);
    let received = blocks.last();
    if blocks.len() > 0 && received.index > latest_index(s.chain) && received.previous_hash == latest_hash(s.chain) {
        if spec_accepts_block(s.chain, received, false, true, cache) {
            assert(s.chain.push(received).last() == received);
            law_accepted_block_links_to_latest(s.chain, received, false, true, cache);
        } else {
            assert(false);
        }
    } else if blocks.len() > 1 && received.index > latest_index(s.chain) && spec_chain_valid(blocks) && blocks.len()
        > s.chain.len() {
        // The longer chain taken would be the old chain with `b`: then `b`
        // links to the old chain's latest block, and the branch above is
        // the one taken.
        assert(blocks == s.chain.push(b));
        law_valid_chain_links_every_block(blocks);
        let n = blocks.len() - 1;
        assert(blocks[n] == b && blocks[n - 1] == s.chain.last());
        assert(false);
    } else {
        assert(false);
    }
}

/// A block this node mined is appended only when it links to the latest
/// block, and then the node publishes it to its peers.
pub proof fn law_mined_block_is_published(
    b: BlockV,
    s: StateV,
    cache: Map<(Seq<u8>, i64), Seq<i32>>,
    next: StateV,
    effect: EffectV,
)
    requires
        spec_update_result(EventV::CompletedMineBlock(b), s, cache, next, effect),
        next.chain == s.chain.push(b),
    ensures
        b.index == latest_index(s.chain) + 1,
        b.previous_hash == latest_hash(s.chain),
        effect == EffectV::Broadcast(P2PMessageV::ResponseBlockChain(seq![b])),
{
    assert(next.chain.len() == s.chain.len() + 1);
    if spec_accepts_block(s.chain, b, true, true, cache) {
        law_accepted_block_links_to_latest(s.chain, b, true, true, cache);
    } else {
        assert(false);
    }
}

/// Conversely, a block a peer sends as the last of its blocks is appended,
/// and passed on to the peers, when it follows the latest block (the next
/// index, a later time, the latest hash as its previous hash, the hash of
/// its own contents), meets the block rules against the chain's unspent
/// outputs, and the beacon this node read for it is cached and agrees with
/// it within five tenths at every place both have.
pub proof fn law_peer_block_taken_when_it_follows_and_agrees(
    from: Option<Peer>,
    blocks: Seq<BlockV>,
    s: StateV,
    cache: Map<(Seq<u8>, i64), Seq<i32>>,
    next: StateV,
    effect: EffectV,
)
    requires
        spec_update_result(EventV::P2PMessage(from, P2PMessageV::ResponseBlockChain(blocks)), s, cache, next, effect),
        blocks.len() > 0,
        blocks.last().index == latest_index(s.chain) + 1,
        blocks.last().timestamp > latest_timestamp(s.chain),
        blocks.last().previous_hash == latest_hash(s.chain),
        blocks.last().hash == spec_block_hash(blocks.last()),
        spec_block_valid(blocks.last(), spec_chain_unspent(s.chain).0),
        cache.contains_key((latest_hash(s.chain), blocks.last().timestamp)),
        forall|i: int|
            0 <= i < blocks.last().beacon.len() && i < cache[(latest_hash(s.chain), blocks.last().timestamp)].len()
                ==> -5 <= (#[trigger] blocks.last().beacon[i]) - cache[(latest_hash(s.chain), blocks.last().timestamp)][i]
                <= 5,
    ensures
        next.chain == s.chain.push(blocks.last()),
        effect == EffectV::Broadcast(P2PMessageV::ResponseBlockChain(seq![blocks.last()])),
{
    law_following_block_is_accepted(s.chain, blocks.last(), false, true, cache);
}

/// Conversely, a block this node mined is appended, and published, when it
/// follows the latest block (the next index, a later time, the latest hash
/// as its previous hash, the hash of its own contents) and meets the block
/// rules against the chain's unspent outputs.
pub proof fn law_mined_block_taken_when_it_follows(
    b: BlockV,
    s: StateV,
    cache: Map<(Seq<u8>, i64), Seq<i32>>,
    next: StateV,
    effect: EffectV,
)
    requires
        spec_update_result(EventV::CompletedMineBlock(b), s, cache, next, effect),
        b.index == latest_index(s.chain) + 1,
        b.timestamp > latest_timestamp(s.chain),
        b.previous_hash == latest_hash(s.chain),
        b.hash == spec_block_hash(b),
        spec_block_valid(b, spec_chain_unspent(s.chain).0),
    ensures
        next.chain == s.chain.push(b),
        effect == EffectV::Broadcast(P2PMessageV::ResponseBlockChain(seq![b])),
{
    law_following_block_is_accepted(s.chain, b, true, true, cache);
}

} // verus!
