use vstd::prelude::*;

use crate::blockchain::address::Address;
use crate::blockchain::block::{clone_transactions, BlockV};
use crate::blockchain::chain::{select_by_ids, spec_chain_unspent, spec_payment_plan, Chain};
use crate::blockchain::ids::{lemma_payment_plan_inputs, lemma_selected_ids_distinct, law_unspent_ids_distinct};
use crate::blockchain::transaction::{
    all_outs_valid, input_total, spec_signature_ok, spec_signing_bytes, spec_transaction_valid, sum_outs, txs_view,
    Transaction, TransactionV,
};
use crate::util::key::spec_is_valid_public_key;
use crate::blockchain::utxo::{
    all_input_ids, find_amount, input_ids, transaction_to_unspent_ids, transactions_to_unspent_ids,
};
use crate::p2p::Peer;
use crate::util::key::{spec_public_key_of, spec_verifies, KeyError, SK};

verus! {

/// A node keeps at most one more peer than this.
pub const MAX_PEERS: usize = 64;

/// What a node holds: its key and address, its chain, the transactions
/// waiting to be mined, and the peers it knows.
#[derive(Debug, PartialEq, Eq)]
pub struct State {
    pub secret_key: SK,
    pub address: Address,
    pub chain: Chain,
    pub transactions: Vec<Transaction>,
    pub peers: Vec<Peer>,
}

/// What a node's state is, as a mathematical value.
pub struct StateV {
    pub secret_key: SK,
    pub address: Address,
    pub chain: Seq<BlockV>,
    pub transactions: Seq<TransactionV>,
    pub peers: Seq<Peer>,
}

impl View for State {
    type V = StateV;

    open spec fn view(&self) -> StateV {
        StateV {
            secret_key: self.secret_key,
            address: self.address,
            chain: self.chain@,
            transactions: txs_view(self.transactions@),
            peers: self.peers@,
        }
    }
}

/// Copies of peers.
fn clone_peers(peers: &Vec<Peer>) -> (res: Vec<Peer>)
    ensures
        res@ == peers@,
{
    let mut res: Vec<Peer> = Vec::new();
    let mut i: usize = 0;
    while i < peers.len()
        invariant
            i <= peers@.len(),
            res@ == peers@.take(i as int),
        decreases peers@.len() - i,
    {
        res.push(peers[i]);
        i = i + 1;
        assert(res@ =~= peers@.take(i as int));
    }
    assert(peers@.take(i as int) =~= peers@);
    res
}

impl Clone for State {
    fn clone(&self) -> (res: Self)
        ensures
            res@ == self@,
    {
        State {
            secret_key: self.secret_key.clone(),
            address: self.address.clone(),
            chain: self.chain.clone(),
            transactions: clone_transactions(self.transactions.as_slice()),
            peers: clone_peers(&self.peers),
        }
    }
}

/// The peers after adding `peer`, and whether they changed: a peer already
/// known is not added, and none is added once more than `MAX_PEERS` are
/// known.
pub open spec fn spec_add_peer(peers: Seq<Peer>, peer: Peer) -> (Seq<Peer>, bool) {
    if peers.contains(peer) || peers.len() > MAX_PEERS {
        (peers, false)
    } else {
        (peers.push(peer), true)
    }
}

/// The peers after adding each of `new_peers` in turn, and whether they
/// changed.
pub open spec fn spec_add_peers(peers: Seq<Peer>, new_peers: Seq<Peer>) -> (Seq<Peer>, bool)
    decreases new_peers.len(),
{
    if new_peers.len() == 0 {
        (peers, false)
    } else {
        let (s, changed) = spec_add_peers(peers, new_peers.drop_last());
        let (s2, changed2) = spec_add_peer(s, new_peers.last());
        (s2, changed || changed2)
    }
}

/// The peers other than `peer`, in order.
pub open spec fn without_peer(peers: Seq<Peer>, peer: Peer) -> Seq<Peer>
    decreases peers.len(),
{
    if peers.len() == 0 {
        Seq::empty()
    } else if peers.last() == peer {
        without_peer(peers.drop_last(), peer)
    } else {
        without_peer(peers.drop_last(), peer).push(peers.last())
    }
}

/// The peers after removing `peer`, and whether they changed.
pub open spec fn spec_remove_peer(peers: Seq<Peer>, peer: Peer) -> (Seq<Peer>, bool) {
    if !peers.contains(peer) {
        (peers, false)
    } else {
        (without_peer(peers, peer), true)
    }
}

/// The peers after removing each of `gone` in turn, and whether they
/// changed.
pub open spec fn spec_remove_peers(peers: Seq<Peer>, gone: Seq<Peer>) -> (Seq<Peer>, bool)
    decreases gone.len(),
{
    if gone.len() == 0 {
        (peers, false)
    } else {
        let (s, changed) = spec_remove_peers(peers, gone.drop_last());
        let (s2, changed2) = spec_remove_peer(s, gone.last());
        (s2, changed || changed2)
    }
}

/// Whether the pool takes a transaction: it is valid against the chain's
/// unspent outputs, every id it spends names an unspent output (one per id),
/// and no transaction in the pool already spends any of them.
pub open spec fn spec_pool_accepts(chain: Seq<BlockV>, pool: Seq<TransactionV>, t: TransactionV) -> bool {
    let unspent = spec_chain_unspent(chain).0;
    let ids = input_ids(t.tx_in);
    &&& spec_transaction_valid(t, unspent)
    &&& select_by_ids(unspent, ids).len() == ids.len()
    &&& !(exists|i: int| 0 <= i < ids.len() && all_input_ids(pool).contains(#[trigger] ids[i]))
}

/// The pool after offering it a transaction, and whether it took it.
pub open spec fn spec_add_transaction(chain: Seq<BlockV>, pool: Seq<TransactionV>, t: TransactionV) -> (Seq<
    TransactionV,
>, bool) {
    if spec_pool_accepts(chain, pool, t) {
        (pool.push(t), true)
    } else {
        (pool, false)
    }
}

/// The pool after offering it each transaction in turn, and whether it
/// changed.
pub open spec fn spec_add_transactions(chain: Seq<BlockV>, pool: Seq<TransactionV>, txs: Seq<TransactionV>) -> (Seq<
    TransactionV,
>, bool)
    decreases txs.len(),
{
    if txs.len() == 0 {
        (pool, false)
    } else {
        let (p, changed) = spec_add_transactions(chain, pool, txs.drop_last());
        let (p2, changed2) = spec_add_transaction(chain, p, txs.last());
        (p2, changed || changed2)
    }
}

/// Whether a peer is among the peers.
fn contains_peer(peers: &Vec<Peer>, peer: &Peer) -> (res: bool)
    ensures
        res == peers@.contains(*peer),
{
    let mut i: usize = 0;
    while i < peers.len()
        invariant
            i <= peers@.len(),
            forall|j: int| 0 <= j < i ==> peers@[j] != *peer,
        decreases peers@.len() - i,
    {
        if peers[i] == *peer {
            assert(peers@[i as int] == *peer);
            return true;
        }
        i = i + 1;
    }
    false
}

/// Whether any id of `ids` occurs in `pool_ids`.
fn any_id_in(ids: &Vec<u64>, pool_ids: &Vec<u64>) -> (res: bool)
    ensures
        res == exists|i: int| 0 <= i < ids@.len() && pool_ids@.contains(#[trigger] ids@[i]),
{
    let mut i: usize = 0;
    while i < ids.len()
        invariant
            i <= ids@.len(),
            forall|j: int| 0 <= j < i ==> !pool_ids@.contains(#[trigger] ids@[j]),
        decreases ids@.len() - i,
    {
        if crate::blockchain::transaction::contains_id(pool_ids, ids[i]) {
            assert(pool_ids@.contains(ids@[i as int]));
            return true;
        }
        i = i + 1;
    }
    false
}

impl State {
    /// The state of a node with `secret_key` and `chain`: its address is the
    /// public key of the secret key; no pending transactions, no peers. An
    /// error when the secret key has no public key.
    pub fn new(secret_key: SK, chain: Chain) -> (res: Result<Self, KeyError>)
        ensures
            match res {
                Ok(s) => s@.secret_key == secret_key && spec_public_key_of(secret_key.der@) == Some(
                    s@.address.der@,
                ) && s@.chain == chain@ && s@.transactions.len() == 0 && s@.peers.len() == 0,
                Err(_) => spec_public_key_of(secret_key.der@) is None,
            },
    {
        let address = secret_key.to_pk()?;
        Ok(State { secret_key, address, chain, transactions: Vec::new(), peers: Vec::new() })
    }

    /// Adds `transaction` to the pool when it is valid against the chain's
    /// unspent outputs, its inputs all exist, and no pooled transaction
    /// spends any of them. Returns the state and whether it changed.
    pub fn add_transaction(&self, transaction: &Transaction) -> (res: (Self, bool))
        ensures
            (res.0@.transactions, res.1) == spec_add_transaction(self@.chain, self@.transactions, transaction@),
            res.0@.secret_key == self@.secret_key,
            res.0@.address == self@.address,
            res.0@.chain == self@.chain,
            res.0@.peers == self@.peers,
    {
        let tx_in_ids = transaction_to_unspent_ids(transaction);
        let state_tx_in_ids = transactions_to_unspent_ids(self.transactions.as_slice());
        let unspent = self.chain.get_unspent_transactions().0;
        let is_valid = transaction.is_valid(unspent.as_slice());
        let inputs_exist = self.chain.find_unspent_transactions(&tx_in_ids).len() == tx_in_ids.len();
        let double_spent_in_pool = any_id_in(&tx_in_ids, &state_tx_in_ids);
        if !is_valid || !inputs_exist || double_spent_in_pool {
            return (self.clone(), false);
        }
        let mut next = self.clone();
        let ghost before = next.transactions@;
        next.transactions.push(transaction.clone());
        assert(txs_view(next.transactions@) =~= txs_view(before).push(transaction@));
        (next, true)
    }

    /// Adds `peer` unless it is known or more than `MAX_PEERS` peers are.
    /// Returns the state and whether it changed.
    pub fn add_peer(&self, peer: &Peer) -> (res: (Self, bool))
        ensures
            (res.0@.peers, res.1) == spec_add_peer(self@.peers, *peer),
            res.0@.secret_key == self@.secret_key,
            res.0@.address == self@.address,
            res.0@.chain == self@.chain,
            res.0@.transactions == self@.transactions,
    {
        if contains_peer(&self.peers, peer) || self.peers.len() > MAX_PEERS {
            return (self.clone(), false);
        }
        let mut next = self.clone();
        next.peers.push(*peer);
        (next, true)
    }

    /// Adds each of `peers` in turn. Returns the state and whether it
    /// changed.
    pub fn add_peers(&self, peers: &[Peer]) -> (res: (Self, bool))
        ensures
            (res.0@.peers, res.1) == spec_add_peers(self@.peers, peers@),
            res.0@.secret_key == self@.secret_key,
            res.0@.address == self@.address,
            res.0@.chain == self@.chain,
            res.0@.transactions == self@.transactions,
    {
        let mut state = self.clone();
        let mut changed = false;
        let mut i: usize = 0;
        while i < peers.len()
            invariant
                i <= peers@.len(),
                (state@.peers, changed) == spec_add_peers(self@.peers, peers@.take(i as int)),
                state@.secret_key == self@.secret_key,
                state@.address == self@.address,
                state@.chain == self@.chain,
                state@.transactions == self@.transactions,
            decreases peers@.len() - i,
        {
            assert(peers@.take(i + 1).drop_last() =~= peers@.take(i as int));
            let (next, changed_) = state.add_peer(&peers[i]);
            state = next;
            changed = changed || changed_;
            i = i + 1;
        }
        assert(peers@.take(i as int) =~= peers@);
        (state, changed)
    }

    /// Removes `peer` when it is known. Returns the state and whether it
    /// changed.
    pub fn remove_peer(&self, peer: &Peer) -> (res: (Self, bool))
        ensures
            (res.0@.peers, res.1) == spec_remove_peer(self@.peers, *peer),
            res.0@.secret_key == self@.secret_key,
            res.0@.address == self@.address,
            res.0@.chain == self@.chain,
            res.0@.transactions == self@.transactions,
    {
        if !contains_peer(&self.peers, peer) {
            return (self.clone(), false);
        }
        let mut kept: Vec<Peer> = Vec::new();
        let mut i: usize = 0;
        while i < self.peers.len()
            invariant
                i <= self.peers@.len(),
                kept@ == without_peer(self.peers@.take(i as int), *peer),
            decreases self.peers@.len() - i,
        {
            assert(self.peers@.take(i + 1).drop_last() =~= self.peers@.take(i as int));
            if self.peers[i] != *peer {
                kept.push(self.peers[i]);
            }
            i = i + 1;
        }
        assert(self.peers@.take(i as int) =~= self.peers@);
        let mut next = self.clone();
        next.peers = kept;
        (next, true)
    }

    /// Removes each of `peers` in turn. Returns the state and whether it
    /// changed.
    pub fn remove_peers(&self, peers: &[Peer]) -> (res: (Self, bool))
        ensures
            (res.0@.peers, res.1) == spec_remove_peers(self@.peers, peers@),
            res.0@.secret_key == self@.secret_key,
            res.0@.address == self@.address,
            res.0@.chain == self@.chain,
            res.0@.transactions == self@.transactions,
    {
        let mut state = self.clone();
        let mut changed = false;
        let mut i: usize = 0;
        while i < peers.len()
            invariant
                i <= peers@.len(),
                (state@.peers, changed) == spec_remove_peers(self@.peers, peers@.take(i as int)),
                state@.secret_key == self@.secret_key,
                state@.address == self@.address,
                state@.chain == self@.chain,
                state@.transactions == self@.transactions,
            decreases peers@.len() - i,
        {
            assert(peers@.take(i + 1).drop_last() =~= peers@.take(i as int));
            let (next, changed_) = state.remove_peer(&peers[i]);
            state = next;
            changed = changed || changed_;
            i = i + 1;
        }
        assert(peers@.take(i as int) =~= peers@);
        (state, changed)
    }
}

/// Whether no peer is listed twice.
pub open spec fn peers_distinct(peers: Seq<Peer>) -> bool {
    forall|i: int, j: int| 0 <= i < j < peers.len() ==> peers[i] != peers[j]
}

proof fn lemma_add_peer_keeps(peers: Seq<Peer>, peer: Peer)
    requires
        peers_distinct(peers),
        peers.len() <= MAX_PEERS + 1,
    ensures
        peers_distinct(spec_add_peer(peers, peer).0),
        spec_add_peer(peers, peer).0.len() <= MAX_PEERS + 1,
{
    let r = spec_add_peer(peers, peer).0;
    if !peers.contains(peer) && peers.len() <= MAX_PEERS {
        assert forall|i: int, j: int| 0 <= i < j < r.len() implies r[i] != r[j] by {
            if j == peers.len() {
                assert(r[i] == peers[i]);
            }
        }
    }
}

/// Adding peers never lists a peer twice and never makes the list longer
/// than one more than `MAX_PEERS`; a peer that was added is listed.
pub proof fn law_add_peers_keeps_peers_distinct_and_bounded(peers: Seq<Peer>, new_peers: Seq<Peer>)
    requires
        peers_distinct(peers),
        peers.len() <= MAX_PEERS + 1,
    ensures
        peers_distinct(spec_add_peers(peers, new_peers).0),
        spec_add_peers(peers, new_peers).0.len() <= MAX_PEERS + 1,
        forall|q: Peer| peers.contains(q) ==> spec_add_peers(peers, new_peers).0.contains(q),
    decreases new_peers.len(),
{
    if new_peers.len() > 0 {
        law_add_peers_keeps_peers_distinct_and_bounded(peers, new_peers.drop_last());
        let s = spec_add_peers(peers, new_peers.drop_last()).0;
        lemma_add_peer_keeps(s, new_peers.last());
        assert forall|q: Peer| peers.contains(q) implies spec_add_peers(peers, new_peers).0.contains(q) by {
            assert(s.contains(q));
            if !(s.contains(new_peers.last()) || s.len() > MAX_PEERS) {
                let k = choose|k: int| 0 <= k < s.len() && s[k] == q;
                assert(s.push(new_peers.last())[k] == q);
            }
        }
    }
}

/// A peer that `add_peer` added is listed afterwards.
pub proof fn law_added_peer_is_listed(peers: Seq<Peer>, peer: Peer)
    ensures
        spec_add_peer(peers, peer).1 ==> spec_add_peer(peers, peer).0.contains(peer),
        spec_add_peer(peers, peer).1 <==> spec_add_peer(peers, peer).0 != peers,
{
    if spec_add_peer(peers, peer).1 {
        assert(peers.push(peer)[peers.len() as int] == peer);
        assert(peers.push(peer).len() != peers.len());
    }
}

proof fn lemma_without_peer(peers: Seq<Peer>, peer: Peer)
    ensures
        !without_peer(peers, peer).contains(peer),
        forall|q: Peer| q != peer ==> (without_peer(peers, peer).contains(q) <==> peers.contains(q)),
        !peers.contains(peer) ==> without_peer(peers, peer) == peers,
    decreases peers.len(),
{
    if peers.len() > 0 {
        let rest = peers.drop_last();
        lemma_without_peer(rest, peer);
        let w = without_peer(rest, peer);
        assert(peers =~= rest.push(peers.last()));
        assert forall|q: Peer| q != peer implies (without_peer(peers, peer).contains(q) <==> peers.contains(q)) by {
            if peers.contains(q) && !rest.contains(q) {
                assert(peers.last() == q) by {
                    let k = choose|k: int| 0 <= k < peers.len() && peers[k] == q;
                    if k < rest.len() {
                        assert(rest[k] == q);
                    }
                }
                assert(w.push(q)[w.len() as int] == q);
            }
            if rest.contains(q) {
                let k = choose|k: int| 0 <= k < rest.len() && rest[k] == q;
                assert(peers[k] == q);
            }
            if without_peer(peers, peer).contains(q) && peers.last() != peer {
                let k = choose|k: int| 0 <= k < w.push(peers.last()).len() && w.push(peers.last())[k] == q;
                if k == w.len() {
                    assert(peers[peers.len() - 1] == q);
                } else {
                    assert(w[k] == q);
                }
            }
            if w.contains(q) && peers.last() != peer {
                let k = choose|k: int| 0 <= k < w.len() && w[k] == q;
                assert(w.push(peers.last())[k] == q);
            }
        }
        if peers.last() != peer {
            assert forall|k: int| 0 <= k < w.push(peers.last()).len() implies w.push(peers.last())[k] != peer by {
                if k < w.len() {
                    if w[k] == peer {
                        assert(w.contains(peer));
                    }
                }
            }
        }
        if !peers.contains(peer) {
            assert(!rest.contains(peer)) by {
                if rest.contains(peer) {
                    let k = choose|k: int| 0 <= k < rest.len() && rest[k] == peer;
                    assert(peers[k] == peer);
                }
            }
            assert(peers[peers.len() - 1] != peer);
        }
    }
}

proof fn lemma_without_peer_keeps(peers: Seq<Peer>, peer: Peer)
    requires
        peers_distinct(peers),
    ensures
        peers_distinct(without_peer(peers, peer)),
        without_peer(peers, peer).len() <= peers.len(),
    decreases peers.len(),
{
    if peers.len() > 0 {
        let rest = peers.drop_last();
        let l = peers.last();
        assert(peers_distinct(rest));
        lemma_without_peer_keeps(rest, peer);
        let w = without_peer(rest, peer);
        if l != peer {
            lemma_without_peer(rest, peer);
            assert(!rest.contains(l)) by {
                if rest.contains(l) {
                    let k = choose|k: int| 0 <= k < rest.len() && rest[k] == l;
                    assert(peers[k] == peers[peers.len() - 1]);
                }
            }
            assert(!w.contains(l));
            let r = w.push(l);
            assert forall|i: int, j: int| 0 <= i < j < r.len() implies r[i] != r[j] by {
                if j == w.len() {
                    assert(r[i] == w[i]);
                    assert(w.contains(w[i]));
                }
            }
        }
    }
}

/// Removing peers never lists a peer twice and never lengthens the list.
pub proof fn law_remove_peers_keeps_peers_distinct(peers: Seq<Peer>, gone: Seq<Peer>)
    requires
        peers_distinct(peers),
    ensures
        peers_distinct(spec_remove_peers(peers, gone).0),
        spec_remove_peers(peers, gone).0.len() <= peers.len(),
    decreases gone.len(),
{
    if gone.len() > 0 {
        law_remove_peers_keeps_peers_distinct(peers, gone.drop_last());
        let s = spec_remove_peers(peers, gone.drop_last()).0;
        lemma_without_peer_keeps(s, gone.last());
    }
}

/// Adding one peer never lists a peer twice and never makes the list longer
/// than one more than `MAX_PEERS`.
pub proof fn law_add_peer_keeps_peers_distinct_and_bounded(peers: Seq<Peer>, peer: Peer)
    requires
        peers_distinct(peers),
        peers.len() <= MAX_PEERS + 1,
    ensures
        peers_distinct(spec_add_peer(peers, peer).0),
        spec_add_peer(peers, peer).0.len() <= MAX_PEERS + 1,
{
    lemma_add_peer_keeps(peers, peer);
}

/// Removing a peer leaves it unlisted and keeps every other peer as it was.
pub proof fn law_removed_peer_is_gone(peers: Seq<Peer>, peer: Peer)
    ensures
        !spec_remove_peer(peers, peer).0.contains(peer),
        forall|q: Peer|
            q != peer ==> (spec_remove_peer(peers, peer).0.contains(q) <==> peers.contains(q)),
{
    lemma_without_peer(peers, peer);
}

/// Removing a peer that was just added gives back the peers as they were.
pub proof fn law_remove_undoes_add(peers: Seq<Peer>, peer: Peer)
    requires
        spec_add_peer(peers, peer).1,
    ensures
        spec_remove_peer(spec_add_peer(peers, peer).0, peer) == (peers, true),
{
    lemma_without_peer(peers, peer);
    let added = peers.push(peer);
    assert(added[peers.len() as int] == peer);
    assert(added.drop_last() =~= peers);
}

/// A payment that a node builds for `chain` with `spec_payment_plan`, leaving
/// out the outputs its pool already spends, is taken by that pool, once it
/// carries a signature that verifies under its sender: sender and recipient
/// usable keys, a positive amount, and ids that have not run out. This is
/// what `Chain::generate_transaction` builds and signs.
pub proof fn law_planned_payment_is_accepted(
    chain: Seq<BlockV>,
    pool: Seq<TransactionV>,
    t: TransactionV,
)
    requires
        spec_chain_unspent(chain).1 < u64::MAX,
        spec_is_valid_public_key(t.sender.der@),
        spec_signature_ok(t),
        t.out.len() == 2,
        spec_is_valid_public_key(t.out[0].address.der@),
        t.out[0].amount > 0,
        t.out[0].amount + t.fee <= u64::MAX,
        spec_payment_plan(chain, t.sender, t.out[0].address, t.out[0].amount, pool, t.fee) == Some(
            (t.out, t.tx_in),
        ),
    ensures
        spec_pool_accepts(chain, pool, t),
{
    lemma_payment_plan_inputs(chain, t.sender, t.out[0].address, t.out[0].amount, pool, t.fee);
    assert(t.out[1].address == t.sender);
    assert(all_outs_valid(t.out)) by {
        assert forall|i: int| 0 <= i < t.out.len() implies spec_is_valid_public_key(
            #[trigger] t.out[i].address.der@,
        ) by {
            if i == 1 {
            }
        }
    }
}

/// No output is spent twice among a node's pending transactions: when the
/// ids the pool spends are all distinct, they stay distinct after the pool
/// is offered a transaction, as long as ids have not run out.
pub proof fn law_pool_spends_each_output_once(chain: Seq<BlockV>, pool: Seq<TransactionV>, t: TransactionV)
    requires
        spec_chain_unspent(chain).1 < u64::MAX,
        all_input_ids(pool).no_duplicates(),
    ensures
        all_input_ids(spec_add_transaction(chain, pool, t).0).no_duplicates(),
{
    if spec_pool_accepts(chain, pool, t) {
        let (unspent, next) = spec_chain_unspent(chain);
        law_unspent_ids_distinct(chain);
        let ids = input_ids(t.tx_in);
        lemma_selected_ids_distinct(unspent, ids, next);
        assert(pool.push(t).drop_last() =~= pool);
        let a = all_input_ids(pool);
        assert(all_input_ids(pool.push(t)) =~= a + ids);
        assert forall|i: int, j: int| 0 <= i < a.len() && 0 <= j < ids.len() implies a[i] != ids[j] by {
            if a[i] == ids[j] {
                assert(a.contains(ids[j]));
            }
        }
        vstd::seq_lib::lemma_no_dup_in_concat(a, ids);
    }
}

/// Offering the pool several transactions in turn, as a peer's list of
/// transactions is, keeps every output spent at most once in it.
pub proof fn law_pool_spends_each_output_once_after_many(
    chain: Seq<BlockV>,
    pool: Seq<TransactionV>,
    txs: Seq<TransactionV>,
)
    requires
        spec_chain_unspent(chain).1 < u64::MAX,
        all_input_ids(pool).no_duplicates(),
    ensures
        all_input_ids(spec_add_transactions(chain, pool, txs).0).no_duplicates(),
    decreases txs.len(),
{
    if txs.len() > 0 {
        law_pool_spends_each_output_once_after_many(chain, pool, txs.drop_last());
        let (p, _) = spec_add_transactions(chain, pool, txs.drop_last());
        law_pool_spends_each_output_once(chain, p, txs.last());
    }
}

/// The pool takes a transaction only when it is valid against the chain's
/// unspent outputs: a usable sender whose signature over the transaction's
/// text verifies, a positive total, usable output addresses, inputs that
/// all name unspent outputs and pay exactly the outputs plus the fee; and
/// only when none of its inputs is spent by a transaction already in the
/// pool. Then it is appended to the pool.
pub proof fn law_pool_takes_only_valid_transactions(chain: Seq<BlockV>, pool: Seq<TransactionV>, t: TransactionV)
    requires
        spec_add_transaction(chain, pool, t).1,
    ensures
        spec_add_transaction(chain, pool, t).0 == pool.push(t),
        spec_is_valid_public_key(t.sender.der@),
        spec_verifies(t.sender.der@, spec_signing_bytes(t.sender, t.out, t.tx_in), t.signature),
        sum_outs(t.out) > 0,
        forall|j: int| 0 <= j < t.out.len() ==> spec_is_valid_public_key(#[trigger] t.out[j].address.der@),
        forall|j: int| 0 <= j < t.tx_in.len() ==> (#[trigger] find_amount(spec_chain_unspent(chain).0, t.tx_in[j].unspent_id) != None::<u64>),
        input_total(t.tx_in, spec_chain_unspent(chain).0) == sum_outs(t.out) + t.fee,
        forall|i: int| 0 <= i < t.tx_in.len() ==> !all_input_ids(pool).contains(#[trigger] t.tx_in[i].unspent_id),
{
    let ids = input_ids(t.tx_in);
    assert forall|i: int| 0 <= i < t.tx_in.len() implies !all_input_ids(pool).contains(#[trigger] t.tx_in[i].unspent_id) by {
        assert(ids[i] == t.tx_in[i].unspent_id);
    }
    assert forall|j: int| 0 <= j < t.tx_in.len() implies (#[trigger] find_amount(spec_chain_unspent(chain).0, t.tx_in[j].unspent_id) != None::<u64>) by {
        assert(find_amount(spec_chain_unspent(chain).0, t.tx_in[j].unspent_id) is Some);
    }
}

/// Whether the pool after offering transactions one after another (as a
/// peer does) keeps the pool it had at the front.
pub open spec fn keeps_prefix(after: Seq<TransactionV>, before: Seq<TransactionV>) -> bool {
    after.len() >= before.len() && after.take(before.len() as int) == before
}

/// Offering the pool transactions one after another (as a peer does) keeps
/// the pool it had at the front, and every transaction it adds is valid
/// against the chain's unspent outputs, as in
/// `law_pool_takes_only_valid_transactions`.
pub proof fn law_pool_takes_only_valid_transactions_from_many(
    chain: Seq<BlockV>,
    pool: Seq<TransactionV>,
    txs: Seq<TransactionV>,
)
    ensures
        keeps_prefix(spec_add_transactions(chain, pool, txs).0, pool),
        forall|k: int|
            #![trigger spec_add_transactions(chain, pool, txs).0[k]]
            pool.len() <= k < spec_add_transactions(chain, pool, txs).0.len() ==> spec_is_valid_public_key(spec_add_transactions(chain, pool, txs).0[k].sender.der@),
        forall|k: int|
            #![trigger spec_add_transactions(chain, pool, txs).0[k]]
            pool.len() <= k < spec_add_transactions(chain, pool, txs).0.len() ==> spec_verifies(spec_add_transactions(chain, pool, txs).0[k].sender.der@, spec_signing_bytes(spec_add_transactions(chain, pool, txs).0[k].sender, spec_add_transactions(chain, pool, txs).0[k].out, spec_add_transactions(chain, pool, txs).0[k].tx_in), spec_add_transactions(chain, pool, txs).0[k].signature),
        forall|k: int|
            #![trigger spec_add_transactions(chain, pool, txs).0[k]]
            pool.len() <= k < spec_add_transactions(chain, pool, txs).0.len() ==> sum_outs(spec_add_transactions(chain, pool, txs).0[k].out) > 0,
        forall|k: int|
            #![trigger spec_add_transactions(chain, pool, txs).0[k]]
            pool.len() <= k < spec_add_transactions(chain, pool, txs).0.len() ==> forall|j: int| 0 <= j < spec_add_transactions(chain, pool, txs).0[k].out.len() ==> spec_is_valid_public_key(#[trigger] spec_add_transactions(chain, pool, txs).0[k].out[j].address.der@),
        forall|k: int|
            #![trigger spec_add_transactions(chain, pool, txs).0[k]]
            pool.len() <= k < spec_add_transactions(chain, pool, txs).0.len() ==> forall|j: int| 0 <= j < spec_add_transactions(chain, pool, txs).0[k].tx_in.len() ==> (#[trigger] find_amount(spec_chain_unspent(chain).0, spec_add_transactions(chain, pool, txs).0[k].tx_in[j].unspent_id) != None::<u64>),
        forall|k: int|
            #![trigger spec_add_transactions(chain, pool, txs).0[k]]
            pool.len() <= k < spec_add_transactions(chain, pool, txs).0.len() ==> input_total(spec_add_transactions(chain, pool, txs).0[k].tx_in, spec_chain_unspent(chain).0) == sum_outs(spec_add_transactions(chain, pool, txs).0[k].out) + spec_add_transactions(chain, pool, txs).0[k].fee,
    decreases txs.len(),
{
    if txs.len() > 0 {
        law_pool_takes_only_valid_transactions_from_many(chain, pool, txs.drop_last());
        let p = spec_add_transactions(chain, pool, txs.drop_last()).0;
        let t = txs.last();
        let r = spec_add_transactions(chain, pool, txs).0;
        if spec_add_transaction(chain, p, t).1 {
            law_pool_takes_only_valid_transactions(chain, p, t);
            assert(r == p.push(t));
            assert(r.take(pool.len() as int) =~= p.take(pool.len() as int));
            assert forall|k: int| #![trigger r[k]] pool.len() <= k < r.len() implies ((spec_is_valid_public_key(r[k].sender.der@)) && (spec_verifies(r[k].sender.der@, spec_signing_bytes(r[k].sender, r[k].out, r[k].tx_in), r[k].signature)) && (sum_outs(r[k].out) > 0) && (forall|j: int| 0 <= j < r[k].out.len() ==> spec_is_valid_public_key(#[trigger] r[k].out[j].address.der@)) && (forall|j: int| 0 <= j < r[k].tx_in.len() ==> (#[trigger] find_amount(spec_chain_unspent(chain).0, r[k].tx_in[j].unspent_id) != None::<u64>)) && (input_total(r[k].tx_in, spec_chain_unspent(chain).0) == sum_outs(r[k].out) + r[k].fee)) by {
                if k < p.len() {
                    assert(r[k] == p[k]);
                }
            }
        }
    } else {
        assert(pool.take(pool.len() as int) =~= pool);
    }
}

/// Conversely, the pool takes a transaction, appending it, when it is
/// valid against the chain's unspent outputs, each of its inputs selects
/// one unspent output, and none of its inputs is spent by a transaction
/// already in the pool.
pub proof fn law_pool_takes_valid_transactions(chain: Seq<BlockV>, pool: Seq<TransactionV>, t: TransactionV)
    requires
        spec_transaction_valid(t, spec_chain_unspent(chain).0),
        select_by_ids(spec_chain_unspent(chain).0, input_ids(t.tx_in)).len() == t.tx_in.len(),
        forall|i: int| 0 <= i < t.tx_in.len() ==> !all_input_ids(pool).contains(#[trigger] t.tx_in[i].unspent_id),
    ensures
        spec_add_transaction(chain, pool, t) == (pool.push(t), true),
{
    let ids = input_ids(t.tx_in);
    assert(!(exists|i: int| 0 <= i < ids.len() && all_input_ids(pool).contains(#[trigger] ids[i]))) by {
        assert forall|i: int| 0 <= i < ids.len() implies !all_input_ids(pool).contains(#[trigger] ids[i]) by {
            assert(ids[i] == t.tx_in[i].unspent_id);
        }
    }
}

} // verus!
