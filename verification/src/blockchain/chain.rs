use vstd::prelude::*;

use crate::beacon::{is_valid_beacon, key_view, spec_beacons_agree, Beacon, BeaconCache, BeaconKey, InMemoryBeaconCache};
use crate::blockchain::address::{addresses_equal, same_address, Address};
use crate::blockchain::block::{
    all_after_first_valid, block_data_bytes, blocks_view, genesis_block, lemma_genesis_hash, solve_block_vdf,
    spec_block_hash, spec_block_signature_ok, spec_block_unspent, spec_block_valid,
    spec_block_vdf_ok, spec_data_bytes, spec_genesis_hash, spec_is_genesis, spec_signing_bytes_of,
    Block, BlockData, BlockV,
};
use crate::blockchain::coinbase::{coinbase_transaction, spec_coinbase_amount, spec_is_coinbase};
use crate::blockchain::transaction::{
    all_outs_valid, create_transaction_signature, keep_unspent, retain_unspent, spec_signature_ok, spec_signing_bytes,
    spec_transaction_valid, txs_view,
    Transaction, TransactionIn, TransactionOut, TransactionV, UnspentTransaction,
};
use crate::blockchain::utxo::{
    all_input_ids, flex_unspent_transactions, get_transaction_out, lemma_sum_unspent_nonneg,
    lemma_sum_unspent_take_step, saturate, spec_flex_unspent, spec_transaction_out, sum_unspent,
    transactions_to_unspent_ids,
};
use crate::util::hash::{hashes_equal, Hashed};
use crate::state::{law_planned_payment_is_accepted, spec_pool_accepts};
use crate::blockchain::ids::{law_payment_plan_exists_when_funded, law_payment_spends_only_senders_outputs};
use crate::util::key::{
    spec_is_valid_public_key, spec_public_key_of, spec_signature_by, spec_signing_key_ok, spec_verifies, KeyError, SK,
};
use crate::util::vdf::{spec_vdf_verifies, VDF_DIFFICULTY};

verus! {

/// How many of the latest blocks a node checks the beacons of before it
/// takes a peer's longer chain.
pub const CHECKPOINT_DEPTH: usize = 10;

/// A chain of blocks, the genesis block first.
#[derive(Debug, PartialEq, Eq)]
pub struct Chain {
    pub blocks: Vec<Block>,
}

impl View for Chain {
    type V = Seq<BlockV>;

    open spec fn view(&self) -> Seq<BlockV> {
        blocks_view(self.blocks@)
    }
}

/// Copies of blocks.
pub fn clone_blocks(blocks: &[Block]) -> (res: Vec<Block>)
    ensures
        blocks_view(res@) == blocks_view(blocks@),
{
    let mut res: Vec<Block> = Vec::new();
    let mut i: usize = 0;
    while i < blocks.len()
        invariant
            i <= blocks@.len(),
            res@.len() == i,
            forall|j: int| 0 <= j < i ==> (#[trigger] res@[j])@ == blocks@[j]@,
        decreases blocks@.len() - i,
    {
        res.push(blocks[i].clone());
        i = i + 1;
    }
    assert(blocks_view(res@) =~= blocks_view(blocks@));
    res
}

impl Clone for Chain {
    fn clone(&self) -> (res: Self)
        ensures
            res@ == self@,
    {
        Chain { blocks: clone_blocks(self.blocks.as_slice()) }
    }
}

/// The unspent outputs after a sequence of blocks.
pub open spec fn blocks_unspent(blocks: Seq<BlockV>, previous: Seq<UnspentTransaction>, first_id: u64) -> (Seq<
    UnspentTransaction,
>, u64)
    decreases blocks.len(),
{
    if blocks.len() == 0 {
        (previous, first_id)
    } else {
        let (s, id) = blocks_unspent(blocks.drop_last(), previous, first_id);
        spec_block_unspent(blocks.last(), s, id)
    }
}

/// The unspent outputs of a chain and the next fresh id: every block in
/// turn, starting from nothing with id 1.
pub open spec fn spec_chain_unspent(blocks: Seq<BlockV>) -> (Seq<UnspentTransaction>, u64) {
    blocks_unspent(blocks, Seq::empty(), 1)
}

/// The index of a chain's latest block (the genesis block's for an empty
/// chain).
pub open spec fn latest_index(blocks: Seq<BlockV>) -> u64 {
    if blocks.len() > 0 {
        blocks.last().index
    } else {
        0
    }
}

/// The time of a chain's latest block.
pub open spec fn latest_timestamp(blocks: Seq<BlockV>) -> i64 {
    if blocks.len() > 0 {
        blocks.last().timestamp
    } else {
        0
    }
}

/// The hash of a chain's latest block.
pub open spec fn latest_hash(blocks: Seq<BlockV>) -> Seq<u8> {
    if blocks.len() > 0 {
        blocks.last().hash
    } else {
        spec_genesis_hash()
    }
}

/// Whether `block` may follow a block with the given index, time and hash:
/// the next index, a later time, the right previous hash, the hash of its
/// own contents, and the block rules.
pub open spec fn spec_valid_after(
    block: BlockV,
    previous_index: u64,
    previous_timestamp: i64,
    previous_hash: Seq<u8>,
    unspent: Seq<UnspentTransaction>,
) -> bool {
    &&& block.index == previous_index + 1
    &&& block.timestamp > previous_timestamp
    &&& block.previous_hash == previous_hash
    &&& spec_block_hash(block) == block.hash
    &&& spec_block_valid(block, unspent)
}

/// Whether `block` may follow `previous`.
pub open spec fn spec_is_valid_new_block(
    block: BlockV,
    previous: BlockV,
    unspent: Seq<UnspentTransaction>,
) -> bool {
    spec_valid_after(block, previous.index, previous.timestamp, previous.hash, unspent)
}

/// Whether a chain is valid: it starts with the genesis block, and each
/// later block `blocks[i]` passes the check of a new block after the block
/// before it, `blocks[i - 1]`, against the chain's unspent outputs: the
/// blocks form a linked hash chain.
pub open spec fn spec_chain_valid(blocks: Seq<BlockV>) -> bool {
    &&& blocks.len() > 0
    &&& spec_is_genesis(blocks[0])
    &&& forall|i: int|
        1 <= i < blocks.len() ==> spec_is_valid_new_block(
            #[trigger] blocks[i],
            blocks[i - 1],
            spec_chain_unspent(blocks).0,
        )
}

/// Whether the beacon this node read for the block after `latest_hash` at
/// the block's time is cached and agrees with the block's beacon.
pub open spec fn spec_beacon_confirmed(cache: Map<(Seq<u8>, i64), Seq<i32>>, latest_hash: Seq<u8>, block: BlockV) -> bool {
    &&& cache.contains_key((latest_hash, block.timestamp))
    &&& spec_beacons_agree(block.beacon, cache[(latest_hash, block.timestamp)])
}

/// Whether a chain takes `block` as its next block.
pub open spec fn spec_accepts_block(
    blocks: Seq<BlockV>,
    block: BlockV,
    i_generated: bool,
    generated_now: bool,
    cache: Map<(Seq<u8>, i64), Seq<i32>>,
) -> bool {
    &&& (i_generated || !generated_now || spec_beacon_confirmed(cache, latest_hash(blocks), block))
    &&& spec_valid_after(
        block,
        latest_index(blocks),
        latest_timestamp(blocks),
        latest_hash(blocks),
        spec_chain_unspent(blocks).0,
    )
}

/// The first unspent output with the given id.
pub open spec fn find_unspent(s: Seq<UnspentTransaction>, id: u64) -> Option<UnspentTransaction>
    decreases s.len(),
{
    if s.len() == 0 {
        None
    } else if s[0].id == id {
        Some(s[0])
    } else {
        find_unspent(s.skip(1), id)
    }
}

/// The unspent outputs whose id is among `ids`, in order.
pub open spec fn select_by_ids(s: Seq<UnspentTransaction>, ids: Seq<u64>) -> Seq<UnspentTransaction>
    decreases s.len(),
{
    if s.len() == 0 {
        Seq::empty()
    } else if ids.contains(s.last().id) {
        select_by_ids(s.drop_last(), ids).push(s.last())
    } else {
        select_by_ids(s.drop_last(), ids)
    }
}

/// The unspent outputs owned by an address, in order.
pub open spec fn owned_by(s: Seq<UnspentTransaction>, address: Seq<char>) -> Seq<UnspentTransaction>
    decreases s.len(),
{
    if s.len() == 0 {
        Seq::empty()
    } else if s.last().address.der@ == address {
        owned_by(s.drop_last(), address).push(s.last())
    } else {
        owned_by(s.drop_last(), address)
    }
}

/// The inputs that spend unspent outputs.
pub open spec fn inputs_spending(s: Seq<UnspentTransaction>) -> Seq<TransactionIn> {
    s.map_values(|u: UnspentTransaction| TransactionIn { unspent_id: u.id })
}

/// The outputs and inputs of a payment of `send_amount` plus `fee` from
/// `sender` to `recipient`, or `None` when the sender cannot pay: the
/// sender's balance falls short, or the sender's outputs not spent by
/// `used` fall short, or the outputs chosen are worth more than a 64-bit
/// amount. The outputs chosen are the shortest prefix of those the sender
/// owns (not spent by `used`) that pays the amount.
pub open spec fn spec_payment_plan(
    blocks: Seq<BlockV>,
    sender: Address,
    recipient: Address,
    send_amount: u64,
    used: Seq<TransactionV>,
    fee: u64,
) -> Option<(Seq<TransactionOut>, Seq<TransactionIn>)> {
    let amount = send_amount + fee;
    let unspent = spec_chain_unspent(blocks).0;
    let available = keep_unspent(unspent, all_input_ids(used));
    let chosen = spec_flex_unspent(owned_by(available, sender.der@), amount);
    let total = sum_unspent(chosen);
    if saturate(sum_unspent(owned_by(unspent, sender.der@))) < amount {
        None
    } else if chosen.len() == 0 {
        None
    } else if total > u64::MAX {
        None
    } else {
        Some(
            (
                spec_transaction_out(sender, recipient, send_amount, fee, total as u64),
                inputs_spending(chosen),
            ),
        )
    }
}

impl Chain {
    /// The chain that holds only the genesis block.
    pub fn new() -> (res: Self)
        ensures
            res@.len() == 1,
            spec_is_genesis(res@[0]),
            spec_chain_valid(res@),
    {
        let g = genesis_block();
        let res = Chain { blocks: vec![g] };
        assert(res@[0] == g@);
        res
    }

    /// The latest block (the genesis block when the chain is empty).
    pub fn get_latest_block(&self) -> (res: Block)
        ensures
            self@.len() > 0 ==> res@ == self@.last(),
            self@.len() == 0 ==> spec_is_genesis(res@),
            res@.index == latest_index(self@),
            res@.timestamp == latest_timestamp(self@),
            res@.hash == latest_hash(self@),
    {
        let n = self.blocks.len();
        if n > 0 {
            assert(self@.last() == self.blocks@[n - 1]@);
            self.blocks[n - 1].clone()
        } else {
            let g = genesis_block();
            proof {
                lemma_genesis_hash(g@);
            }
            g
        }
    }

    /// The unspent outputs of the chain and the next fresh id.
    pub fn get_unspent_transactions(&self) -> (res: (Vec<UnspentTransaction>, u64))
        ensures
            (res.0@, res.1) == spec_chain_unspent(self@),
    {
        let mut acc: (Vec<UnspentTransaction>, u64) = (Vec::new(), 1);
        let mut i: usize = 0;
        while i < self.blocks.len()
            invariant
                i <= self.blocks@.len(),
                (acc.0@, acc.1) == blocks_unspent(blocks_view(self.blocks@.take(i as int)), Seq::empty(), 1),
            decreases self.blocks@.len() - i,
        {
            assert(blocks_view(self.blocks@.take(i + 1)).drop_last() =~= blocks_view(self.blocks@.take(i as int)));
            assert(blocks_view(self.blocks@.take(i + 1)).last() == self.blocks@[i as int]@);
            acc = self.blocks[i].get_unspent_transactions(acc);
            i = i + 1;
        }
        assert(self.blocks@.take(i as int) =~= self.blocks@);
        acc
    }

    /// Whether the chain is valid: it starts with the genesis block and each
    /// pair of neighbouring blocks passes the new-block check, the earlier
    /// block in the new block's place, against the chain's unspent outputs.
    pub fn is_valid(&self) -> (res: bool)
        ensures
            res == spec_chain_valid(self@),
    {
        if self.blocks.len() == 0 {
            return false;
        }
        if !is_genesis_block(&self.blocks[0]) {
            return false;
        }
        let unspent = self.get_unspent_transactions().0;
        let n = self.blocks.len();
        let mut i: usize = 1;
        while i < n
            invariant
                n == self.blocks@.len(),
                1 <= i <= n,
                unspent@ == spec_chain_unspent(self@).0,
                forall|j: int|
                    1 <= j < i ==> spec_is_valid_new_block(
                        #[trigger] self@[j],
                        self@[j - 1],
                        spec_chain_unspent(self@).0,
                    ),
            decreases self.blocks@.len() - i,
        {
            if !is_valid_new_block(&self.blocks[i], &self.blocks[i - 1], unspent.as_slice()) {
                assert(self@[i as int] == self.blocks@[i as int]@);
                return false;
            }
            i = i + 1;
        }
        true
    }

    /// The peer's chain when it is valid and longer than this one; this
    /// chain otherwise.
    pub fn replace(&self, new_chain: Chain) -> (res: Self)
        ensures
            res@ == (if spec_chain_valid(new_chain@) && new_chain@.len() > self@.len() {
                new_chain@
            } else {
                self@
            }),
    {
        if new_chain.is_valid() && new_chain.blocks.len() > self.blocks.len() {
            Chain { blocks: new_chain.blocks }
        } else {
            self.clone()
        }
    }

    /// Appends `block` when the chain takes it: a block that another node
    /// generated just now must carry a beacon that agrees with the one this
    /// node cached for it, and every block must pass the new-block check
    /// against the latest block. Returns the chain and whether it changed.
    pub fn add_block(
        &self,
        block: Block,
        i_generated: bool,
        generated_now: bool,
        beacon_cache: &InMemoryBeaconCache,
    ) -> (res: (Self, bool))
        ensures
            res.1 == spec_accepts_block(self@, block@, i_generated, generated_now, beacon_cache@),
            res.1 ==> res.0@ == self@.push(block@),
            !res.1 ==> res.0@ == self@,
    {
        let latest = self.get_latest_block();
        if !i_generated && generated_now {
            let key = BeaconKey::new(&latest.hash, block.timestamp);
            let confirmed = match beacon_cache.get(&key) {
                Some(target) => is_valid_beacon(&block.beacon, &target),
                None => false,
            };
            if !confirmed {
                return (self.clone(), false);
            }
        }
        let unspent = self.get_unspent_transactions().0;
        if is_valid_new_block(&block, &latest, unspent.as_slice()) {
            let mut blocks = clone_blocks(self.blocks.as_slice());
            let ghost bv = block@;
            blocks.push(block);
            assert(blocks_view(blocks@) =~= self@.push(bv));
            (Chain { blocks }, true)
        } else {
            (self.clone(), false)
        }
    }

    /// The first unspent output with the given id.
    pub fn find_unspent_transaction(&self, unspent_id: u64) -> (res: Option<UnspentTransaction>)
        ensures
            res == find_unspent(spec_chain_unspent(self@).0, unspent_id),
    {
        let (unspent, _) = self.get_unspent_transactions();
        let mut i: usize = 0;
        assert(unspent@.skip(0) =~= unspent@);
        while i < unspent.len()
            invariant
                i <= unspent@.len(),
                unspent@ == spec_chain_unspent(self@).0,
                find_unspent(unspent@, unspent_id) == find_unspent(unspent@.skip(i as int), unspent_id),
            decreases unspent@.len() - i,
        {
            let ghost rest = unspent@.skip(i as int);
            if unspent[i].id == unspent_id {
                assert(rest[0] == unspent@[i as int]);
                let found = unspent[i].clone();
                assert(found == unspent@[i as int]);
                assert(rest.len() > 0);
                assert(find_unspent(rest, unspent_id) == Some(rest[0]));
                return Some(found);
            }
            assert(rest.skip(1) =~= unspent@.skip(i + 1));
            i = i + 1;
        }
        None
    }

    /// The unspent outputs whose id is among `ids`, in the chain's order.
    pub fn find_unspent_transactions(&self, ids: &Vec<u64>) -> (res: Vec<UnspentTransaction>)
        ensures
            res@ == select_by_ids(spec_chain_unspent(self@).0, ids@),
    {
        let (unspent, _) = self.get_unspent_transactions();
        let mut res: Vec<UnspentTransaction> = Vec::new();
        let mut i: usize = 0;
        while i < unspent.len()
            invariant
                i <= unspent@.len(),
                res@ == select_by_ids(unspent@.take(i as int), ids@),
            decreases unspent@.len() - i,
        {
            assert(unspent@.take(i + 1).drop_last() =~= unspent@.take(i as int));
            if crate::blockchain::transaction::contains_id(ids, unspent[i].id) {
                res.push(unspent[i].clone());
            }
            i = i + 1;
        }
        assert(unspent@.take(i as int) =~= unspent@);
        res
    }

    /// The balance of an address: the total of the unspent outputs it owns
    /// (capped at the largest 64-bit amount).
    pub fn get_balance(&self, address: &Address) -> (res: u64)
        ensures
            res == saturate(sum_unspent(owned_by(spec_chain_unspent(self@).0, address.der@))),
    {
        let (unspent, _) = self.get_unspent_transactions();
        let total = owned_total(&unspent, address);
        if total > u64::MAX as u128 {
            u64::MAX
        } else {
            total as u64
        }
    }

    /// A transaction that pays `send_amount` to `recipient` and `fee` to the
    /// block's issuer from `sender`'s unspent outputs that the transactions
    /// in `used_transactions` do not already spend, signed with
    /// `secret_key`: the shortest prefix of those outputs that pays the
    /// amount, the payment and the change as outputs. `None` when the sender
    /// cannot pay; an error when signing fails.
    pub fn generate_transaction(
        &self,
        sender: &Address,
        recipient: &Address,
        send_amount: u64,
        secret_key: &SK,
        used_transactions: &[Transaction],
        fee: u64,
    ) -> (res: Result<Option<Transaction>, KeyError>)
        requires
            send_amount + fee <= u64::MAX,
        ensures
            match spec_payment_plan(self@, *sender, *recipient, send_amount, txs_view(used_transactions@), fee) {
                None => res matches Ok(None),
                Some((out, tx_in)) => match spec_signature_by(
                    secret_key.der@,
                    spec_signing_bytes(*sender, out, tx_in),
                ) {
                    Some(signature) => res matches Ok(Some(t)) && t@ == (TransactionV {
                        sender: *sender,
                        out,
                        tx_in,
                        fee,
                        signature,
                    }),
                    None => res is Err,
                },
            },
            spec_payment_plan(self@, *sender, *recipient, send_amount, txs_view(used_transactions@), fee) is Some
                && spec_signing_key_ok(secret_key.der@) ==> res matches Ok(Some(_)),
            res matches Ok(Some(t)) ==> (spec_public_key_of(secret_key.der@) == Some(sender.der@)
                ==> spec_signature_ok(t@)),
            res matches Ok(Some(t)) ==> ({
                &&& spec_public_key_of(secret_key.der@) == Some(sender.der@)
                &&& spec_is_valid_public_key(sender.der@)
                &&& spec_is_valid_public_key(recipient.der@)
                &&& send_amount > 0
                &&& spec_chain_unspent(self@).1 < u64::MAX
            } ==> spec_pool_accepts(self@, txs_view(used_transactions@), t@)),
            send_amount + fee > 0 ==> (res matches Ok(None) <==> ({
                let available = owned_by(
                    keep_unspent(spec_chain_unspent(self@).0, all_input_ids(txs_view(used_transactions@))),
                    sender.der@,
                );
                sum_unspent(available) < send_amount + fee || sum_unspent(
                    spec_flex_unspent(available, send_amount + fee),
                ) > u64::MAX
            })),
            res matches Ok(Some(t)) ==> spec_chain_unspent(self@).1 < u64::MAX ==> forall|k: int|
                #![trigger t.tx_in@[k]]
                0 <= k < t.tx_in@.len() ==> exists|j: int|
                    #![trigger spec_chain_unspent(self@).0[j]]
                    0 <= j < spec_chain_unspent(self@).0.len() && spec_chain_unspent(self@).0[j].id
                        == t.tx_in@[k].unspent_id && same_address(spec_chain_unspent(self@).0[j].address, *sender)
                        && !all_input_ids(txs_view(used_transactions@)).contains(spec_chain_unspent(self@).0[j].id),
    {
        proof {
            if send_amount + fee > 0 {
                law_payment_plan_exists_when_funded(
                    self@,
                    *sender,
                    *recipient,
                    send_amount,
                    txs_view(used_transactions@),
                    fee,
                );
            }
        }
        let amount = send_amount + fee;
        if self.get_balance(sender) < amount {
            return Ok(None);
        }
        let (unspent, _) = self.get_unspent_transactions();
        let used_unspent_ids = transactions_to_unspent_ids(used_transactions);
        let available = retain_unspent(&unspent, &used_unspent_ids);
        let sender_unspent = owned_unspent(&available, sender);
        let use_unspent = flex_unspent_transactions(amount, sender_unspent);
        if use_unspent.len() == 0 {
            return Ok(None);
        }
        let total = total_unspent(&use_unspent);
        if total > u64::MAX as u128 {
            return Ok(None);
        }
        proof {
            crate::blockchain::utxo::law_flex_picks_shortest_prefix(
                owned_by(keep_unspent(spec_chain_unspent(self@).0, used_unspent_ids@), sender.der@),
                amount as int,
            );
        }
        let out = get_transaction_out(sender, recipient, send_amount, fee, total as u64);
        let tx_in = inputs_for(&use_unspent);
        let signature = create_transaction_signature(sender, out.as_slice(), tx_in.as_slice(), secret_key)?;
        let t = Transaction::new(sender.clone(), out, tx_in, fee, signature);
        proof {
            if spec_public_key_of(secret_key.der@) == Some(sender.der@) && spec_is_valid_public_key(sender.der@)
                && spec_is_valid_public_key(recipient.der@) && send_amount > 0
                && spec_chain_unspent(self@).1 < u64::MAX {
                law_planned_payment_is_accepted(self@, txs_view(used_transactions@), t@);
            }
            if spec_chain_unspent(self@).1 < u64::MAX {
                law_payment_spends_only_senders_outputs(
                    self@,
                    *sender,
                    *recipient,
                    send_amount,
                    txs_view(used_transactions@),
                    fee,
                );
            }
        }
        Ok(Some(t))
    }

    /// The next block after the latest one, issued and signed by the holder
    /// of `sk` at `next_timestamp`: the coinbase paying `issuer` first, then
    /// `transactions_without_coinbase`, the beacon, and the VDF solution
    /// over the block's data. An error when signing fails.
    pub fn generate_next_block(
        &self,
        sk: &SK,
        issuer: &Address,
        beacon: Beacon,
        transactions_without_coinbase: Vec<Transaction>,
        next_timestamp: i64,
    ) -> (res: Result<Block, KeyError>)
        ensures
            res matches Ok(b) ==> spec_next_block(
                self@,
                sk.der@,
                *issuer,
                beacon@,
                txs_view(transactions_without_coinbase@),
                next_timestamp,
                b@,
            ),
            res is Err ==> spec_next_block_unsignable(
                self@,
                sk.der@,
                *issuer,
                beacon@,
                txs_view(transactions_without_coinbase@),
                next_timestamp,
            ),
    {
        let previous_block = self.get_latest_block();
        let next_index: u64 = if previous_block.index < u64::MAX {
            previous_block.index + 1
        } else {
            previous_block.index
        };
        let coinbase = coinbase_transaction(issuer, next_index);
        let ghost cb = coinbase@;
        assert(cb == coinbase_view(cb.sender, *issuer, next_index));
        let transactions = with_first(coinbase, &transactions_without_coinbase);
        let vdf_solution = match solve_block_vdf(
            &BlockData::new(next_index, next_timestamp, transactions.as_slice(), &beacon, issuer, previous_block.hash),
        ) {
            Ok(s) => s,
            Err(_) => Vec::new(),
        };
        let res = Block::new_with_creating_signature(
            next_index,
            next_timestamp,
            transactions,
            beacon,
            vdf_solution,
            issuer,
            previous_block.hash,
            sk,
        );
        proof {
            if res is Ok {
                let b = res->Ok_0@;
                assert(b.transactions.skip(1) =~= txs_view(transactions_without_coinbase@));
                assert(b.transactions[0] == cb);
            } else {
                assert(spec_signature_by(
                    sk.der@,
                    next_block_signing_bytes(self@, cb.sender, issuer, beacon@, txs_view(transactions_without_coinbase@), next_timestamp),
                ) is None);
            }
        }
        res
    }
}

/// What the block generated after `blocks` by the holder of the secret key
/// text `sk_der` is: the next index, the given time, a coinbase paying
/// `issuer` the block reward followed by `transactions`, the beacon, the
/// latest block's hash, the VDF solution of the block's data, the signature
/// of the holder, and the hash of it all; its signature verifies when
/// `issuer` is the key's public key.
pub open spec fn spec_next_block(
    blocks: Seq<BlockV>,
    sk_der: Seq<char>,
    issuer: Address,
    beacon: Seq<i32>,
    transactions: Seq<TransactionV>,
    next_timestamp: i64,
    b: BlockV,
) -> bool {
    &&& b.index == crate::blockchain::utxo::next_id(latest_index(blocks))
    &&& b.timestamp == next_timestamp
    &&& b.transactions.len() == transactions.len() + 1
    &&& b.transactions[0].sender.der@.len() == 0
    &&& b.transactions[0] == coinbase_view(b.transactions[0].sender, issuer, b.index)
    &&& b.transactions.skip(1) == transactions
    &&& b.beacon == beacon
    &&& b.previous_hash == latest_hash(blocks)
    &&& b.issuer == issuer
    &&& spec_block_vdf_ok(b)
    &&& b.vdf_solution == crate::util::vdf::spec_vdf_solution(block_data_bytes(b), crate::util::vdf::VDF_DIFFICULTY)
    &&& spec_signature_by(sk_der, spec_signing_bytes_of(block_data_bytes(b), b.vdf_solution)) == Some(b.signature)
    &&& b.hash == spec_block_hash(b)
    &&& (spec_public_key_of(sk_der) == Some(issuer.der@) ==> spec_block_signature_ok(b))
}

/// What a node mines on its chain, its chain takes: a block generated with
/// the issuer's own key, at a time later than the latest block's, before
/// indices run out, carrying transactions that are valid against the
/// chain's unspent outputs, passes every check of a new block (the node's
/// own blocks need no beacon check).
pub proof fn law_generated_block_is_accepted(
    blocks: Seq<BlockV>,
    sk_der: Seq<char>,
    issuer: Address,
    beacon: Seq<i32>,
    transactions: Seq<TransactionV>,
    next_timestamp: i64,
    b: BlockV,
    cache: Map<(Seq<u8>, i64), Seq<i32>>,
)
    requires
        spec_next_block(blocks, sk_der, issuer, beacon, transactions, next_timestamp, b),
        spec_public_key_of(sk_der) == Some(issuer.der@),
        spec_is_valid_public_key(issuer.der@),
        next_timestamp > latest_timestamp(blocks),
        latest_index(blocks) < u64::MAX,
        forall|i: int|
            0 <= i < transactions.len() ==> spec_transaction_valid(
                #[trigger] transactions[i],
                spec_chain_unspent(blocks).0,
            ),
    ensures
        spec_accepts_block(blocks, b, true, true, cache),
{
    let cb = b.transactions[0];
    assert(spec_is_coinbase(cb, b.index)) by {
        assert(cb.out[0].address == issuer);
        assert(all_outs_valid(cb.out)) by {
            assert forall|i: int| 0 <= i < cb.out.len() implies spec_is_valid_public_key(
                #[trigger] cb.out[i].address.der@,
            ) by {
                assert(i == 0);
            }
        }
    }
    assert(all_after_first_valid(b.transactions, spec_chain_unspent(blocks).0)) by {
        assert forall|i: int| 1 <= i < b.transactions.len() implies spec_transaction_valid(
            #[trigger] b.transactions[i],
            spec_chain_unspent(blocks).0,
        ) by {
            assert(b.transactions[i] == b.transactions.skip(1)[i - 1]);
            assert(transactions[i - 1] == b.transactions.skip(1)[i - 1]);
        }
    }
}

/// Whether the holder of `sk_der` cannot sign the block that follows
/// `blocks`.
pub open spec fn spec_next_block_unsignable(
    blocks: Seq<BlockV>,
    sk_der: Seq<char>,
    issuer: Address,
    beacon: Seq<i32>,
    transactions: Seq<TransactionV>,
    next_timestamp: i64,
) -> bool {
    exists|cb_sender: Address|
        cb_sender.der@.len() == 0 && #[trigger] spec_signature_by(
            sk_der,
            next_block_signing_bytes(blocks, cb_sender, &issuer, beacon, transactions, next_timestamp),
        ) is None
}

/// The bytes the signature of the block generated after `blocks` covers,
/// with a coinbase sent by `cb_sender`.
pub open spec fn next_block_signing_bytes(
    blocks: Seq<BlockV>,
    cb_sender: Address,
    issuer: &Address,
    beacon: Seq<i32>,
    transactions: Seq<TransactionV>,
    next_timestamp: i64,
) -> Seq<u8> {
    let index = crate::blockchain::utxo::next_id(latest_index(blocks));
    let data = spec_data_bytes(
        index,
        next_timestamp,
        seq![coinbase_view(cb_sender, *issuer, index)] + transactions,
        beacon,
        issuer.der@,
        latest_hash(blocks),
    );
    spec_signing_bytes_of(data, crate::util::vdf::spec_vdf_solution(data, crate::util::vdf::VDF_DIFFICULTY))
}

/// `first` followed by copies of `rest`.
fn with_first(first: Transaction, rest: &Vec<Transaction>) -> (res: Vec<Transaction>)
    ensures
        txs_view(res@) == seq![first@] + txs_view(rest@),
{
    let ghost f = first@;
    let mut transactions: Vec<Transaction> = Vec::new();
    transactions.push(first);
    let mut i: usize = 0;
    while i < rest.len()
        invariant
            i <= rest@.len(),
            transactions@.len() == i + 1,
            transactions@[0]@ == f,
            forall|j: int| 0 <= j < i ==> (#[trigger] transactions@[j + 1])@ == rest@[j]@,
        decreases rest@.len() - i,
    {
        transactions.push(rest[i].clone());
        i = i + 1;
    }
    assert forall|k: int| 0 <= k < transactions@.len() implies txs_view(transactions@)[k] == (seq![f]
        + txs_view(rest@))[k] by {
        if k > 0 {
            assert(transactions@[(k - 1) + 1]@ == rest@[k - 1]@);
        }
    }
    assert(txs_view(transactions@) =~= seq![f] + txs_view(rest@));
    transactions
}

/// The value of the coinbase transaction from `sender` paying `address` at
/// `height`.
pub open spec fn coinbase_view(sender: Address, address: Address, height: u64) -> TransactionV {
    TransactionV {
        sender,
        out: seq![TransactionOut { address, amount: spec_coinbase_amount(height) }],
        tx_in: Seq::empty(),
        fee: 0,
        signature: Seq::empty(),
    }
}

/// Whether a block is the genesis block.
fn is_genesis_block(block: &Block) -> (res: bool)
    ensures
        res == spec_is_genesis(block@),
{
    let g = genesis_block();
    proof {
        lemma_genesis_hash(g@);
    }
    let zero: Hashed = [0u8; 32];
    assert(zero@ =~= Seq::new(32, |i: int| 0u8));
    let res = block.index == 0 && block.timestamp == 0 && block.transactions.len() == 0
        && block.beacon.values.len() == 0 && block.vdf_solution.len() == 0
        && hashes_equal(&block.previous_hash, &zero) && block.issuer.der.as_str().is_empty()
        && block.signature.len() == 0 && hashes_equal(&block.hash, &g.hash);
    proof {
        if spec_is_genesis(block@) {
            lemma_genesis_hash(block@);
        }
        if res {
            let b = block@;
            assert(b.transactions =~= Seq::<TransactionV>::empty());
            assert(b.beacon =~= Seq::<i32>::empty());
            assert(b.vdf_solution =~= Seq::<u8>::empty());
            assert(b.signature =~= Seq::<u8>::empty());
            assert(b.issuer.der@ =~= Seq::<char>::empty());
            assert(spec_block_hash(b) == spec_genesis_hash());
        }
    }
    res
}

/// Whether `block` may follow `previous_block`: the next index, a later
/// time, the right previous hash, the hash of its own contents, and the
/// block rules against the unspent outputs.
pub fn is_valid_new_block(
    block: &Block,
    previous_block: &Block,
    unspent_transactions: &[UnspentTransaction],
) -> (res: bool)
    ensures
        res == spec_is_valid_new_block(block@, previous_block@, unspent_transactions@),
{
    if previous_block.index == u64::MAX || block.index != previous_block.index + 1 {
        return false;
    }
    if block.timestamp <= previous_block.timestamp {
        return false;
    }
    if !hashes_equal(&block.previous_hash, &previous_block.hash) {
        return false;
    }
    let h = block.calculate_hash();
    hashes_equal(&h, &block.hash) && block.is_valid(unspent_transactions)
}

/// The unspent outputs owned by an address, in order.
fn owned_unspent(s: &Vec<UnspentTransaction>, address: &Address) -> (res: Vec<UnspentTransaction>)
    ensures
        res@ == owned_by(s@, address.der@),
{
    let mut res: Vec<UnspentTransaction> = Vec::new();
    let mut i: usize = 0;
    while i < s.len()
        invariant
            i <= s@.len(),
            res@ == owned_by(s@.take(i as int), address.der@),
        decreases s@.len() - i,
    {
        assert(s@.take(i + 1).drop_last() =~= s@.take(i as int));
        if addresses_equal(&s[i].address, address) {
            res.push(s[i].clone());
        }
        i = i + 1;
    }
    assert(s@.take(i as int) =~= s@);
    res
}

/// The exact total of unspent outputs.
fn total_unspent(s: &Vec<UnspentTransaction>) -> (res: u128)
    ensures
        res == sum_unspent(s@),
{
    let mut total: u128 = 0;
    let mut i: usize = 0;
    while i < s.len()
        invariant
            i <= s@.len(),
            total == sum_unspent(s@.take(i as int)),
        decreases s@.len() - i,
    {
        proof {
            lemma_sum_unspent_take_step(s@, i as int);
            lemma_sum_unspent_nonneg(s@.take(i + 1));
            assert((i + 1) * (u64::MAX as int) < u128::MAX) by (nonlinear_arith)
                requires
                    i < usize::MAX,
            ;
        }
        total = total + s[i].amount as u128;
        i = i + 1;
    }
    assert(s@.take(i as int) =~= s@);
    total
}

/// The exact total of the unspent outputs an address owns.
fn owned_total(s: &Vec<UnspentTransaction>, address: &Address) -> (res: u128)
    ensures
        res == sum_unspent(owned_by(s@, address.der@)),
{
    let owned = owned_unspent(s, address);
    total_unspent(&owned)
}

/// The inputs that spend the given unspent outputs.
fn inputs_for(s: &Vec<UnspentTransaction>) -> (res: Vec<TransactionIn>)
    ensures
        res@ == inputs_spending(s@),
{
    let mut res: Vec<TransactionIn> = Vec::new();
    let mut i: usize = 0;
    while i < s.len()
        invariant
            i <= s@.len(),
            res@ == inputs_spending(s@.take(i as int)),
        decreases s@.len() - i,
    {
        res.push(s[i].to_txin());
        i = i + 1;
        assert(res@ =~= inputs_spending(s@.take(i as int)));
    }
    assert(s@.take(i as int) =~= s@);
    res
}

/// A block that passes the check of a new block after `previous` follows
/// it: its index is the next one, its time is later, its previous hash is
/// the hash of `previous`, it carries the hash of its own contents, and it
/// meets the block rules: it has transactions, its issuer is a usable key
/// whose signature over the block's text verifies, its VDF solution
/// verifies over that text, its first transaction is the coinbase for its
/// height and the others are valid against `unspent`.
pub proof fn law_new_block_follows_previous(block: BlockV, previous: BlockV, unspent: Seq<UnspentTransaction>)
    requires
        spec_is_valid_new_block(block, previous, unspent),
    ensures
        block.index == previous.index + 1,
        block.timestamp > previous.timestamp,
        block.previous_hash == previous.hash,
        block.hash == spec_block_hash(block),
        block.transactions.len() > 0,
        spec_is_valid_public_key(block.issuer.der@),
        spec_verifies(
            block.issuer.der@,
            spec_signing_bytes_of(block_data_bytes(block), block.vdf_solution),
            block.signature,
        ),
        spec_vdf_verifies(block_data_bytes(block), VDF_DIFFICULTY, block.vdf_solution),
        spec_is_coinbase(block.transactions[0], block.index),
        forall|k: int| 1 <= k < block.transactions.len() ==> spec_transaction_valid(#[trigger] block.transactions[k], unspent),
{
}

/// A valid chain starts with the genesis block, and every later block
/// follows the block before it (see `law_new_block_follows_previous`)
/// against the chain's unspent outputs: next index, later time, previous
/// hash equal to the hash of the block before, own hash, and the block
/// rules. So `replace` takes only chains each of whose blocks passes that
/// check.
pub proof fn law_valid_chain_links_every_block(blocks: Seq<BlockV>)
    requires
        spec_chain_valid(blocks),
    ensures
        blocks.len() > 0,
        spec_is_genesis(blocks[0]),
        forall|i: int|
            #![trigger blocks[i]]
            1 <= i < blocks.len() ==> {
                &&& blocks[i].index == blocks[i - 1].index + 1
                &&& blocks[i].timestamp > blocks[i - 1].timestamp
                &&& blocks[i].previous_hash == blocks[i - 1].hash
                &&& blocks[i].hash == spec_block_hash(blocks[i])
                &&& blocks[i].transactions.len() > 0
                &&& spec_is_valid_public_key(blocks[i].issuer.der@)
                &&& spec_verifies(
                    blocks[i].issuer.der@,
                    spec_signing_bytes_of(block_data_bytes(blocks[i]), blocks[i].vdf_solution),
                    blocks[i].signature,
                )
                &&& spec_vdf_verifies(block_data_bytes(blocks[i]), VDF_DIFFICULTY, blocks[i].vdf_solution)
                &&& spec_is_coinbase(blocks[i].transactions[0], blocks[i].index)
                &&& forall|k: int|
                    1 <= k < blocks[i].transactions.len() ==> spec_transaction_valid(
                        #[trigger] blocks[i].transactions[k],
                        spec_chain_unspent(blocks).0,
                    )
            },
{
    assert forall|i: int| #![trigger blocks[i]] 1 <= i < blocks.len() implies {
        &&& blocks[i].index == blocks[i - 1].index + 1
        &&& blocks[i].timestamp > blocks[i - 1].timestamp
        &&& blocks[i].previous_hash == blocks[i - 1].hash
        &&& blocks[i].hash == spec_block_hash(blocks[i])
        &&& blocks[i].transactions.len() > 0
        &&& spec_is_valid_public_key(blocks[i].issuer.der@)
        &&& spec_verifies(
            blocks[i].issuer.der@,
            spec_signing_bytes_of(block_data_bytes(blocks[i]), blocks[i].vdf_solution),
            blocks[i].signature,
        )
        &&& spec_vdf_verifies(block_data_bytes(blocks[i]), VDF_DIFFICULTY, blocks[i].vdf_solution)
        &&& spec_is_coinbase(blocks[i].transactions[0], blocks[i].index)
        &&& forall|k: int|
            1 <= k < blocks[i].transactions.len() ==> spec_transaction_valid(
                #[trigger] blocks[i].transactions[k],
                spec_chain_unspent(blocks).0,
            )
    } by {
        law_new_block_follows_previous(blocks[i], blocks[i - 1], spec_chain_unspent(blocks).0);
    }
}

/// A block that a chain takes as its next block links to the chain's latest
/// block (the next index, a later time, the latest hash as its previous
/// hash), carries the hash of its own contents and meets the block rules
/// against the chain's unspent outputs; and when it is another node's block
/// just made (`!i_generated && generated_now`), the beacon this node read
/// for it, under the latest hash and the block's time, is cached and every
/// temperature both have differs by at most five tenths.
pub proof fn law_accepted_block_links_to_latest(
    blocks: Seq<BlockV>,
    block: BlockV,
    i_generated: bool,
    generated_now: bool,
    cache: Map<(Seq<u8>, i64), Seq<i32>>,
)
    requires
        spec_accepts_block(blocks, block, i_generated, generated_now, cache),
    ensures
        block.index == latest_index(blocks) + 1,
        block.timestamp > latest_timestamp(blocks),
        block.previous_hash == latest_hash(blocks),
        block.hash == spec_block_hash(block),
        block.transactions.len() > 0,
        spec_is_valid_public_key(block.issuer.der@),
        spec_verifies(
            block.issuer.der@,
            spec_signing_bytes_of(block_data_bytes(block), block.vdf_solution),
            block.signature,
        ),
        spec_vdf_verifies(block_data_bytes(block), VDF_DIFFICULTY, block.vdf_solution),
        spec_is_coinbase(block.transactions[0], block.index),
        !i_generated && generated_now ==> cache.contains_key((latest_hash(blocks), block.timestamp)),
        !i_generated && generated_now ==> forall|i: int|
            0 <= i < block.beacon.len() && i < cache[(latest_hash(blocks), block.timestamp)].len() ==> -5 <= (
            #[trigger] block.beacon[i]) - cache[(latest_hash(blocks), block.timestamp)][i] <= 5,
{
}

/// Conversely, a block that follows `previous` (the next index, a later
/// time, the hash of `previous` as its previous hash, the hash of its own
/// contents) and meets the block rules against `unspent` passes the check
/// of a new block.
pub proof fn law_following_block_passes_new_block_check(
    block: BlockV,
    previous: BlockV,
    unspent: Seq<UnspentTransaction>,
)
    requires
        block.index == previous.index + 1,
        block.timestamp > previous.timestamp,
        block.previous_hash == previous.hash,
        block.hash == spec_block_hash(block),
        spec_block_valid(block, unspent),
    ensures
        spec_is_valid_new_block(block, previous, unspent),
{
}

/// Conversely, a chain that starts with the genesis block and in which
/// every later block follows the block before it and meets the block rules
/// against the chain's unspent outputs is valid.
pub proof fn law_linked_chain_is_valid(blocks: Seq<BlockV>)
    requires
        blocks.len() > 0,
        spec_is_genesis(blocks[0]),
        forall|i: int|
            #![trigger blocks[i]]
            1 <= i < blocks.len() ==> blocks[i].index == blocks[i - 1].index + 1 && blocks[i].timestamp
                > blocks[i - 1].timestamp && blocks[i].previous_hash == blocks[i - 1].hash && blocks[i].hash
                == spec_block_hash(blocks[i]) && spec_block_valid(blocks[i], spec_chain_unspent(blocks).0),
    ensures
        spec_chain_valid(blocks),
{
}

/// Conversely, a chain takes a block that follows its latest block (the
/// next index, a later time, the latest hash as its previous hash, the hash
/// of its own contents) and meets the block rules against its unspent
/// outputs, when the block is this node's, or not just made, or the beacon
/// this node read for it is cached and agrees with it within five tenths
/// at every place both have.
pub proof fn law_following_block_is_accepted(
    blocks: Seq<BlockV>,
    block: BlockV,
    i_generated: bool,
    generated_now: bool,
    cache: Map<(Seq<u8>, i64), Seq<i32>>,
)
    requires
        block.index == latest_index(blocks) + 1,
        block.timestamp > latest_timestamp(blocks),
        block.previous_hash == latest_hash(blocks),
        block.hash == spec_block_hash(block),
        spec_block_valid(block, spec_chain_unspent(blocks).0),
        i_generated || !generated_now || (cache.contains_key((latest_hash(blocks), block.timestamp)) && forall|i: int|
            0 <= i < block.beacon.len() && i < cache[(latest_hash(blocks), block.timestamp)].len() ==> -5 <= (
            #[trigger] block.beacon[i]) - cache[(latest_hash(blocks), block.timestamp)][i] <= 5),
    ensures
        spec_accepts_block(blocks, block, i_generated, generated_now, cache),
{
}

} // verus!
