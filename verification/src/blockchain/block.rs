use vstd::prelude::*;

use crate::beacon::{beacon_debug_bytes, put_beacon_debug, Beacon};
use crate::blockchain::address::{is_valid_address, Address};
use crate::blockchain::coinbase::{is_valid_coinbase_transaction, spec_is_coinbase};
use crate::blockchain::transaction::{
    put_transaction_debug, spec_transaction_unspent, transaction_debug_bytes, spec_transaction_valid,
    txs_view, Transaction, TransactionV, UnspentTransaction,
};
use crate::blockchain::utxo::{next_id, saturate};
use crate::util::bytes::{
    byte_list_bytes, decimal_bytes, joined_bytes, lemma_joined_push, list_bytes, put_byte_list, put_decimal, put_raw,
    put_signed_decimal, signed_decimal_bytes,
};
use crate::util::hash::{hash, spec_sha256, Hashed};
use crate::util::key::{pk_debug_bytes, put_pk_debug, spec_is_valid_public_key, spec_signature_by, spec_verifies, KeyError, PK, SK};
use crate::util::signature::Signature;
use crate::util::vdf::{solve, spec_vdf_solution, spec_vdf_verifies, verify_solution, VdfError, VDF_DIFFICULTY};

verus! {

/// The most transactions (besides the coinbase) a node puts in a block.
pub const MAX_TRANSACTIONS_PER_BLOCK: usize = 100;

/// A block: its transactions (the coinbase first), the beacon read for it,
/// the VDF solution over its data, the hash of the block before it, its
/// issuer's signature and its own hash.
#[derive(Debug, PartialEq, Eq)]
pub struct Block {
    pub index: u64,
    pub timestamp: i64,
    pub transactions: Vec<Transaction>,
    pub beacon: Beacon,
    pub vdf_solution: Vec<u8>,
    pub previous_hash: Hashed,
    pub issuer: Address,
    pub signature: Signature,
    pub hash: Hashed,
}

/// What a block is, as a mathematical value.
pub struct BlockV {
    pub index: u64,
    pub timestamp: i64,
    pub transactions: Seq<TransactionV>,
    pub beacon: Seq<i32>,
    pub vdf_solution: Seq<u8>,
    pub previous_hash: Seq<u8>,
    pub issuer: Address,
    pub signature: Seq<u8>,
    pub hash: Seq<u8>,
}

impl View for Block {
    type V = BlockV;

    open spec fn view(&self) -> BlockV {
        BlockV {
            index: self.index,
            timestamp: self.timestamp,
            transactions: txs_view(self.transactions@),
            beacon: self.beacon@,
            vdf_solution: self.vdf_solution@,
            previous_hash: self.previous_hash@,
            issuer: self.issuer,
            signature: self.signature@,
            hash: self.hash@,
        }
    }
}

/// The values of a sequence of blocks.
pub open spec fn blocks_view(blocks: Seq<Block>) -> Seq<BlockV> {
    blocks.map_values(|b: Block| b@)
}

/// Copies of transactions.
pub fn clone_transactions(txs: &[Transaction]) -> (res: Vec<Transaction>)
    ensures
        txs_view(res@) == txs_view(txs@),
{
    let mut res: Vec<Transaction> = Vec::new();
    let mut i: usize = 0;
    while i < txs.len()
        invariant
            i <= txs@.len(),
            res@.len() == i,
            forall|j: int| 0 <= j < i ==> (#[trigger] res@[j])@ == txs@[j]@,
        decreases txs@.len() - i,
    {
        res.push(txs[i].clone());
        i = i + 1;
    }
    assert(txs_view(res@) =~= txs_view(txs@));
    res
}

fn clone_bytes(b: &[u8]) -> (res: Vec<u8>)
    ensures
        res@ == b@,
{
    let mut res: Vec<u8> = Vec::new();
    put_raw(&mut res, b);
    res
}

impl Clone for Block {
    fn clone(&self) -> (res: Self)
        ensures
            res@ == self@,
    {
        Block {
            index: self.index,
            timestamp: self.timestamp,
            transactions: clone_transactions(self.transactions.as_slice()),
            beacon: self.beacon.clone(),
            vdf_solution: clone_bytes(self.vdf_solution.as_slice()),
            previous_hash: self.previous_hash,
            issuer: self.issuer.clone(),
            signature: clone_bytes(self.signature.as_slice()),
            hash: self.hash,
        }
    }
}

/// The parts of a block that its VDF and its signature cover.
pub struct BlockData<'a> {
    index: u64,
    timestamp: i64,
    transactions: &'a [Transaction],
    beacon: &'a Beacon,
    issuer: &'a Address,
    previous_hash: Hashed,
}

/// A list of transactions as `Debug` writes it.
pub open spec fn txs_debug_bytes(s: Seq<TransactionV>) -> Seq<u8> {
    list_bytes(s.map_values(|t: TransactionV| transaction_debug_bytes(t)))
}

/// The text of a block's data, as UTF-8 bytes: what
/// `format!("{}{}{:?}{:?}{:?}{:?}", index, timestamp, transactions, beacon,
/// issuer, previous_hash)` writes. The index and the time in decimal, then
/// the transactions, the beacon, the issuer's key and the previous block's
/// hash as `Debug` writes them.
pub open spec fn spec_data_bytes(
    index: u64,
    timestamp: i64,
    transactions: Seq<TransactionV>,
    beacon: Seq<i32>,
    issuer: Seq<char>,
    previous_hash: Seq<u8>,
) -> Seq<u8> {
    decimal_bytes(index as nat) + signed_decimal_bytes(timestamp as int) + txs_debug_bytes(transactions)
        + beacon_debug_bytes(beacon) + pk_debug_bytes(issuer) + byte_list_bytes(previous_hash)
}

impl<'a> BlockData<'a> {
    /// The text of this data, as UTF-8 bytes.
    pub closed spec fn bytes(&self) -> Seq<u8> {
        spec_data_bytes(
            self.index,
            self.timestamp,
            txs_view(self.transactions@),
            self.beacon@,
            self.issuer.der@,
            self.previous_hash@,
        )
    }

    /// The data of a block.
    pub fn new(
        index: u64,
        timestamp: i64,
        transactions: &'a [Transaction],
        beacon: &'a Beacon,
        issuer: &'a Address,
        previous_hash: Hashed,
    ) -> (res: Self)
        ensures
            res.bytes() == spec_data_bytes(
                index,
                timestamp,
                txs_view(transactions@),
                beacon@,
                issuer.der@,
                previous_hash@,
            ),
    {
        BlockData { index, timestamp, transactions, beacon, issuer, previous_hash }
    }

    /// The text of this data, as UTF-8 bytes.
    pub fn to_bytes(&self) -> (res: Vec<u8>)
        ensures
            res@ == self.bytes(),
    {
        let mut buf: Vec<u8> = Vec::new();
        put_decimal(&mut buf, self.index);
        put_signed_decimal(&mut buf, self.timestamp);
        let ghost items = txs_view(self.transactions@).map_values(|t: TransactionV| transaction_debug_bytes(t));
        buf.push(91u8);
        let ghost start = buf@;
        let mut i: usize = 0;
        while i < self.transactions.len()
            invariant
                i <= self.transactions@.len(),
                items == txs_view(self.transactions@).map_values(|t: TransactionV| transaction_debug_bytes(t)),
                buf@ == start + joined_bytes(items.take(i as int)),
            decreases self.transactions@.len() - i,
        {
            proof {
                lemma_joined_push(items.take(i as int), items[i as int]);
                assert(items.take(i + 1) =~= items.take(i as int).push(items[i as int]));
            }
            if i > 0 {
                buf.push(44u8);
                buf.push(32u8);
            }
            put_transaction_debug(&mut buf, &self.transactions[i]);
            assert(buf@ =~= start + joined_bytes(items.take(i + 1)));
            i = i + 1;
        }
        assert(items.take(i as int) =~= items);
        buf.push(93u8);
        put_beacon_debug(&mut buf, self.beacon);
        put_pk_debug(&mut buf, self.issuer);
        put_byte_list(&mut buf, &self.previous_hash);
        assert(buf@ =~= self.bytes());
        buf
    }
}

/// The bytes a block's signature covers: its data's text, then its VDF
/// solution as `Debug` writes a list of bytes.
pub open spec fn spec_signing_bytes_of(data: Seq<u8>, vdf_solution: Seq<u8>) -> Seq<u8> {
    data + byte_list_bytes(vdf_solution)
}

/// A block's hash: the SHA-256 of its data's text followed by its VDF
/// solution and its signature, each as `Debug` writes a list of bytes.
pub open spec fn spec_hash_of(data: Seq<u8>, vdf_solution: Seq<u8>, signature: Seq<u8>) -> Seq<u8> {
    spec_sha256(spec_signing_bytes_of(data, vdf_solution) + byte_list_bytes(signature))
}

/// The text of a block value's data, as UTF-8 bytes.
pub open spec fn block_data_bytes(b: BlockV) -> Seq<u8> {
    spec_data_bytes(b.index, b.timestamp, b.transactions, b.beacon, b.issuer.der@, b.previous_hash)
}

/// The hash a block value should carry.
pub open spec fn spec_block_hash(b: BlockV) -> Seq<u8> {
    spec_hash_of(block_data_bytes(b), b.vdf_solution, b.signature)
}

/// Whether a block's signature verifies under its issuer.
pub open spec fn spec_block_signature_ok(b: BlockV) -> bool {
    spec_verifies(b.issuer.der@, spec_signing_bytes_of(block_data_bytes(b), b.vdf_solution), b.signature)
}

/// Whether a block's VDF solution solves the VDF whose challenge is the text
/// of its data.
pub open spec fn spec_block_vdf_ok(b: BlockV) -> bool {
    spec_vdf_verifies(block_data_bytes(b), VDF_DIFFICULTY, b.vdf_solution)
}

proof fn lemma_decimal_shape(n: nat)
    ensures
        decimal_bytes(n).len() >= 1,
        48 <= decimal_bytes(n)[0] <= 57,
        decimal_bytes(n).len() == 1 <==> n < 10,
    decreases n,
{
    if n >= 10 {
        lemma_decimal_shape(n / 10);
    }
}

proof fn lemma_decimal_injective(n: nat, m: nat)
    requires
        decimal_bytes(n) == decimal_bytes(m),
    ensures
        n == m,
    decreases n,
{
    lemma_decimal_shape(n);
    lemma_decimal_shape(m);
    if n >= 10 {
        assert(decimal_bytes(n).drop_last() =~= decimal_bytes(n / 10));
        assert(decimal_bytes(m).drop_last() =~= decimal_bytes(m / 10));
        lemma_decimal_injective(n / 10, m / 10);
        assert(decimal_bytes(n) == decimal_bytes(n / 10).push((48 + n % 10) as u8));
        assert(decimal_bytes(m) == decimal_bytes(m / 10).push((48 + m % 10) as u8));
        assert(decimal_bytes(n).last() == (48 + n % 10) as u8);
        assert(decimal_bytes(m).last() == (48 + m % 10) as u8);
        assert(((48 + n % 10) as u8) == 48 + n % 10);
        assert(((48 + m % 10) as u8) == 48 + m % 10);
        assert(n % 10 == m % 10);
        assert(n == 10 * (n / 10) + n % 10);
        assert(m == 10 * (m / 10) + m % 10);
    } else {
        assert(decimal_bytes(n)[0] == decimal_bytes(m)[0]);
        assert(((48 + n) as u8) == 48 + n);
        assert(((48 + m) as u8) == 48 + m);
    }
}

proof fn lemma_signed_decimal_injective(x: int, y: int)
    requires
        signed_decimal_bytes(x) == signed_decimal_bytes(y),
    ensures
        x == y,
{
    let dx = decimal_bytes(if x < 0 { -x } else { x } as nat);
    let dy = decimal_bytes(if y < 0 { -y } else { y } as nat);
    lemma_decimal_shape(if x < 0 { -x } else { x } as nat);
    lemma_decimal_shape(if y < 0 { -y } else { y } as nat);
    if x < 0 && y < 0 {
        assert(dx =~= signed_decimal_bytes(x).subrange(1, signed_decimal_bytes(x).len() as int));
        assert(dy =~= signed_decimal_bytes(y).subrange(1, signed_decimal_bytes(y).len() as int));
        lemma_decimal_injective((-x) as nat, (-y) as nat);
    } else if x < 0 {
        assert(signed_decimal_bytes(x)[0] == 45u8);
        assert(signed_decimal_bytes(y)[0] == dy[0]);
    } else if y < 0 {
        assert(signed_decimal_bytes(y)[0] == 45u8);
        assert(signed_decimal_bytes(x)[0] == dx[0]);
    } else {
        lemma_decimal_injective(x as nat, y as nat);
    }
}

proof fn lemma_cancel_suffix(a: Seq<u8>, b: Seq<u8>, c: Seq<u8>)
    requires
        a + c == b + c,
    ensures
        a == b,
{
    assert((a + c).len() == a.len() + c.len());
    assert((b + c).len() == b.len() + c.len());
    assert(a.len() == b.len());
    assert(a =~= (a + c).subrange(0, a.len() as int));
    assert(b =~= (b + c).subrange(0, b.len() as int));
}

proof fn lemma_cancel_prefix(p: Seq<u8>, a: Seq<u8>, b: Seq<u8>)
    requires
        p + a == p + b,
    ensures
        a == b,
{
    assert(a =~= (p + a).subrange(p.len() as int, (p + a).len() as int));
    assert(b =~= (p + b).subrange(p.len() as int, (p + b).len() as int));
}

/// The text a block's signature covers tells apart two blocks that differ
/// in their index alone, or in their time alone. (Index and time are
/// written one after the other without a separator, so blocks that differ
/// in both can share the text: index 1 at time 23 and index 12 at time 3.)
pub proof fn law_signed_text_tells_index_and_time_apart(b1: BlockV, b2: BlockV)
    requires
        b1.transactions == b2.transactions,
        b1.beacon == b2.beacon,
        b1.issuer == b2.issuer,
        b1.previous_hash == b2.previous_hash,
        b1.vdf_solution == b2.vdf_solution,
        (b1.index != b2.index && b1.timestamp == b2.timestamp) || (b1.index == b2.index && b1.timestamp
            != b2.timestamp),
    ensures
        spec_signing_bytes_of(block_data_bytes(b1), b1.vdf_solution) != spec_signing_bytes_of(
            block_data_bytes(b2),
            b2.vdf_solution,
        ),
{
    let x1 = txs_debug_bytes(b1.transactions);
    let x2 = beacon_debug_bytes(b1.beacon);
    let x3 = pk_debug_bytes(b1.issuer.der@);
    let x4 = byte_list_bytes(b1.previous_hash);
    let x5 = byte_list_bytes(b1.vdf_solution);
    let i1 = decimal_bytes(b1.index as nat);
    let i2 = decimal_bytes(b2.index as nat);
    let t1 = signed_decimal_bytes(b1.timestamp as int);
    let t2 = signed_decimal_bytes(b2.timestamp as int);
    let s1 = spec_signing_bytes_of(block_data_bytes(b1), b1.vdf_solution);
    let s2 = spec_signing_bytes_of(block_data_bytes(b2), b2.vdf_solution);
    assert(s1 == i1 + t1 + x1 + x2 + x3 + x4 + x5);
    assert(s2 == i2 + t2 + x1 + x2 + x3 + x4 + x5);
    if s1 == s2 {
        lemma_cancel_suffix(i1 + t1 + x1 + x2 + x3 + x4, i2 + t2 + x1 + x2 + x3 + x4, x5);
        lemma_cancel_suffix(i1 + t1 + x1 + x2 + x3, i2 + t2 + x1 + x2 + x3, x4);
        lemma_cancel_suffix(i1 + t1 + x1 + x2, i2 + t2 + x1 + x2, x3);
        lemma_cancel_suffix(i1 + t1 + x1, i2 + t2 + x1, x2);
        lemma_cancel_suffix(i1 + t1, i2 + t2, x1);
        if b1.index != b2.index {
            lemma_cancel_suffix(i1, i2, t1);
            lemma_decimal_injective(b1.index as nat, b2.index as nat);
        } else {
            lemma_cancel_prefix(i1, t1, t2);
            lemma_signed_decimal_injective(b1.timestamp as int, b2.timestamp as int);
        }
    }
}

/// Whether the transactions after the first are all valid.
pub open spec fn all_after_first_valid(txs: Seq<TransactionV>, unspent: Seq<UnspentTransaction>) -> bool {
    forall|i: int| 1 <= i < txs.len() ==> spec_transaction_valid(#[trigger] txs[i], unspent)
}

/// The rules a block must meet: it has transactions, its issuer is a usable
/// key whose signature verifies, its VDF solution verifies, its first
/// transaction is the coinbase for its height and the others are valid.
pub open spec fn spec_block_valid(b: BlockV, unspent: Seq<UnspentTransaction>) -> bool {
    &&& b.transactions.len() > 0
    &&& spec_is_valid_public_key(b.issuer.der@)
    &&& spec_block_signature_ok(b)
    &&& spec_block_vdf_ok(b)
    &&& spec_is_coinbase(b.transactions[0], b.index)
    &&& all_after_first_valid(b.transactions, unspent)
}

/// The unspent outputs after a sequence of transactions.
pub open spec fn txs_unspent(txs: Seq<TransactionV>, previous: Seq<UnspentTransaction>, first_id: u64) -> (Seq<
    UnspentTransaction,
>, u64)
    decreases txs.len(),
{
    if txs.len() == 0 {
        (previous, first_id)
    } else {
        let (s, id) = txs_unspent(txs.drop_last(), previous, first_id);
        spec_transaction_unspent(txs.last(), s, id)
    }
}

/// The total of the fees of transactions.
pub open spec fn sum_fees(txs: Seq<TransactionV>) -> int
    decreases txs.len(),
{
    if txs.len() == 0 {
        0
    } else {
        sum_fees(txs.drop_last()) + txs.last().fee
    }
}

/// The unspent outputs after a block: those after its transactions, and,
/// when it has transactions, one more output paying the block's fees to its
/// issuer.
pub open spec fn spec_block_unspent(b: BlockV, previous: Seq<UnspentTransaction>, first_id: u64) -> (Seq<
    UnspentTransaction,
>, u64) {
    let (s, id) = txs_unspent(b.transactions, previous, first_id);
    if b.transactions.len() == 0 {
        (s, id)
    } else {
        (
            s.push(UnspentTransaction { id, address: b.issuer, amount: saturate(sum_fees(b.transactions)) }),
            next_id(id),
        )
    }
}

/// The hash of a block's data, VDF solution and signature.
pub fn calculate_hash(blockdata: &BlockData, vdf_solution: &[u8], signature: Signature) -> (res: Hashed)
    ensures
        res@ == spec_hash_of(blockdata.bytes(), vdf_solution@, signature@),
{
    let mut buf = blockdata.to_bytes();
    put_byte_list(&mut buf, vdf_solution);
    put_byte_list(&mut buf, signature.as_slice());
    assert(buf@ =~= spec_signing_bytes_of(blockdata.bytes(), vdf_solution@) + byte_list_bytes(signature@));
    hash(buf.as_slice())
}

/// The bytes a block's signature covers.
fn block_to_buf_for_signature(blockdata: &BlockData, vdf_solution: &[u8]) -> (res: Vec<u8>)
    ensures
        res@ == spec_signing_bytes_of(blockdata.bytes(), vdf_solution@),
{
    let mut buf = blockdata.to_bytes();
    put_byte_list(&mut buf, vdf_solution);
    buf
}

/// Signs the bytes a block's signature covers.
fn create_block_signature(blockdata: &BlockData, vdf_solution: &[u8], sk: &SK) -> (res: Result<Signature, KeyError>)
    ensures
        match res {
            Ok(s) => spec_signature_by(sk.der@, spec_signing_bytes_of(blockdata.bytes(), vdf_solution@))
                == Some(s@) && (crate::util::key::spec_public_key_of(sk.der@) matches Some(pk) ==> spec_verifies(
                pk,
                spec_signing_bytes_of(blockdata.bytes(), vdf_solution@),
                s@,
            )),
            Err(_) => spec_signature_by(sk.der@, spec_signing_bytes_of(blockdata.bytes(), vdf_solution@))
                is None,
        },
{
    let data = block_to_buf_for_signature(blockdata, vdf_solution);
    sk.sign(data.as_slice())
}

/// The bytes a block's VDF is solved over: the text of its data.
fn block_to_buf_for_vdf(blockdata: &BlockData) -> (res: Vec<u8>)
    ensures
        res@ == blockdata.bytes(),
{
    blockdata.to_bytes()
}

/// Solves the VDF over the text of a block's data; it always succeeds, and
/// the solution verifies.
pub fn solve_block_vdf(blockdata: &BlockData) -> (res: Result<Vec<u8>, VdfError>)
    ensures
        res is Ok,
        res matches Ok(s) ==> s@ == spec_vdf_solution(blockdata.bytes(), VDF_DIFFICULTY)
            && spec_vdf_verifies(blockdata.bytes(), VDF_DIFFICULTY, s@),
{
    let data = block_to_buf_for_vdf(blockdata);
    solve(data.as_slice())
}

/// The hash of the genesis block.
pub open spec fn spec_genesis_hash() -> Seq<u8> {
    spec_hash_of(
        spec_data_bytes(0, 0, Seq::empty(), Seq::empty(), Seq::empty(), Seq::new(32, |i: int| 0u8)),
        Seq::empty(),
        Seq::empty(),
    )
}

/// Whether a block value is the genesis block.
pub open spec fn spec_is_genesis(b: BlockV) -> bool {
    &&& b.index == 0
    &&& b.timestamp == 0
    &&& b.transactions.len() == 0
    &&& b.beacon.len() == 0
    &&& b.vdf_solution.len() == 0
    &&& b.previous_hash == Seq::new(32, |i: int| 0u8)
    &&& b.issuer.der@.len() == 0
    &&& b.signature.len() == 0
    &&& b.hash == spec_block_hash(b)
}

/// The genesis block carries the genesis hash.
pub proof fn lemma_genesis_hash(b: BlockV)
    requires
        spec_is_genesis(b),
    ensures
        b.hash == spec_genesis_hash(),
{
    assert(b.transactions =~= Seq::<TransactionV>::empty());
    assert(b.beacon =~= Seq::<i32>::empty());
    assert(b.vdf_solution =~= Seq::<u8>::empty());
    assert(b.signature =~= Seq::<u8>::empty());
    assert(b.issuer.der@ =~= Seq::<char>::empty());
}

/// The first block of every chain: index and time zero, no transactions, an
/// empty beacon, VDF solution and signature, an all-zero previous hash, the
/// empty issuer, and the hash of those.
pub fn genesis_block() -> (res: Block)
    ensures
        spec_is_genesis(res@),
{
    let pk = PK { der: String::new() };
    let previous_hash: Hashed = [0u8; 32];
    let res = Block::new(0, 0, Vec::new(), Beacon { values: Vec::new() }, Vec::new(), &pk, previous_hash, Vec::new());
    assert(res@.previous_hash =~= Seq::new(32, |i: int| 0u8));
    res
}

impl Block {
    /// A block from its parts; its hash is computed from them.
    pub fn new(
        index: u64,
        timestamp: i64,
        transactions: Vec<Transaction>,
        beacon: Beacon,
        vdf_solution: Vec<u8>,
        issuer: &Address,
        previous_hash: Hashed,
        signature: Signature,
    ) -> (res: Self)
        ensures
            res.index == index,
            res.timestamp == timestamp,
            txs_view(res.transactions@) == txs_view(transactions@),
            res.beacon@ == beacon@,
            res.vdf_solution@ == vdf_solution@,
            res.previous_hash@ == previous_hash@,
            res.issuer == *issuer,
            res.signature@ == signature@,
            res.hash@ == spec_block_hash(res@),
    {
        let signature_copy = clone_bytes(signature.as_slice());
        let hash = calculate_hash(
            &BlockData::new(index, timestamp, transactions.as_slice(), &beacon, issuer, previous_hash),
            vdf_solution.as_slice(),
            signature_copy,
        );
        Block {
            index,
            timestamp,
            transactions,
            beacon,
            vdf_solution,
            previous_hash,
            issuer: issuer.clone(),
            signature,
            hash,
        }
    }

    /// A block from its parts, signed with `sk` over its data and VDF
    /// solution; an error when signing fails. The signature verifies under
    /// the public key of `sk`.
    pub fn new_with_creating_signature(
        index: u64,
        timestamp: i64,
        transactions: Vec<Transaction>,
        beacon: Beacon,
        vdf_solution: Vec<u8>,
        issuer: &Address,
        previous_hash: Hashed,
        sk: &SK,
    ) -> (res: Result<Self, KeyError>)
        ensures
            match res {
                Ok(b) => b.index == index && b.timestamp == timestamp && txs_view(b.transactions@)
                    == txs_view(transactions@) && b.beacon@ == beacon@ && b.vdf_solution@ == vdf_solution@
                    && b.previous_hash@ == previous_hash@ && b.issuer == *issuer && spec_signature_by(
                    sk.der@,
                    spec_signing_bytes_of(block_data_bytes(b@), b.vdf_solution@),
                ) == Some(b.signature@) && b.hash@ == spec_block_hash(b@)
                    && (crate::util::key::spec_public_key_of(sk.der@) matches Some(pk) ==> spec_verifies(
                    pk,
                    spec_signing_bytes_of(block_data_bytes(b@), b.vdf_solution@),
                    b.signature@,
                )),
                Err(_) => spec_signature_by(
                    sk.der@,
                    spec_signing_bytes_of(
                        spec_data_bytes(index, timestamp, txs_view(transactions@), beacon@, issuer.der@, previous_hash@),
                        vdf_solution@,
                    ),
                ) is None,
            },
    {
        let signature = create_block_signature(
            &BlockData::new(index, timestamp, transactions.as_slice(), &beacon, issuer, previous_hash),
            vdf_solution.as_slice(),
            sk,
        )?;
        Ok(Self::new(index, timestamp, transactions, beacon, vdf_solution, issuer, previous_hash, signature))
    }

    /// The data of this block.
    fn to_blockdata(&self) -> (res: BlockData<'_>)
        ensures
            res.bytes() == block_data_bytes(self@),
    {
        BlockData::new(
            self.index,
            self.timestamp,
            self.transactions.as_slice(),
            &self.beacon,
            &self.issuer,
            self.previous_hash,
        )
    }

    /// Whether the signature verifies under the issuer, who must be a usable
    /// public key.
    pub fn verify_signature(&self) -> (res: bool)
        requires
            spec_is_valid_public_key(self.issuer.der@),
        ensures
            res == spec_block_signature_ok(self@),
    {
        let data = block_to_buf_for_signature(&self.to_blockdata(), self.vdf_solution.as_slice());
        self.issuer.verify(data.as_slice(), self.signature.as_slice())
    }

    /// Whether the VDF solution solves the VDF whose challenge is the text of
    /// this block's data.
    pub fn verify_vdf_solution(&self) -> (res: bool)
        ensures
            res == spec_block_vdf_ok(self@),
    {
        let data = block_to_buf_for_vdf(&self.to_blockdata());
        verify_solution(data.as_slice(), self.vdf_solution.as_slice())
    }

    /// The height of this block: its index.
    fn get_block_height(&self) -> (res: u64)
        ensures
            res == self.index,
    {
        self.index
    }

    /// Whether this block meets the rules against the unspent outputs: it
    /// has transactions, a usable issuer whose signature verifies, a VDF
    /// solution that verifies, the coinbase for its height first, and valid
    /// transactions after it.
    pub fn is_valid(&self, unspent_transactions: &[UnspentTransaction]) -> (res: bool)
        ensures
            res == spec_block_valid(self@, unspent_transactions@),
    {
        if self.transactions.len() == 0 {
            return false;
        }
        if !is_valid_address(&self.issuer) {
            return false;
        }
        assert(txs_view(self.transactions@)[0] == self.transactions@[0]@);
        if !(self.verify_signature() && self.verify_vdf_solution()
            && is_valid_coinbase_transaction(&self.transactions[0], self.get_block_height())) {
            return false;
        }
        let mut i: usize = 1;
        while i < self.transactions.len()
            invariant
                1 <= i <= self.transactions@.len(),
                forall|j: int|
                    1 <= j < i ==> spec_transaction_valid(
                        #[trigger] txs_view(self.transactions@)[j],
                        unspent_transactions@,
                    ),
            decreases self.transactions@.len() - i,
        {
            assert(txs_view(self.transactions@)[i as int] == self.transactions@[i as int]@);
            if !self.transactions[i].is_valid(unspent_transactions) {
                return false;
            }
            i = i + 1;
        }
        true
    }

    /// The hash this block should carry, computed from its contents.
    pub fn calculate_hash(&self) -> (res: Hashed)
        ensures
            res@ == spec_block_hash(self@),
    {
        let signature = clone_bytes(self.signature.as_slice());
        calculate_hash(&self.to_blockdata(), self.vdf_solution.as_slice(), signature)
    }

    /// The unspent outputs after this block, starting from `previous` with
    /// fresh ids from the given id: each transaction in turn, then (when the
    /// block has transactions) one output paying the fees to the issuer.
    /// Also returns the next fresh id.
    pub fn get_unspent_transactions(&self, previous: (Vec<UnspentTransaction>, u64)) -> (res: (
        Vec<UnspentTransaction>,
        u64,
    ))
        ensures
            (res.0@, res.1) == spec_block_unspent(self@, previous.0@, previous.1),
    {
        let ghost prev = previous.0@;
        let ghost first = previous.1;
        let mut acc = previous;
        let mut fees: u128 = 0;
        let mut i: usize = 0;
        while i < self.transactions.len()
            invariant
                i <= self.transactions@.len(),
                (acc.0@, acc.1) == txs_unspent(txs_view(self.transactions@.take(i as int)), prev, first),
                fees == sum_fees(txs_view(self.transactions@.take(i as int))),
                fees <= i * (u64::MAX as int),
            decreases self.transactions@.len() - i,
        {
            proof {
                assert(txs_view(self.transactions@.take(i + 1)).drop_last() =~= txs_view(
                    self.transactions@.take(i as int),
                ));
                assert((i + 1) * (u64::MAX as int) < u128::MAX) by (nonlinear_arith)
                    requires
                        i < usize::MAX,
                ;
            }
            acc = self.transactions[i].get_unspent_transactions(acc);
            fees = fees + self.transactions[i].fee as u128;
            i = i + 1;
        }
        assert(self.transactions@.take(i as int) =~= self.transactions@);
        if self.transactions.len() == 0 {
            return acc;
        }
        let (mut unspent, id) = acc;
        let amount: u64 = if fees > u64::MAX as u128 {
            u64::MAX
        } else {
            fees as u64
        };
        unspent.push(UnspentTransaction { id, address: self.issuer.clone(), amount });
        let next = if id < u64::MAX {
            id + 1
        } else {
            id
        };
        (unspent, next)
    }
}

} // verus!
