use vstd::prelude::*;

use crate::blockchain::address::{is_valid_address, same_address, Address};
pub use crate::blockchain::coinbase::{coinbase_transaction, is_valid_coinbase_transaction};
use crate::blockchain::utxo::{
    find_amount, input_ids, lemma_sum_unspent_nonneg, next_id, saturate, shortest_reaching,
    take_until_reaching,
};
pub use crate::blockchain::utxo::{TransactionIn, TransactionOut, UnspentTransaction};
use vstd::utf8::encode_utf8;

use crate::util::bytes::{
    byte_list_bytes, decimal_bytes, joined_bytes, lemma_joined_push, list_bytes, put_byte_list, put_decimal, put_raw, put_str,
    text_bytes,
};
use crate::util::key::{pk_debug_bytes, put_pk_debug, spec_is_valid_public_key, spec_public_key_of, spec_signature_by, spec_verifies, KeyError, SK};
use crate::util::signature::Signature;
use crate::util::text::{push_decimal, spec_decimal, string_push, string_push_str};

verus! {

/// A transfer signed by its sender: it spends the sender's unspent outputs
/// named by `tx_in`, creates `out`, and leaves `fee` to the block's issuer.
#[derive(Debug, PartialEq, Eq)]
pub struct Transaction {
    pub sender: Address,
    pub out: Vec<TransactionOut>,
    pub tx_in: Vec<TransactionIn>,
    pub fee: u64,
    pub signature: Signature,
}

/// What a transaction is, as a mathematical value.
pub struct TransactionV {
    pub sender: Address,
    pub out: Seq<TransactionOut>,
    pub tx_in: Seq<TransactionIn>,
    pub fee: u64,
    pub signature: Seq<u8>,
}

impl View for Transaction {
    type V = TransactionV;

    open spec fn view(&self) -> TransactionV {
        TransactionV {
            sender: self.sender,
            out: self.out@,
            tx_in: self.tx_in@,
            fee: self.fee,
            signature: self.signature@,
        }
    }
}

/// The values of a sequence of transactions.
pub open spec fn txs_view(txs: Seq<Transaction>) -> Seq<TransactionV> {
    txs.map_values(|t: Transaction| t@)
}

impl Clone for Transaction {
    fn clone(&self) -> (res: Self)
        ensures
            res@ == self@,
    {
        let out = self.out.clone();
        let tx_in = self.tx_in.clone();
        let signature = self.signature.clone();
        assert(out@ =~= self.out@);
        assert(tx_in@ =~= self.tx_in@);
        assert(signature@ =~= self.signature@);
        Transaction { sender: self.sender.clone(), out, tx_in, fee: self.fee, signature }
    }
}

/// The addresses outputs pay, separated by a comma and a space.
pub open spec fn spec_joined_addresses(out: Seq<TransactionOut>) -> Seq<char>
    decreases out.len(),
{
    if out.len() == 0 {
        Seq::empty()
    } else if out.len() == 1 {
        out[0].address.der@
    } else {
        spec_joined_addresses(out.drop_last()) + seq![',', ' '] + out.last().address.der@
    }
}

/// The text of a transaction: `sender -> address, address: total`.
pub open spec fn spec_transaction_text(t: TransactionV) -> Seq<char> {
    t.sender.der@ + seq![' ', '-', '>', ' '] + spec_joined_addresses(t.out) + seq![':', ' '] + spec_decimal(
        saturate(sum_outs(t.out)) as nat,
    )
}

/// The total amount of outputs.
pub open spec fn sum_outs(s: Seq<TransactionOut>) -> int
    decreases s.len(),
{
    if s.len() == 0 {
        0
    } else {
        sum_outs(s.drop_last()) + s.last().amount
    }
}

/// An output as `Debug` writes it:
/// `TransactionOut { address: PK { der: "..." }, amount: 10 }`.
pub open spec fn out_debug_bytes(o: TransactionOut) -> Seq<u8> {
    text_bytes("TransactionOut { address: ") + pk_debug_bytes(o.address.der@) + text_bytes(", amount: ")
        + decimal_bytes(o.amount as nat) + text_bytes(" }")
}

/// A list of outputs as `Debug` writes it.
pub open spec fn outs_debug_bytes(s: Seq<TransactionOut>) -> Seq<u8> {
    list_bytes(s.map_values(|o: TransactionOut| out_debug_bytes(o)))
}

/// An input as `Debug` writes it: `TransactionIn { unspent_id: 1 }`.
pub open spec fn in_debug_bytes(i: TransactionIn) -> Seq<u8> {
    text_bytes("TransactionIn { unspent_id: ") + decimal_bytes(i.unspent_id as nat) + text_bytes(" }")
}

/// A list of inputs as `Debug` writes it.
pub open spec fn ins_debug_bytes(s: Seq<TransactionIn>) -> Seq<u8> {
    list_bytes(s.map_values(|i: TransactionIn| in_debug_bytes(i)))
}

/// The bytes a transaction's signature covers: the text
/// `format!("{}{:?}{:?}", sender, out, tx_in)`, that is the sender's key
/// text, then the outputs and the inputs as `Debug` writes them.
pub open spec fn spec_signing_bytes(sender: Address, out: Seq<TransactionOut>, tx_in: Seq<TransactionIn>) -> Seq<u8> {
    encode_utf8(sender.der@) + outs_debug_bytes(out) + ins_debug_bytes(tx_in)
}

/// A transaction as `Debug` writes it: `Transaction { sender: .., out: [..],
/// tx_in: [..], fee: .., signature: [..] }`.
pub open spec fn transaction_debug_bytes(t: TransactionV) -> Seq<u8> {
    text_bytes("Transaction { sender: ") + pk_debug_bytes(t.sender.der@) + text_bytes(", out: ")
        + outs_debug_bytes(t.out) + text_bytes(", tx_in: ") + ins_debug_bytes(t.tx_in) + text_bytes(", fee: ")
        + decimal_bytes(t.fee as nat) + text_bytes(", signature: ") + byte_list_bytes(t.signature)
        + text_bytes(" }")
}

/// The total amount of the unspent outputs that inputs spend, each looked up
/// by id; inputs whose id is not found count nothing.
pub open spec fn input_total(ins: Seq<TransactionIn>, unspent: Seq<UnspentTransaction>) -> int
    decreases ins.len(),
{
    if ins.len() == 0 {
        0
    } else {
        input_total(ins.drop_last(), unspent) + match find_amount(
            unspent,
            ins.last().unspent_id,
        ) {
            Some(a) => a as int,
            None => 0,
        }
    }
}

/// Whether every input spends an unspent output that exists.
pub open spec fn all_inputs_found(ins: Seq<TransactionIn>, unspent: Seq<UnspentTransaction>) -> bool {
    forall|i: int| 0 <= i < ins.len() ==> (#[trigger] find_amount(unspent, ins[i].unspent_id)) is Some
}

/// Whether every output pays a usable address.
pub open spec fn all_outs_valid(out: Seq<TransactionOut>) -> bool {
    forall|i: int| 0 <= i < out.len() ==> spec_is_valid_public_key(#[trigger] out[i].address.der@)
}

/// Whether the signature of a transaction verifies under its sender.
pub open spec fn spec_signature_ok(t: TransactionV) -> bool {
    spec_verifies(t.sender.der@, spec_signing_bytes(t.sender, t.out, t.tx_in), t.signature)
}

/// The rules a transaction must meet against the current unspent outputs:
/// a usable sender whose signature verifies, a positive total, usable
/// output addresses, inputs that all exist and that pay exactly the outputs
/// plus the fee.
pub open spec fn spec_transaction_valid(t: TransactionV, unspent: Seq<UnspentTransaction>) -> bool {
    &&& spec_is_valid_public_key(t.sender.der@)
    &&& spec_signature_ok(t)
    &&& sum_outs(t.out) > 0
    &&& all_outs_valid(t.out)
    &&& input_total(t.tx_in, unspent) == sum_outs(t.out) + t.fee
    &&& all_inputs_found(t.tx_in, unspent)
}

/// The unspent outputs that outputs become, numbered from `first_id`, and
/// the id after the last of them.
pub open spec fn outputs_as_unspent(out: Seq<TransactionOut>, first_id: u64) -> (Seq<UnspentTransaction>, u64)
    decreases out.len(),
{
    if out.len() == 0 {
        (Seq::empty(), first_id)
    } else {
        let (s, id) = outputs_as_unspent(out.drop_last(), first_id);
        (
            s.push(UnspentTransaction { id, address: out.last().address, amount: out.last().amount }),
            next_id(id),
        )
    }
}

/// The unspent outputs whose id is not among `spent`, in order.
pub open spec fn keep_unspent(s: Seq<UnspentTransaction>, spent: Seq<u64>) -> Seq<UnspentTransaction>
    decreases s.len(),
{
    if s.len() == 0 {
        Seq::empty()
    } else if spent.contains(s.last().id) {
        keep_unspent(s.drop_last(), spent)
    } else {
        keep_unspent(s.drop_last(), spent).push(s.last())
    }
}

/// The unspent outputs after a transaction: its outputs are added under
/// fresh ids, then every output its inputs spend is removed.
pub open spec fn spec_transaction_unspent(
    t: TransactionV,
    previous: Seq<UnspentTransaction>,
    first_id: u64,
) -> (Seq<UnspentTransaction>, u64) {
    let (added, next) = outputs_as_unspent(t.out, first_id);
    (keep_unspent(previous + added, input_ids(t.tx_in)), next)
}

/// Outputs as unspent outputs numbered `first_id`, `first_id + 1`, and so
/// on.
pub open spec fn numbered_outputs(out: Seq<TransactionOut>, first_id: u64) -> Seq<UnspentTransaction> {
    Seq::new(
        out.len(),
        |k: int| UnspentTransaction { id: (first_id + k) as u64, address: out[k].address, amount: out[k].amount },
    )
}

/// Whether an unspent output's id is not among `spent`.
pub open spec fn not_spent_by(spent: Seq<u64>) -> spec_fn(UnspentTransaction) -> bool {
    |u: UnspentTransaction| !spent.contains(u.id)
}

proof fn lemma_outputs_numbered(out: Seq<TransactionOut>, first_id: u64)
    requires
        first_id + out.len() <= u64::MAX,
    ensures
        outputs_as_unspent(out, first_id).0 == numbered_outputs(out, first_id),
        outputs_as_unspent(out, first_id).1 == first_id + out.len(),
    decreases out.len(),
{
    if out.len() > 0 {
        let d = out.drop_last();
        lemma_outputs_numbered(d, first_id);
        assert(numbered_outputs(out, first_id) =~= numbered_outputs(d, first_id).push(
            UnspentTransaction {
                id: (first_id + d.len()) as u64,
                address: out.last().address,
                amount: out.last().amount,
            },
        ));
    } else {
        assert(numbered_outputs(out, first_id) =~= Seq::<UnspentTransaction>::empty());
    }
}

proof fn lemma_keep_is_filter(s: Seq<UnspentTransaction>, spent: Seq<u64>)
    ensures
        keep_unspent(s, spent) == s.filter(not_spent_by(spent)),
    decreases s.len(),
{
    reveal(Seq::filter);
    if s.len() > 0 {
        lemma_keep_is_filter(s.drop_last(), spent);
    }
}

/// What a transaction leaves, in closed form: its outputs get the ids
/// `first_id`, `first_id + 1`, and so on, the next fresh id is `first_id`
/// plus their number, and the unspent outputs are the previous ones followed
/// by the new ones, in order, less those whose id the inputs name.
pub proof fn law_transaction_unspent_closed_form(t: TransactionV, previous: Seq<UnspentTransaction>, first_id: u64)
    requires
        first_id + t.out.len() <= u64::MAX,
    ensures
        spec_transaction_unspent(t, previous, first_id).1 == first_id + t.out.len(),
        spec_transaction_unspent(t, previous, first_id).0 == (previous + numbered_outputs(t.out, first_id)).filter(
            not_spent_by(input_ids(t.tx_in)),
        ),
{
    lemma_outputs_numbered(t.out, first_id);
    lemma_keep_is_filter(previous + numbered_outputs(t.out, first_id), input_ids(t.tx_in));
}

/// The outputs of a payment of `amount` from outputs worth `unspent_amount`:
/// the payment, then the change.
pub open spec fn spec_transaction_out_without_fee(
    sender: Address,
    recipient: Address,
    amount: u64,
    unspent_amount: u64,
) -> Seq<TransactionOut> {
    seq![
        TransactionOut { address: recipient, amount },
        TransactionOut { address: sender, amount: (unspent_amount - amount) as u64 },
    ]
}

pub proof fn lemma_sum_outs_bound(s: Seq<TransactionOut>)
    ensures
        0 <= sum_outs(s) <= s.len() * (u64::MAX as int),
    decreases s.len(),
{
    if s.len() > 0 {
        lemma_sum_outs_bound(s.drop_last());
    }
}

/// Appends an output as `Debug` writes it.
fn put_out_debug(buf: &mut Vec<u8>, o: &TransactionOut)
    ensures
        final(buf)@ == old(buf)@ + out_debug_bytes(*o),
{
    put_str(buf, "TransactionOut { address: ");
    put_pk_debug(buf, &o.address);
    put_str(buf, ", amount: ");
    put_decimal(buf, o.amount);
    put_str(buf, " }");
    assert(final(buf)@ =~= old(buf)@ + out_debug_bytes(*o));
}

/// Appends a list of outputs as `Debug` writes it.
pub(crate) fn put_outs(buf: &mut Vec<u8>, out: &[TransactionOut])
    ensures
        final(buf)@ == old(buf)@ + outs_debug_bytes(out@),
{
    let ghost items = out@.map_values(|o: TransactionOut| out_debug_bytes(o));
    buf.push(91u8);
    let ghost start = buf@;
    let mut i: usize = 0;
    while i < out.len()
        invariant
            i <= out@.len(),
            items == out@.map_values(|o: TransactionOut| out_debug_bytes(o)),
            buf@ == start + joined_bytes(items.take(i as int)),
        decreases out@.len() - i,
    {
        proof {
            lemma_joined_push(items.take(i as int), items[i as int]);
            assert(items.take(i + 1) =~= items.take(i as int).push(items[i as int]));
        }
        if i > 0 {
            buf.push(44u8);
            buf.push(32u8);
        }
        put_out_debug(buf, &out[i]);
        assert(buf@ =~= start + joined_bytes(items.take(i + 1)));
        i = i + 1;
    }
    assert(items.take(i as int) =~= items);
    buf.push(93u8);
    assert(final(buf)@ =~= old(buf)@ + outs_debug_bytes(out@));
}

/// Appends an input as `Debug` writes it.
fn put_in_debug(buf: &mut Vec<u8>, i: &TransactionIn)
    ensures
        final(buf)@ == old(buf)@ + in_debug_bytes(*i),
{
    put_str(buf, "TransactionIn { unspent_id: ");
    put_decimal(buf, i.unspent_id);
    put_str(buf, " }");
    assert(final(buf)@ =~= old(buf)@ + in_debug_bytes(*i));
}

/// Appends a list of inputs as `Debug` writes it.
pub(crate) fn put_ins(buf: &mut Vec<u8>, tx_in: &[TransactionIn])
    ensures
        final(buf)@ == old(buf)@ + ins_debug_bytes(tx_in@),
{
    let ghost items = tx_in@.map_values(|i: TransactionIn| in_debug_bytes(i));
    buf.push(91u8);
    let ghost start = buf@;
    let mut i: usize = 0;
    while i < tx_in.len()
        invariant
            i <= tx_in@.len(),
            items == tx_in@.map_values(|i: TransactionIn| in_debug_bytes(i)),
            buf@ == start + joined_bytes(items.take(i as int)),
        decreases tx_in@.len() - i,
    {
        proof {
            lemma_joined_push(items.take(i as int), items[i as int]);
            assert(items.take(i + 1) =~= items.take(i as int).push(items[i as int]));
        }
        if i > 0 {
            buf.push(44u8);
            buf.push(32u8);
        }
        put_in_debug(buf, &tx_in[i]);
        assert(buf@ =~= start + joined_bytes(items.take(i + 1)));
        i = i + 1;
    }
    assert(items.take(i as int) =~= items);
    buf.push(93u8);
    assert(final(buf)@ =~= old(buf)@ + ins_debug_bytes(tx_in@));
}

/// Appends a transaction as `Debug` writes it.
pub(crate) fn put_transaction_debug(buf: &mut Vec<u8>, t: &Transaction)
    ensures
        final(buf)@ == old(buf)@ + transaction_debug_bytes(t@),
{
    put_str(buf, "Transaction { sender: ");
    put_pk_debug(buf, &t.sender);
    put_str(buf, ", out: ");
    put_outs(buf, t.out.as_slice());
    put_str(buf, ", tx_in: ");
    put_ins(buf, t.tx_in.as_slice());
    put_str(buf, ", fee: ");
    put_decimal(buf, t.fee);
    put_str(buf, ", signature: ");
    put_byte_list(buf, t.signature.as_slice());
    put_str(buf, " }");
    assert(final(buf)@ =~= old(buf)@ + transaction_debug_bytes(t@));
}

/// The bytes a transaction's signature covers.
pub(crate) fn transaction_to_buf_for_signature(sender: &Address, out: &[TransactionOut], tx_in: &[TransactionIn]) -> (res:
    Vec<u8>)
    ensures
        res@ == spec_signing_bytes(*sender, out@, tx_in@),
{
    let mut buf: Vec<u8> = Vec::new();
    put_raw(&mut buf, sender.der.as_str().as_bytes());
    put_outs(&mut buf, out);
    put_ins(&mut buf, tx_in);
    assert(buf@ =~= spec_signing_bytes(*sender, out@, tx_in@));
    buf
}

/// Signs the bytes a transaction's signature covers.
pub(crate) fn create_transaction_signature(
    sender: &Address,
    out: &[TransactionOut],
    tx_in: &[TransactionIn],
    sk: &SK,
) -> (res: Result<Signature, KeyError>)
    ensures
        match res {
            Ok(s) => spec_signature_by(sk.der@, spec_signing_bytes(*sender, out@, tx_in@)) == Some(s@) && (
            spec_public_key_of(sk.der@) == Some(sender.der@) ==> spec_verifies(
                sender.der@,
                spec_signing_bytes(*sender, out@, tx_in@),
                s@,
            )),
            Err(_) => spec_signature_by(sk.der@, spec_signing_bytes(*sender, out@, tx_in@)) is None,
        },
{
    let data = transaction_to_buf_for_signature(sender, out, tx_in);
    sk.sign(data.as_slice())
}

impl Transaction {
    /// A transaction from its parts.
    pub fn new(
        sender: Address,
        out: Vec<TransactionOut>,
        tx_in: Vec<TransactionIn>,
        fee: u64,
        signature: Signature,
    ) -> (res: Self)
        ensures
            res@ == (TransactionV { sender, out: out@, tx_in: tx_in@, fee, signature: signature@ }),
    {
        Transaction { sender, out, tx_in, fee, signature }
    }

    /// A transaction without fee, signed with `sk`; an error when signing
    /// fails.
    pub fn new_with_creating_signature(
        sender: &Address,
        out: Vec<TransactionOut>,
        tx_in: Vec<TransactionIn>,
        sk: &SK,
    ) -> (res: Result<Self, KeyError>)
        ensures
            match res {
                Ok(t) => t.sender == *sender && t.out@ == out@ && t.tx_in@ == tx_in@ && t.fee == 0
                    && spec_signature_by(sk.der@, spec_signing_bytes(*sender, out@, tx_in@))
                    == Some(t.signature@) && (spec_public_key_of(sk.der@) == Some(sender.der@)
                    ==> spec_signature_ok(t@)),
                Err(_) => spec_signature_by(sk.der@, spec_signing_bytes(*sender, out@, tx_in@))
                    is None,
            },
    {
        let signature = create_transaction_signature(sender, out.as_slice(), tx_in.as_slice(), sk)?;
        Ok(Transaction { sender: sender.clone(), out, tx_in, fee: 0, signature })
    }

    /// Whether the signature verifies under the sender, who must be a usable
    /// public key.
    pub fn verify_signature(&self) -> (res: bool)
        requires
            spec_is_valid_public_key(self.sender.der@),
        ensures
            res == spec_signature_ok(self@),
    {
        let data = transaction_to_buf_for_signature(&self.sender, self.out.as_slice(), self.tx_in.as_slice());
        self.sender.verify(data.as_slice(), self.signature.as_slice())
    }

    /// The text of this transaction: the sender, an arrow, the addresses it
    /// pays separated by commas, a colon and the total amount in decimal.
    pub fn to_text(&self) -> (res: String)
        ensures
            res@ == spec_transaction_text(self@),
    {
        let mut s = String::new();
        string_push_str(&mut s, self.sender.der.as_str());
        string_push(&mut s, ' ');
        string_push(&mut s, '-');
        string_push(&mut s, '>');
        string_push(&mut s, ' ');
        let ghost head = s@;
        let mut i: usize = 0;
        while i < self.out.len()
            invariant
                i <= self.out@.len(),
                s@ == head + spec_joined_addresses(self.out@.take(i as int)),
            decreases self.out@.len() - i,
        {
            if i > 0 {
                string_push(&mut s, ',');
                string_push(&mut s, ' ');
            }
            string_push_str(&mut s, self.out[i].address.der.as_str());
            proof {
                let t = self.out@.take(i + 1);
                assert(t.drop_last() =~= self.out@.take(i as int));
            }
            i = i + 1;
        }
        assert(self.out@.take(i as int) =~= self.out@);
        string_push(&mut s, ':');
        string_push(&mut s, ' ');
        push_decimal(&mut s, self.total_amount());
        assert(s@ =~= spec_transaction_text(self@));
        s
    }

    /// The total amount of the outputs (capped at the largest 64-bit value).
    pub fn total_amount(&self) -> (res: u64)
        ensures
            res == saturate(sum_outs(self.out@)),
    {
        let total = self.total_output_amount();
        if total > u64::MAX as u128 {
            u64::MAX
        } else {
            total as u64
        }
    }

    /// The exact total amount of the outputs.
    fn total_output_amount(&self) -> (res: u128)
        ensures
            res == sum_outs(self.out@),
            res <= self.out@.len() * (u64::MAX as int),
    {
        let mut total: u128 = 0;
        let mut i: usize = 0;
        while i < self.out.len()
            invariant
                i <= self.out@.len(),
                total == sum_outs(self.out@.take(i as int)),
            decreases self.out@.len() - i,
        {
            proof {
                assert(self.out@.take(i + 1).drop_last() =~= self.out@.take(i as int));
                lemma_sum_outs_bound(self.out@.take(i + 1));
                assert((i + 1) * (u64::MAX as int) < u128::MAX) by (nonlinear_arith)
                    requires
                        i < usize::MAX,
                ;
            }
            total = total + self.out[i].amount as u128;
            i = i + 1;
        }
        assert(self.out@.take(i as int) =~= self.out@);
        proof {
            lemma_sum_outs_bound(self.out@);
        }
        total
    }

    /// The total amount of the unspent outputs the inputs spend (inputs whose
    /// id is not found count nothing).
    fn calc_total_input_amount(&self, unspent_transactions: &[UnspentTransaction]) -> (res: u128)
        ensures
            res == input_total(self.tx_in@, unspent_transactions@),
    {
        let mut total: u128 = 0;
        let mut i: usize = 0;
        while i < self.tx_in.len()
            invariant
                i <= self.tx_in@.len(),
                total == input_total(self.tx_in@.take(i as int), unspent_transactions@),
                total <= i * (u64::MAX as int),
            decreases self.tx_in@.len() - i,
        {
            assert(self.tx_in@.take(i + 1).drop_last() =~= self.tx_in@.take(i as int));
            proof {
                assert((i + 1) * (u64::MAX as int) < u128::MAX) by (nonlinear_arith)
                    requires
                        i < usize::MAX,
                ;
            }
            match self.tx_in[i].get_amount(unspent_transactions) {
                Some(a) => {
                    total = total + a as u128;
                },
                None => {},
            }
            i = i + 1;
        }
        assert(self.tx_in@.take(i as int) =~= self.tx_in@);
        total
    }

    /// Whether every input spends an existing unspent output.
    fn all_inputs_exist(&self, unspent_transactions: &[UnspentTransaction]) -> (res: bool)
        ensures
            res == all_inputs_found(self.tx_in@, unspent_transactions@),
    {
        let mut i: usize = 0;
        while i < self.tx_in.len()
            invariant
                i <= self.tx_in@.len(),
                forall|j: int|
                    0 <= j < i ==> (#[trigger] find_amount(
                        unspent_transactions@,
                        self.tx_in@[j].unspent_id,
                    )) is Some,
            decreases self.tx_in@.len() - i,
        {
            if self.tx_in[i].get_amount(unspent_transactions).is_none() {
                return false;
            }
            i = i + 1;
        }
        true
    }

    /// Whether every output pays a usable address.
    fn all_outputs_valid(&self) -> (res: bool)
        ensures
            res == all_outs_valid(self.out@),
    {
        let mut i: usize = 0;
        while i < self.out.len()
            invariant
                i <= self.out@.len(),
                forall|j: int| 0 <= j < i ==> spec_is_valid_public_key(#[trigger] self.out@[j].address.der@),
            decreases self.out@.len() - i,
        {
            if !is_valid_address(&self.out[i].address) {
                return false;
            }
            i = i + 1;
        }
        true
    }

    /// The unspent outputs after this transaction, starting from `previous`
    /// with fresh ids from `first_id`: the outputs are added, then every
    /// output the inputs spend is removed. Also returns the next fresh id.
    pub fn get_unspent_transactions(&self, previous: (Vec<UnspentTransaction>, u64)) -> (res: (
        Vec<UnspentTransaction>,
        u64,
    ))
        ensures
            (res.0@, res.1) == spec_transaction_unspent(self@, previous.0@, previous.1),
    {
        let (mut unspent, first_id) = previous;
        let ghost prev = unspent@;
        let mut id = first_id;
        let mut i: usize = 0;
        while i < self.out.len()
            invariant
                i <= self.out@.len(),
                (unspent@, id) == ({
                    let (added, next) = outputs_as_unspent(self.out@.take(i as int), first_id);
                    (prev + added, next)
                }),
            decreases self.out@.len() - i,
        {
            let (u, next) = self.out[i].to_unspent(id);
            unspent.push(u);
            proof {
                assert(self.out@.take(i + 1).drop_last() =~= self.out@.take(i as int));
                let (added, _) = outputs_as_unspent(self.out@.take(i as int), first_id);
                assert(unspent@ =~= prev + added.push(u));
            }
            id = next;
            i = i + 1;
        }
        assert(self.out@.take(i as int) =~= self.out@);
        let spent = crate::blockchain::utxo::ids_of_inputs(&self.tx_in);
        let kept = retain_unspent(&unspent, &spent);
        (kept, id)
    }

    /// Whether this transaction meets the rules against the unspent outputs:
    /// usable sender with a verifying signature, positive total, usable
    /// output addresses, and existing inputs paying exactly the outputs plus
    /// the fee.
    pub fn is_valid(&self, unspent_transactions: &[UnspentTransaction]) -> (res: bool)
        ensures
            res == spec_transaction_valid(self@, unspent_transactions@),
    {
        if !is_valid_address(&self.sender) {
            return false;
        }
        if !self.verify_signature() {
            return false;
        }
        let total = self.total_output_amount();
        if total == 0 || !self.all_outputs_valid() {
            return false;
        }
        let n = self.out.len();
        proof {
            assert(n * (u64::MAX as int) + u64::MAX < u128::MAX) by (nonlinear_arith)
                requires
                    n <= usize::MAX,
            ;
        }
        let input = self.calc_total_input_amount(unspent_transactions);
        input == total + self.fee as u128 && self.all_inputs_exist(unspent_transactions)
    }
}

/// Whether `id` occurs in `ids`.
pub(crate) fn contains_id(ids: &Vec<u64>, id: u64) -> (res: bool)
    ensures
        res == ids@.contains(id),
{
    let mut i: usize = 0;
    while i < ids.len()
        invariant
            i <= ids@.len(),
            forall|j: int| 0 <= j < i ==> ids@[j] != id,
        decreases ids@.len() - i,
    {
        if ids[i] == id {
            assert(ids@[i as int] == id);
            return true;
        }
        i = i + 1;
    }
    false
}

/// The unspent outputs whose id is not among `spent`, in order.
pub(crate) fn retain_unspent(s: &Vec<UnspentTransaction>, spent: &Vec<u64>) -> (res: Vec<UnspentTransaction>)
    ensures
        res@ == keep_unspent(s@, spent@),
{
    let mut kept: Vec<UnspentTransaction> = Vec::new();
    let mut i: usize = 0;
    while i < s.len()
        invariant
            i <= s@.len(),
            kept@ == keep_unspent(s@.take(i as int), spent@),
        decreases s@.len() - i,
    {
        assert(s@.take(i + 1).drop_last() =~= s@.take(i as int));
        if !contains_id(spent, s[i].id) {
            kept.push(s[i].clone());
        }
        i = i + 1;
    }
    assert(s@.take(i as int) =~= s@);
    kept
}

/// The outputs of a payment of `amount` to `recipient` paid from outputs
/// worth `unspent_amount`: the payment, then the change back to `sender`.
pub fn get_transaction_out(
    sender: &Address,
    recipient: &Address,
    amount: u64,
    unspent_amount: u64,
) -> (res: Vec<TransactionOut>)
    requires
        amount <= unspent_amount,
    ensures
        res@ == spec_transaction_out_without_fee(*sender, *recipient, amount, unspent_amount),
{
    let change = unspent_amount - amount;
    let v = vec![
        TransactionOut { address: recipient.clone(), amount },
        TransactionOut { address: sender.clone(), amount: change },
    ];
    assert(v@ =~= spec_transaction_out_without_fee(*sender, *recipient, amount, unspent_amount));
    v
}

/// The shortest prefix of `unspent_transactions` whose total reaches
/// `target_amount`, or all of them when none does.
pub fn flex_unspent_transactions(target_amount: u64, unspent_transactions: Vec<UnspentTransaction>) -> (res: Vec<
    UnspentTransaction,
>)
    ensures
        res@ == unspent_transactions@.take(shortest_reaching(unspent_transactions@, target_amount as int)),
{
    take_until_reaching(target_amount, &unspent_transactions).1
}

} // verus!
