use vstd::prelude::*;

use crate::blockchain::address::{same_address, Address};
use crate::util::text::{push_decimal, spec_decimal, string_push, string_push_str};

verus! {

/// One output of a transaction: an amount paid to an address.
#[derive(Debug, PartialEq, Eq)]
pub struct TransactionOut {
    pub address: Address,
    pub amount: u64,
}

/// One input of a transaction: the id of the unspent output it spends.
#[derive(Debug, PartialEq, Eq)]
pub struct TransactionIn {
    pub unspent_id: u64,
}

/// An output that no transaction has spent yet, under the id it got when
/// it was created.
#[derive(Debug, PartialEq, Eq)]
pub struct UnspentTransaction {
    pub id: u64,
    pub address: Address,
    pub amount: u64,
}

impl Clone for TransactionOut {
    fn clone(&self) -> (res: Self)
        ensures
            res == *self,
    {
        TransactionOut { address: self.address.clone(), amount: self.amount }
    }
}

impl Clone for TransactionIn {
    fn clone(&self) -> (res: Self)
        ensures
            res == *self,
    {
        TransactionIn { unspent_id: self.unspent_id }
    }
}

impl Clone for UnspentTransaction {
    fn clone(&self) -> (res: Self)
        ensures
            res == *self,
    {
        UnspentTransaction { id: self.id, address: self.address.clone(), amount: self.amount }
    }
}

/// The id after `id`; ids stop growing at the largest 64-bit value.
pub open spec fn next_id(id: u64) -> u64 {
    if id < u64::MAX {
        (id + 1) as u64
    } else {
        id
    }
}

/// An integer capped at the largest 64-bit value.
pub open spec fn saturate(x: int) -> u64 {
    if x > u64::MAX {
        u64::MAX
    } else if x < 0 {
        0
    } else {
        x as u64
    }
}

/// The total amount of unspent outputs.
pub open spec fn sum_unspent(s: Seq<UnspentTransaction>) -> int
    decreases s.len(),
{
    if s.len() == 0 {
        0
    } else {
        sum_unspent(s.drop_last()) + s.last().amount
    }
}

/// The amount of the first unspent output with the given id.
pub open spec fn find_amount(s: Seq<UnspentTransaction>, id: u64) -> Option<u64>
    decreases s.len(),
{
    if s.len() == 0 {
        None
    } else if s[0].id == id {
        Some(s[0].amount)
    } else {
        find_amount(s.skip(1), id)
    }
}

/// The length of the shortest prefix of `s` whose total reaches `target`,
/// scanning from index `i`; the whole of `s` when no prefix reaches it.
pub open spec fn shortest_reaching_from(s: Seq<UnspentTransaction>, target: int, i: int) -> int
    decreases s.len() - i,
{
    if i >= s.len() || sum_unspent(s.take(i)) >= target {
        i
    } else {
        shortest_reaching_from(s, target, i + 1)
    }
}

/// The length of the shortest prefix of `s` whose total reaches `target`
/// (all of `s` when none does).
pub open spec fn shortest_reaching(s: Seq<UnspentTransaction>, target: int) -> int {
    shortest_reaching_from(s, target, 0)
}

/// The unspent outputs chosen to pay `target`: the shortest prefix that
/// reaches it, or nothing when all of them together fall short.
pub open spec fn spec_flex_unspent(s: Seq<UnspentTransaction>, target: int) -> Seq<UnspentTransaction> {
    let k = shortest_reaching(s, target);
    if sum_unspent(s.take(k)) >= target {
        s.take(k)
    } else {
        Seq::empty()
    }
}

/// The two outputs of a payment: the amount to the recipient and the change
/// back to the sender.
pub open spec fn spec_transaction_out(
    sender: Address,
    recipient: Address,
    send_amount: u64,
    fee: u64,
    unspent_amount: u64,
) -> Seq<TransactionOut> {
    seq![
        TransactionOut { address: recipient, amount: send_amount },
        TransactionOut { address: sender, amount: (unspent_amount - send_amount - fee) as u64 },
    ]
}

/// The ids that a sequence of inputs spends.
pub open spec fn input_ids(ins: Seq<TransactionIn>) -> Seq<u64> {
    ins.map_values(|i: TransactionIn| i.unspent_id)
}

pub proof fn lemma_sum_unspent_take_step(s: Seq<UnspentTransaction>, i: int)
    requires
        0 <= i < s.len(),
    ensures
        sum_unspent(s.take(i + 1)) == sum_unspent(s.take(i)) + s[i].amount,
{
    assert(s.take(i + 1).drop_last() =~= s.take(i));
}

pub proof fn lemma_sum_unspent_nonneg(s: Seq<UnspentTransaction>)
    ensures
        0 <= sum_unspent(s) <= s.len() * (u64::MAX as int),
    decreases s.len(),
{
    if s.len() > 0 {
        lemma_sum_unspent_nonneg(s.drop_last());
    }
}

proof fn lemma_shortest_reaching_is(s: Seq<UnspentTransaction>, target: int, i: int, k: int)
    requires
        0 <= i <= k <= s.len(),
        forall|j: int| i <= j < k ==> sum_unspent(#[trigger] s.take(j)) < target,
        k == s.len() || sum_unspent(s.take(k)) >= target,
    ensures
        shortest_reaching_from(s, target, i) == k,
    decreases k - i,
{
    if i < k {
        lemma_shortest_reaching_is(s, target, i + 1, k);
    }
}

/// The chosen outputs are the shortest prefix that pays `target`: every
/// shorter prefix falls short of it, and the prefix itself reaches it unless
/// it is the whole sequence.
pub proof fn law_flex_picks_shortest_prefix(s: Seq<UnspentTransaction>, target: int)
    ensures
        0 <= shortest_reaching(s, target) <= s.len(),
        forall|j: int|
            0 <= j < shortest_reaching(s, target) ==> sum_unspent(#[trigger] s.take(j)) < target,
        shortest_reaching(s, target) == s.len() || sum_unspent(
            s.take(shortest_reaching(s, target)),
        ) >= target,
{
    lemma_shortest_reaching_bounds(s, target, 0);
}

proof fn lemma_shortest_reaching_bounds(s: Seq<UnspentTransaction>, target: int, i: int)
    requires
        0 <= i <= s.len(),
    ensures
        i <= shortest_reaching_from(s, target, i) <= s.len(),
        forall|j: int|
            i <= j < shortest_reaching_from(s, target, i) ==> sum_unspent(#[trigger] s.take(j))
                < target,
        shortest_reaching_from(s, target, i) == s.len() || sum_unspent(
            s.take(shortest_reaching_from(s, target, i)),
        ) >= target,
    decreases s.len() - i,
{
    if i < s.len() && sum_unspent(s.take(i)) < target {
        lemma_shortest_reaching_bounds(s, target, i + 1);
    }
}

/// The text of an output: its address, a colon, a space and its amount.
pub open spec fn spec_out_text(o: TransactionOut) -> Seq<char> {
    o.address.der@ + seq![':', ' '] + spec_decimal(o.amount as nat)
}

impl TransactionOut {
    /// The text of this output: its address, a colon, a space and its
    /// amount in decimal.
    pub fn to_text(&self) -> (res: String)
        ensures
            res@ == spec_out_text(*self),
    {
        let mut s = String::new();
        string_push_str(&mut s, self.address.der.as_str());
        string_push(&mut s, ':');
        string_push(&mut s, ' ');
        push_decimal(&mut s, self.amount);
        assert(s@ =~= spec_out_text(*self));
        s
    }

    /// This output as an unspent output with id `id`, and the id after it.
    pub fn to_unspent(&self, id: u64) -> (res: (UnspentTransaction, u64))
        ensures
            res.0 == (UnspentTransaction { id, address: self.address, amount: self.amount }),
            res.1 == next_id(id),
    {
        let next = if id < u64::MAX {
            id + 1
        } else {
            id
        };
        (UnspentTransaction { id, address: self.address.clone(), amount: self.amount }, next)
    }
}

impl TransactionIn {
    /// The amount of the unspent output this input spends, looked up by id;
    /// `None` when no unspent output has that id.
    pub fn get_amount(&self, unspent_transactions: &[UnspentTransaction]) -> (res: Option<u64>)
        ensures
            res == find_amount(unspent_transactions@, self.unspent_id),
    {
        let mut i: usize = 0;
        assert(unspent_transactions@.skip(0) =~= unspent_transactions@);
        while i < unspent_transactions.len()
            invariant
                i <= unspent_transactions@.len(),
                find_amount(unspent_transactions@, self.unspent_id) == find_amount(
                    unspent_transactions@.skip(i as int),
                    self.unspent_id,
                ),
            decreases unspent_transactions@.len() - i,
        {
            let ghost rest = unspent_transactions@.skip(i as int);
            if unspent_transactions[i].id == self.unspent_id {
                assert(rest[0] == unspent_transactions@[i as int]);
                return Some(unspent_transactions[i].amount);
            }
            assert(rest.skip(1) =~= unspent_transactions@.skip(i + 1));
            i = i + 1;
        }
        None
    }
}

impl UnspentTransaction {
    /// The input that spends this output.
    pub fn to_txin(&self) -> (res: TransactionIn)
        ensures
            res.unspent_id == self.id,
    {
        TransactionIn { unspent_id: self.id }
    }
}

/// The outputs of a payment of `send_amount` to `recipient` paid from
/// outputs worth `unspent_amount`: the payment, then the change (what is left
/// after the payment and the fee) back to `sender`.
pub fn get_transaction_out(
    sender: &Address,
    recipient: &Address,
    send_amount: u64,
    fee: u64,
    unspent_amount: u64,
) -> (res: Vec<TransactionOut>)
    requires
        send_amount + fee <= unspent_amount,
    ensures
        res@ == spec_transaction_out(*sender, *recipient, send_amount, fee, unspent_amount),
{
    let change = unspent_amount - send_amount - fee;
    let v = vec![
        TransactionOut { address: recipient.clone(), amount: send_amount },
        TransactionOut { address: sender.clone(), amount: change },
    ];
    assert(v@ =~= spec_transaction_out(*sender, *recipient, send_amount, fee, unspent_amount));
    v
}

/// The shortest prefix of `unspent_transactions` whose total reaches
/// `target_amount` (the one found by scanning in order), or nothing when all
/// of them together fall short.
pub fn flex_unspent_transactions(target_amount: u64, unspent_transactions: Vec<UnspentTransaction>) -> (res: Vec<
    UnspentTransaction,
>)
    ensures
        res@ == spec_flex_unspent(unspent_transactions@, target_amount as int),
{
    let (amount, taken) = take_until_reaching(target_amount, &unspent_transactions);
    if amount < target_amount as u128 {
        return Vec::new();
    }
    taken
}

/// Scans `s` in order, taking outputs until their total reaches `target`;
/// returns the total taken and the outputs taken.
pub(crate) fn take_until_reaching(target: u64, s: &Vec<UnspentTransaction>) -> (res: (u128, Vec<UnspentTransaction>))
    ensures
        res.1@ == s@.take(shortest_reaching(s@, target as int)),
        res.0 == sum_unspent(res.1@),
{
    let mut amount: u128 = 0;
    let mut taken: Vec<UnspentTransaction> = Vec::new();
    let mut i: usize = 0;
    while i < s.len() && amount < target as u128
        invariant
            i <= s@.len(),
            taken@ == s@.take(i as int),
            amount == sum_unspent(s@.take(i as int)),
            forall|j: int| 0 <= j < i ==> sum_unspent(#[trigger] s@.take(j)) < target,
        decreases s@.len() - i,
    {
        proof {
            lemma_sum_unspent_take_step(s@, i as int);
            lemma_sum_unspent_nonneg(s@.take(i + 1));
            assert(s@.take(i + 1).len() == i + 1);
            assert((i + 1) * (u64::MAX as int) < u128::MAX) by (nonlinear_arith)
                requires
                    i < usize::MAX,
            ;
        }
        amount = amount + s[i].amount as u128;
        taken.push(s[i].clone());
        assert(taken@ =~= s@.take(i + 1));
        i = i + 1;
    }
    proof {
        lemma_shortest_reaching_is(s@, target as int, 0, i as int);
    }
    (amount, taken)
}

/// The ids that a transaction's inputs spend.
pub fn transaction_to_unspent_ids(transaction: &crate::blockchain::transaction::Transaction) -> (res: Vec<u64>)
    ensures
        res@ == input_ids(transaction.tx_in@),
{
    ids_of_inputs(&transaction.tx_in)
}

/// The ids that a sequence of inputs spends.
pub(crate) fn ids_of_inputs(ins: &Vec<TransactionIn>) -> (res: Vec<u64>)
    ensures
        res@ == input_ids(ins@),
{
    let mut ids: Vec<u64> = Vec::new();
    let mut i: usize = 0;
    while i < ins.len()
        invariant
            i <= ins@.len(),
            ids@ == input_ids(ins@.take(i as int)),
        decreases ins@.len() - i,
    {
        ids.push(ins[i].unspent_id);
        i = i + 1;
        assert(ids@ =~= input_ids(ins@.take(i as int)));
    }
    assert(ins@.take(i as int) =~= ins@);
    ids
}

/// The ids spent by the inputs of a sequence of transactions, in order.
pub open spec fn all_input_ids(txs: Seq<crate::blockchain::transaction::TransactionV>) -> Seq<u64>
    decreases txs.len(),
{
    if txs.len() == 0 {
        Seq::empty()
    } else {
        all_input_ids(txs.drop_last()) + input_ids(txs.last().tx_in)
    }
}

/// The ids spent by the inputs of the transactions, in order.
pub fn transactions_to_unspent_ids(transactions: &[crate::blockchain::transaction::Transaction]) -> (res: Vec<u64>)
    ensures
        res@ == all_input_ids(crate::blockchain::transaction::txs_view(transactions@)),
{
    let mut ids: Vec<u64> = Vec::new();
    let mut i: usize = 0;
    while i < transactions.len()
        invariant
            i <= transactions@.len(),
            ids@ == all_input_ids(crate::blockchain::transaction::txs_view(transactions@.take(i as int))),
        decreases transactions@.len() - i,
    {
        let more = ids_of_inputs(&transactions[i].tx_in);
        let mut j: usize = 0;
        let ghost before = ids@;
        while j < more.len()
            invariant
                j <= more@.len(),
                ids@ == before + more@.take(j as int),
            decreases more@.len() - j,
        {
            ids.push(more[j]);
            j = j + 1;
            assert(ids@ =~= before + more@.take(j as int));
        }
        assert(more@.take(j as int) =~= more@);
        assert(transactions@.take(i + 1).drop_last() =~= transactions@.take(i as int));
        assert(crate::blockchain::transaction::txs_view(transactions@.take(i + 1)).drop_last() =~= crate::blockchain::transaction::txs_view(transactions@.take(i as int)));
        i = i + 1;
    }
    assert(transactions@.take(i as int) =~= transactions@);
    ids
}

pub(crate) proof fn lemma_all_input_ids_concat(
    a: Seq<crate::blockchain::transaction::TransactionV>,
    b: Seq<crate::blockchain::transaction::TransactionV>,
)
    ensures
        all_input_ids(a + b) == all_input_ids(a) + all_input_ids(b),
    decreases b.len(),
{
    if b.len() == 0 {
        assert(a + b =~= a);
        assert(all_input_ids(a) + all_input_ids(b) =~= all_input_ids(a));
    } else {
        lemma_all_input_ids_concat(a, b.drop_last());
        assert((a + b).drop_last() =~= a + b.drop_last());
        assert((a + b).last() == b.last());
        assert(all_input_ids(a) + all_input_ids(b) =~= all_input_ids(a) + all_input_ids(b.drop_last())
            + input_ids(b.last().tx_in));
    }
}

} // verus!
