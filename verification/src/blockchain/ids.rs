//! Output ids: every unspent output of a chain has an id of its own.
use vstd::prelude::*;

use crate::blockchain::block::{spec_block_unspent, sum_fees, txs_unspent, BlockV};
use crate::blockchain::chain::{
    blocks_unspent, inputs_spending, owned_by, select_by_ids, spec_chain_unspent, spec_payment_plan,
};
use crate::blockchain::transaction::{
    input_total, keep_unspent, outputs_as_unspent, spec_transaction_unspent, sum_outs, all_inputs_found,
    TransactionV,
};
use crate::blockchain::utxo::{
    all_input_ids, find_amount, input_ids, saturate, spec_flex_unspent, sum_unspent, TransactionOut,
    UnspentTransaction,
};
use crate::blockchain::address::{same_address, Address};

verus! {

/// Whether ids rise strictly along the outputs (so no id occurs twice).
pub open spec fn ids_increasing(s: Seq<UnspentTransaction>) -> bool {
    forall|i: int, j: int| 0 <= i < j < s.len() ==> s[i].id < s[j].id
}

/// Whether every id is below `next`.
pub open spec fn ids_below(s: Seq<UnspentTransaction>, next: u64) -> bool {
    forall|i: int| 0 <= i < s.len() ==> s[i].id < next
}

/// Whether every id is at least `first`.
pub open spec fn ids_from(s: Seq<UnspentTransaction>, first: u64) -> bool {
    forall|i: int| 0 <= i < s.len() ==> first <= s[i].id
}

/// Whether ids rise strictly and stay below `next`: the outputs that are
/// numbered before `next` is handed out.
pub open spec fn ids_fresh(s: Seq<UnspentTransaction>, next: u64) -> bool {
    ids_increasing(s) && ids_below(s, next)
}

pub(crate) proof fn lemma_outputs_fresh(out: Seq<TransactionOut>, first: u64)
    ensures
        outputs_as_unspent(out, first).1 >= first,
        outputs_as_unspent(out, first).0.len() == out.len(),
        outputs_as_unspent(out, first).1 < u64::MAX ==> ids_fresh(
            outputs_as_unspent(out, first).0,
            outputs_as_unspent(out, first).1,
        ) && ids_from(outputs_as_unspent(out, first).0, first),
    decreases out.len(),
{
    if out.len() > 0 {
        lemma_outputs_fresh(out.drop_last(), first);
    }
}

pub(crate) proof fn lemma_keep_fresh(s: Seq<UnspentTransaction>, spent: Seq<u64>, next: u64)
    requires
        ids_fresh(s, next),
    ensures
        ids_fresh(keep_unspent(s, spent), next),
        forall|k: int|
            0 <= k < keep_unspent(s, spent).len() ==> s.contains(#[trigger] keep_unspent(s, spent)[k])
                && !spent.contains(keep_unspent(s, spent)[k].id),
    decreases s.len(),
{
    if s.len() > 0 {
        let d = s.drop_last();
        let l = s.last();
        assert(ids_fresh(d, l.id));
        lemma_keep_fresh(d, spent, l.id);
        let kd = keep_unspent(d, spent);
        assert forall|k: int| 0 <= k < kd.len() implies s.contains(#[trigger] kd[k]) by {
            let j = choose|j: int| 0 <= j < d.len() && d[j] == kd[k];
            assert(s[j] == kd[k]);
        }
        assert(s[s.len() - 1] == l);
    }
}

pub(crate) proof fn lemma_concat_fresh(prev: Seq<UnspentTransaction>, added: Seq<UnspentTransaction>, first: u64, next: u64)
    requires
        ids_fresh(prev, first),
        ids_fresh(added, next),
        ids_from(added, first),
        first <= next,
    ensures
        ids_fresh(prev + added, next),
{
    let c = prev + added;
    assert forall|i: int, j: int| 0 <= i < j < c.len() implies c[i].id < c[j].id by {
        if j < prev.len() {
        } else if i >= prev.len() {
            assert(c[i] == added[i - prev.len()]);
            assert(c[j] == added[j - prev.len()]);
        } else {
            assert(c[j] == added[j - prev.len()]);
        }
    }
    assert forall|i: int| 0 <= i < c.len() implies c[i].id < next by {
        if i >= prev.len() {
            assert(c[i] == added[i - prev.len()]);
        }
    }
}

proof fn lemma_transaction_fresh(t: TransactionV, prev: Seq<UnspentTransaction>, first: u64)
    requires
        ids_fresh(prev, first),
    ensures
        spec_transaction_unspent(t, prev, first).1 >= first,
        spec_transaction_unspent(t, prev, first).1 < u64::MAX ==> ids_fresh(
            spec_transaction_unspent(t, prev, first).0,
            spec_transaction_unspent(t, prev, first).1,
        ),
{
    lemma_outputs_fresh(t.out, first);
    let (added, next) = outputs_as_unspent(t.out, first);
    if next < u64::MAX {
        lemma_concat_fresh(prev, added, first, next);
        lemma_keep_fresh(prev + added, input_ids(t.tx_in), next);
    }
}

pub(crate) proof fn lemma_txs_fresh(txs: Seq<TransactionV>, prev: Seq<UnspentTransaction>, first: u64)
    requires
        ids_fresh(prev, first),
    ensures
        txs_unspent(txs, prev, first).1 >= first,
        txs_unspent(txs, prev, first).1 < u64::MAX ==> ids_fresh(
            txs_unspent(txs, prev, first).0,
            txs_unspent(txs, prev, first).1,
        ),
    decreases txs.len(),
{
    if txs.len() > 0 {
        lemma_txs_fresh(txs.drop_last(), prev, first);
        let (s, id) = txs_unspent(txs.drop_last(), prev, first);
        if id < u64::MAX {
            lemma_transaction_fresh(txs.last(), s, id);
        } else {
            lemma_transaction_fresh_bound(txs.last(), s, id);
        }
    }
}

proof fn lemma_outputs_next_bound(out: Seq<TransactionOut>, first: u64)
    ensures
        outputs_as_unspent(out, first).1 >= first,
    decreases out.len(),
{
    if out.len() > 0 {
        lemma_outputs_next_bound(out.drop_last(), first);
    }
}

pub(crate) proof fn lemma_transaction_fresh_bound(t: TransactionV, prev: Seq<UnspentTransaction>, first: u64)
    ensures
        spec_transaction_unspent(t, prev, first).1 >= first,
{
    lemma_outputs_next_bound(t.out, first);
}

pub(crate) proof fn lemma_txs_next_bound(txs: Seq<TransactionV>, prev: Seq<UnspentTransaction>, first: u64)
    ensures
        txs_unspent(txs, prev, first).1 >= first,
    decreases txs.len(),
{
    if txs.len() > 0 {
        lemma_txs_next_bound(txs.drop_last(), prev, first);
        let (s, id) = txs_unspent(txs.drop_last(), prev, first);
        lemma_transaction_fresh_bound(txs.last(), s, id);
    }
}

pub(crate) proof fn lemma_block_fresh(b: BlockV, prev: Seq<UnspentTransaction>, first: u64)
    ensures
        spec_block_unspent(b, prev, first).1 >= first,
        ids_fresh(prev, first) && spec_block_unspent(b, prev, first).1 < u64::MAX ==> ids_fresh(
            spec_block_unspent(b, prev, first).0,
            spec_block_unspent(b, prev, first).1,
        ),
{
    lemma_txs_next_bound(b.transactions, prev, first);
    if ids_fresh(prev, first) {
        lemma_txs_fresh(b.transactions, prev, first);
    }
}

pub(crate) proof fn lemma_blocks_fresh(blocks: Seq<BlockV>, prev: Seq<UnspentTransaction>, first: u64)
    ensures
        blocks_unspent(blocks, prev, first).1 >= first,
        ids_fresh(prev, first) && blocks_unspent(blocks, prev, first).1 < u64::MAX ==> ids_fresh(
            blocks_unspent(blocks, prev, first).0,
            blocks_unspent(blocks, prev, first).1,
        ),
    decreases blocks.len(),
{
    if blocks.len() > 0 {
        lemma_blocks_fresh(blocks.drop_last(), prev, first);
        let (s, id) = blocks_unspent(blocks.drop_last(), prev, first);
        lemma_block_fresh(blocks.last(), s, id);
    }
}

/// Every unspent output of a chain has an id of its own: ids rise strictly
/// in the order the outputs were made and all lie below the next id to hand
/// out, as long as ids have not run up to the largest 64-bit value.
pub proof fn law_unspent_ids_distinct(blocks: Seq<BlockV>)
    requires
        spec_chain_unspent(blocks).1 < u64::MAX,
    ensures
        ids_fresh(spec_chain_unspent(blocks).0, spec_chain_unspent(blocks).1),
        forall|i: int, j: int|
            0 <= i < spec_chain_unspent(blocks).0.len() && 0 <= j < spec_chain_unspent(blocks).0.len()
                && i != j ==> spec_chain_unspent(blocks).0[i].id != spec_chain_unspent(blocks).0[j].id,
{
    lemma_blocks_fresh(blocks, Seq::empty(), 1);
    let s = spec_chain_unspent(blocks).0;
    assert forall|i: int, j: int| 0 <= i < s.len() && 0 <= j < s.len() && i != j implies s[i].id != s[j].id by {
        if i < j {
        } else {
        }
    }
}

/// The ids of outputs, in order.
pub open spec fn ids_of(s: Seq<UnspentTransaction>) -> Seq<u64> {
    s.map_values(|u: UnspentTransaction| u.id)
}

/// Whether every output of `c` is one of `s`.
pub open spec fn all_members(c: Seq<UnspentTransaction>, s: Seq<UnspentTransaction>) -> bool {
    forall|k: int| 0 <= k < c.len() ==> s.contains(#[trigger] c[k])
}

proof fn lemma_owned_fresh(s: Seq<UnspentTransaction>, address: Seq<char>, next: u64)
    requires
        ids_fresh(s, next),
    ensures
        ids_fresh(owned_by(s, address), next),
        all_members(owned_by(s, address), s),
    decreases s.len(),
{
    if s.len() > 0 {
        let d = s.drop_last();
        let l = s.last();
        assert(ids_fresh(d, l.id));
        lemma_owned_fresh(d, address, l.id);
        let od = owned_by(d, address);
        assert forall|k: int| 0 <= k < od.len() implies s.contains(#[trigger] od[k]) by {
            let j = choose|j: int| 0 <= j < d.len() && d[j] == od[k];
            assert(s[j] == od[k]);
        }
        assert(s[s.len() - 1] == l);
    }
}

proof fn lemma_member_id_unique(u: Seq<UnspentTransaction>, x: UnspentTransaction, j: int)
    requires
        ids_increasing(u),
        u.contains(x),
        0 <= j < u.len(),
        u[j].id == x.id,
    ensures
        u[j] == x,
{
    let k = choose|k: int| 0 <= k < u.len() && u[k] == x;
    if k < j {
    } else if j < k {
    }
}

proof fn lemma_find_amount_of_member(u: Seq<UnspentTransaction>, x: UnspentTransaction)
    requires
        ids_increasing(u),
        u.contains(x),
    ensures
        find_amount(u, x.id) == Some(x.amount),
    decreases u.len(),
{
    let k = choose|k: int| 0 <= k < u.len() && u[k] == x;
    if u[0].id == x.id {
        lemma_member_id_unique(u, x, 0);
    } else {
        assert(k > 0);
        let r = u.skip(1);
        assert(r[k - 1] == x);
        lemma_find_amount_of_member(r, x);
    }
}

proof fn lemma_inputs_of_members(c: Seq<UnspentTransaction>, u: Seq<UnspentTransaction>)
    requires
        ids_increasing(u),
        all_members(c, u),
    ensures
        input_total(inputs_spending(c), u) == sum_unspent(c),
        all_inputs_found(inputs_spending(c), u),
    decreases c.len(),
{
    let ins = inputs_spending(c);
    if c.len() > 0 {
        let d = c.drop_last();
        assert(all_members(d, u)) by {
            assert forall|k: int| 0 <= k < d.len() implies u.contains(#[trigger] d[k]) by {
                assert(d[k] == c[k]);
            }
        }
        lemma_inputs_of_members(d, u);
        assert(ins.drop_last() =~= inputs_spending(d));
        assert(u.contains(c[c.len() - 1]));
        lemma_find_amount_of_member(u, c.last());
    }
    assert forall|i: int| 0 <= i < ins.len() implies (#[trigger] find_amount(u, ins[i].unspent_id)) is Some by {
        assert(u.contains(c[i]));
        lemma_find_amount_of_member(u, c[i]);
    }
}

proof fn lemma_select_same_membership(u: Seq<UnspentTransaction>, a: Seq<u64>, b: Seq<u64>)
    requires
        forall|k: int| 0 <= k < u.len() ==> (a.contains(#[trigger] u[k].id) <==> b.contains(u[k].id)),
    ensures
        select_by_ids(u, a) == select_by_ids(u, b),
    decreases u.len(),
{
    if u.len() > 0 {
        let d = u.drop_last();
        assert forall|k: int| 0 <= k < d.len() implies (a.contains(#[trigger] d[k].id) <==> b.contains(
            d[k].id,
        )) by {
            assert(d[k] == u[k]);
        }
        lemma_select_same_membership(d, a, b);
        assert(u[u.len() - 1] == u.last());
    }
}

proof fn lemma_select_members(u: Seq<UnspentTransaction>, c: Seq<UnspentTransaction>)
    requires
        ids_increasing(u),
        ids_increasing(c),
        all_members(c, u),
    ensures
        select_by_ids(u, ids_of(c)).len() == c.len(),
    decreases u.len(),
{
    if u.len() == 0 {
        if c.len() > 0 {
            assert(u.contains(c[0]));
        }
    } else {
        let l = u.last();
        let d = u.drop_last();
        let n = u.len() - 1;
        assert(u[n] == l);
        if c.len() > 0 && c.last() == l {
            let cd = c.drop_last();
            assert(ids_of(c)[c.len() - 1] == l.id);
            assert(ids_of(c).contains(l.id));
            assert(ids_of(c) =~= ids_of(cd).push(l.id));
            assert forall|k: int| 0 <= k < d.len() implies (ids_of(c).contains(#[trigger] d[k].id)
                <==> ids_of(cd).contains(d[k].id)) by {
                assert(d[k] == u[k]);
                assert(d[k].id < l.id);
                if ids_of(c).contains(d[k].id) {
                    let i = choose|i: int| 0 <= i < ids_of(c).len() && ids_of(c)[i] == d[k].id;
                    assert(i < cd.len());
                    assert(ids_of(cd)[i] == d[k].id);
                }
                if ids_of(cd).contains(d[k].id) {
                    let i = choose|i: int| 0 <= i < ids_of(cd).len() && ids_of(cd)[i] == d[k].id;
                    assert(ids_of(c)[i] == d[k].id);
                }
            }
            lemma_select_same_membership(d, ids_of(c), ids_of(cd));
            assert forall|k: int| 0 <= k < cd.len() implies d.contains(#[trigger] cd[k]) by {
                assert(cd[k] == c[k]);
                assert(u.contains(c[k]));
                let j = choose|j: int| 0 <= j < u.len() && u[j] == c[k];
                assert(c[k].id < c[c.len() - 1].id);
                assert(j != n);
                assert(d[j] == c[k]);
            }
            assert(ids_increasing(cd)) by {
                assert forall|i: int, j: int| 0 <= i < j < cd.len() implies cd[i].id < cd[j].id by {
                    assert(cd[i] == c[i]);
                    assert(cd[j] == c[j]);
                }
            }
            lemma_select_members(d, cd);
        } else {
            assert(!ids_of(c).contains(l.id)) by {
                if ids_of(c).contains(l.id) {
                    let i = choose|i: int| 0 <= i < ids_of(c).len() && ids_of(c)[i] == l.id;
                    assert(c[i].id == l.id);
                    assert(u.contains(c[i]));
                    lemma_member_id_unique(u, c[i], n);
                    let m = c.len() - 1;
                    assert(u.contains(c[m]));
                    let j = choose|j: int| 0 <= j < u.len() && u[j] == c[m];
                    if i < m {
                        assert(c[i].id < c[m].id);
                        assert(u[j].id <= u[n].id) by {
                            if j < n {
                            }
                        }
                    }
                    assert(c.last() == c[m]);
                }
            }
            assert forall|k: int| 0 <= k < c.len() implies d.contains(#[trigger] c[k]) by {
                assert(u.contains(c[k]));
                let j = choose|j: int| 0 <= j < u.len() && u[j] == c[k];
                if j == n {
                    assert(ids_of(c)[k] == l.id);
                }
                assert(d[j] == c[k]);
            }
            lemma_select_members(d, c);
        }
    }
}

proof fn lemma_keep_member_unspent(s: Seq<UnspentTransaction>, spent: Seq<u64>, next: u64, x: UnspentTransaction)
    requires
        ids_fresh(s, next),
        keep_unspent(s, spent).contains(x),
    ensures
        !spent.contains(x.id),
        s.contains(x),
{
    lemma_keep_fresh(s, spent, next);
    let k = choose|k: int| 0 <= k < keep_unspent(s, spent).len() && keep_unspent(s, spent)[k] == x;
    assert(s.contains(keep_unspent(s, spent)[k]));
}

/// The inputs of a payment that `spec_payment_plan` settles on spend
/// outputs of the chain that no transaction of `used` spends, one output
/// per input, and pay exactly the two outputs and the fee, the payment
/// among them in full.
pub proof fn lemma_payment_plan_inputs(
    blocks: Seq<BlockV>,
    sender: Address,
    recipient: Address,
    send_amount: u64,
    used: Seq<TransactionV>,
    fee: u64,
)
    requires
        spec_chain_unspent(blocks).1 < u64::MAX,
        send_amount + fee <= u64::MAX,
        spec_payment_plan(blocks, sender, recipient, send_amount, used, fee) is Some,
    ensures
        ({
            let (out, tx_in) = spec_payment_plan(blocks, sender, recipient, send_amount, used, fee).unwrap();
            let unspent = spec_chain_unspent(blocks).0;
            let ids = input_ids(tx_in);
            &&& input_total(tx_in, unspent) == sum_outs(out) + fee
            &&& sum_outs(out) >= send_amount
            &&& all_inputs_found(tx_in, unspent)
            &&& select_by_ids(unspent, ids).len() == ids.len()
            &&& !(exists|i: int| 0 <= i < ids.len() && all_input_ids(used).contains(#[trigger] ids[i]))
        }),
{
    let amount = send_amount + fee;
    let (unspent, next) = spec_chain_unspent(blocks);
    law_unspent_ids_distinct(blocks);
    let spent = all_input_ids(used);
    let available = keep_unspent(unspent, spent);
    lemma_keep_fresh(unspent, spent, next);
    let owned = owned_by(available, sender.der@);
    lemma_owned_fresh(available, sender.der@, next);
    let chosen = spec_flex_unspent(owned, amount as int);
    let (out, tx_in) = spec_payment_plan(blocks, sender, recipient, send_amount, used, fee).unwrap();
    assert(tx_in == inputs_spending(chosen));
    let total = sum_unspent(chosen);
    assert(total >= amount);
    assert(all_members(chosen, owned) && ids_increasing(chosen)) by {
        let k = crate::blockchain::utxo::shortest_reaching(owned, amount as int);
        crate::blockchain::utxo::law_flex_picks_shortest_prefix(owned, amount as int);
        assert(chosen == owned.take(k));
        assert forall|i: int| 0 <= i < chosen.len() implies owned.contains(#[trigger] chosen[i]) by {
            assert(owned[i] == chosen[i]);
        }
    }
    assert forall|k: int| 0 <= k < chosen.len() implies unspent.contains(#[trigger] chosen[k]) && !spent.contains(
        chosen[k].id,
    ) by {
        assert(owned.contains(chosen[k]));
        let j = choose|j: int| 0 <= j < owned.len() && owned[j] == chosen[k];
        assert(available.contains(owned[j]));
        lemma_keep_member_unspent(unspent, spent, next, chosen[k]);
    }
    lemma_inputs_of_members(chosen, unspent);
    let ids = input_ids(tx_in);
    assert(ids =~= ids_of(chosen));
    lemma_select_members(unspent, chosen);
    assert(sum_outs(out) == total - fee) by {
        reveal_with_fuel(sum_outs, 3);
    }
    assert(!(exists|i: int| 0 <= i < ids.len() && spent.contains(#[trigger] ids[i]))) by {
        assert forall|i: int| 0 <= i < ids.len() implies !spent.contains(#[trigger] ids[i]) by {
            assert(ids[i] == chosen[i].id);
        }
    }
}

proof fn lemma_owned_address(s: Seq<UnspentTransaction>, address: Seq<char>)
    ensures
        forall|k: int|
            0 <= k < owned_by(s, address).len() ==> (#[trigger] owned_by(s, address)[k]).address.der@ == address,
    decreases s.len(),
{
    if s.len() > 0 {
        let d = s.drop_last();
        lemma_owned_address(d, address);
        let od = owned_by(d, address);
        let o = owned_by(s, address);
        if s.last().address.der@ == address {
            assert forall|k: int| 0 <= k < o.len() implies (#[trigger] o[k]).address.der@ == address by {
                if k < od.len() {
                    assert(o[k] == od[k]);
                }
            }
        } else {
            assert(o == od);
        }
    }
}

/// Every output that a planned payment spends is an unspent output of the
/// chain that belongs to the sender and that no transaction of `used`
/// spends already.
pub proof fn law_payment_spends_only_senders_outputs(
    blocks: Seq<BlockV>,
    sender: Address,
    recipient: Address,
    send_amount: u64,
    used: Seq<TransactionV>,
    fee: u64,
)
    requires
        spec_chain_unspent(blocks).1 < u64::MAX,
        send_amount + fee <= u64::MAX,
        spec_payment_plan(blocks, sender, recipient, send_amount, used, fee) is Some,
    ensures
        ({
            let tx_in = spec_payment_plan(blocks, sender, recipient, send_amount, used, fee).unwrap().1;
            let unspent = spec_chain_unspent(blocks).0;
            forall|k: int|
                #![trigger tx_in[k]]
                0 <= k < tx_in.len() ==> exists|j: int|
                    #![trigger unspent[j]]
                    0 <= j < unspent.len() && unspent[j].id == tx_in[k].unspent_id && same_address(
                        unspent[j].address,
                        sender,
                    ) && !all_input_ids(used).contains(unspent[j].id)
        }),
{
    let amount = send_amount + fee;
    let (unspent, next) = spec_chain_unspent(blocks);
    law_unspent_ids_distinct(blocks);
    let spent = all_input_ids(used);
    let available = keep_unspent(unspent, spent);
    lemma_keep_fresh(unspent, spent, next);
    let owned = owned_by(available, sender.der@);
    lemma_owned_fresh(available, sender.der@, next);
    lemma_owned_address(available, sender.der@);
    let chosen = spec_flex_unspent(owned, amount as int);
    let tx_in = spec_payment_plan(blocks, sender, recipient, send_amount, used, fee).unwrap().1;
    assert(tx_in == inputs_spending(chosen));
    let k0 = crate::blockchain::utxo::shortest_reaching(owned, amount as int);
    crate::blockchain::utxo::law_flex_picks_shortest_prefix(owned, amount as int);
    assert(chosen == owned.take(k0));
    assert forall|k: int| #![trigger tx_in[k]] 0 <= k < tx_in.len() implies exists|j: int|
        #![trigger unspent[j]]
        0 <= j < unspent.len() && unspent[j].id == tx_in[k].unspent_id && same_address(unspent[j].address, sender)
            && !spent.contains(unspent[j].id) by {
        let x = chosen[k];
        assert(x == owned[k]);
        assert(x.address.der@ == sender.der@);
        assert(available.contains(x));
        lemma_keep_member_unspent(unspent, spent, next, x);
        let j = choose|j: int| 0 <= j < unspent.len() && unspent[j] == x;
        assert(tx_in[k].unspent_id == x.id);
        assert(unspent[j].id == tx_in[k].unspent_id);
    }
}

proof fn lemma_select_fresh(u: Seq<UnspentTransaction>, ids: Seq<u64>, next: u64)
    requires
        ids_fresh(u, next),
    ensures
        ids_fresh(select_by_ids(u, ids), next),
        forall|k: int| 0 <= k < select_by_ids(u, ids).len() ==> ids.contains(#[trigger] select_by_ids(u, ids)[k].id),
    decreases u.len(),
{
    if u.len() > 0 {
        let d = u.drop_last();
        let l = u.last();
        assert(ids_fresh(d, l.id));
        lemma_select_fresh(d, ids, l.id);
    }
}

/// When the outputs of `u` have ids of their own and every id in `ids`
/// selects one output of `u`, no id occurs twice in `ids`.
pub proof fn lemma_selected_ids_distinct(u: Seq<UnspentTransaction>, ids: Seq<u64>, next: u64)
    requires
        ids_fresh(u, next),
        select_by_ids(u, ids).len() == ids.len(),
    ensures
        ids.no_duplicates(),
{
    let sel = select_by_ids(u, ids);
    lemma_select_fresh(u, ids, next);
    let sids = ids_of(sel);
    assert(sids.no_duplicates()) by {
        assert forall|i: int, j: int| 0 <= i < sids.len() && 0 <= j < sids.len() && i != j implies sids[i]
            != sids[j] by {
            if i < j {
                assert(sel[i].id < sel[j].id);
            } else {
                assert(sel[j].id < sel[i].id);
            }
        }
    }
    sids.unique_seq_to_set();
    assert(sids.to_set().subset_of(ids.to_set())) by {
        assert forall|x: u64| sids.to_set().contains(x) implies ids.to_set().contains(x) by {
            let k = choose|k: int| 0 <= k < sids.len() && sids[k] == x;
            assert(ids.contains(sel[k].id));
        }
    }
    vstd::set_lib::lemma_len_subset(sids.to_set(), ids.to_set());
    ids.lemma_cardinality_of_set();
    ids.lemma_no_dup_set_cardinality();
}

/// How many outputs transactions make.
pub open spec fn txs_output_count(txs: Seq<TransactionV>) -> nat
    decreases txs.len(),
{
    if txs.len() == 0 {
        0
    } else {
        txs_output_count(txs.drop_last()) + txs.last().out.len()
    }
}

/// How many outputs a block makes: those of its transactions, and the
/// output paying its fees when it has transactions.
pub open spec fn block_output_count(b: BlockV) -> nat {
    txs_output_count(b.transactions) + if b.transactions.len() > 0 {
        1nat
    } else {
        0nat
    }
}

/// How many outputs blocks make.
pub open spec fn blocks_output_count(blocks: Seq<BlockV>) -> nat
    decreases blocks.len(),
{
    if blocks.len() == 0 {
        0
    } else {
        blocks_output_count(blocks.drop_last()) + block_output_count(blocks.last())
    }
}

proof fn lemma_outputs_count(out: Seq<TransactionOut>, first: u64)
    ensures
        outputs_as_unspent(out, first).1 < u64::MAX ==> outputs_as_unspent(out, first).1 == first + out.len(),
    decreases out.len(),
{
    if out.len() > 0 {
        lemma_outputs_count(out.drop_last(), first);
    }
}

proof fn lemma_transaction_count(t: TransactionV, prev: Seq<UnspentTransaction>, first: u64, lo: u64)
    requires
        ids_fresh(prev, first),
        ids_from(prev, lo),
        lo <= first,
    ensures
        spec_transaction_unspent(t, prev, first).1 < u64::MAX ==> spec_transaction_unspent(t, prev, first).1
            == first + t.out.len() && ids_from(spec_transaction_unspent(t, prev, first).0, lo),
{
    lemma_outputs_count(t.out, first);
    lemma_outputs_fresh(t.out, first);
    let (added, next) = outputs_as_unspent(t.out, first);
    if next < u64::MAX {
        lemma_concat_fresh(prev, added, first, next);
        let c = prev + added;
        assert(ids_from(c, lo)) by {
            assert forall|i: int| 0 <= i < c.len() implies lo <= c[i].id by {
                if i >= prev.len() {
                    assert(c[i] == added[i - prev.len()]);
                }
            }
        }
        let spent = input_ids(t.tx_in);
        lemma_keep_fresh(c, spent, next);
        let k = keep_unspent(c, spent);
        assert forall|i: int| 0 <= i < k.len() implies lo <= k[i].id by {
            assert(c.contains(k[i]));
        }
    }
}

proof fn lemma_txs_count(txs: Seq<TransactionV>, prev: Seq<UnspentTransaction>, first: u64, lo: u64)
    requires
        ids_fresh(prev, first),
        ids_from(prev, lo),
        lo <= first,
    ensures
        txs_unspent(txs, prev, first).1 < u64::MAX ==> txs_unspent(txs, prev, first).1 == first + txs_output_count(
            txs,
        ) && ids_from(txs_unspent(txs, prev, first).0, lo),
    decreases txs.len(),
{
    if txs.len() > 0 {
        lemma_txs_count(txs.drop_last(), prev, first, lo);
        lemma_txs_fresh(txs.drop_last(), prev, first);
        lemma_txs_next_bound(txs.drop_last(), prev, first);
        let (s, id) = txs_unspent(txs.drop_last(), prev, first);
        lemma_transaction_fresh_bound(txs.last(), s, id);
        if id < u64::MAX {
            lemma_transaction_count(txs.last(), s, id, lo);
        }
    }
}

proof fn lemma_block_count(b: BlockV, prev: Seq<UnspentTransaction>, first: u64, lo: u64)
    requires
        ids_fresh(prev, first),
        ids_from(prev, lo),
        lo <= first,
    ensures
        spec_block_unspent(b, prev, first).1 < u64::MAX ==> spec_block_unspent(b, prev, first).1 == first
            + block_output_count(b) && ids_from(spec_block_unspent(b, prev, first).0, lo),
{
    lemma_txs_count(b.transactions, prev, first, lo);
    lemma_txs_next_bound(b.transactions, prev, first);
    let (s, id) = txs_unspent(b.transactions, prev, first);
    if b.transactions.len() > 0 && id < u64::MAX {
        let u = UnspentTransaction { id, address: b.issuer, amount: saturate(sum_fees(b.transactions)) };
        assert forall|i: int| 0 <= i < s.push(u).len() implies lo <= s.push(u)[i].id by {
            if i < s.len() {
                assert(s.push(u)[i] == s[i]);
            }
        }
    }
}

proof fn lemma_blocks_count(blocks: Seq<BlockV>, prev: Seq<UnspentTransaction>, first: u64, lo: u64)
    requires
        ids_fresh(prev, first),
        ids_from(prev, lo),
        lo <= first,
    ensures
        blocks_unspent(blocks, prev, first).1 < u64::MAX ==> blocks_unspent(blocks, prev, first).1 == first
            + blocks_output_count(blocks) && ids_from(blocks_unspent(blocks, prev, first).0, lo),
    decreases blocks.len(),
{
    if blocks.len() > 0 {
        lemma_blocks_count(blocks.drop_last(), prev, first, lo);
        lemma_blocks_fresh(blocks.drop_last(), prev, first);
        let (s, id) = blocks_unspent(blocks.drop_last(), prev, first);
        lemma_block_fresh(blocks.last(), s, id);
        if id < u64::MAX {
            lemma_block_count(blocks.last(), s, id, lo);
        }
    }
}

/// Output ids count the outputs a chain has made: as long as ids have not
/// run up to the largest 64-bit value, the next id is one more than the
/// number of outputs all the chain's blocks made (coinbase, payments and
/// fee outputs), and every unspent output has an id from 1 up to below the
/// next id, each id once.
pub proof fn law_unspent_ids_count_outputs(blocks: Seq<BlockV>)
    requires
        spec_chain_unspent(blocks).1 < u64::MAX,
    ensures
        spec_chain_unspent(blocks).1 == 1 + blocks_output_count(blocks),
        ids_from(spec_chain_unspent(blocks).0, 1),
        ids_fresh(spec_chain_unspent(blocks).0, spec_chain_unspent(blocks).1),
{
    lemma_blocks_count(blocks, Seq::empty(), 1, 1);
    law_unspent_ids_distinct(blocks);
}

proof fn lemma_owned_by_push(s: Seq<UnspentTransaction>, x: UnspentTransaction, address: Seq<char>)
    ensures
        owned_by(s.push(x), address) == if x.address.der@ == address {
            owned_by(s, address).push(x)
        } else {
            owned_by(s, address)
        },
{
    assert(s.push(x).drop_last() =~= s);
}

proof fn lemma_sum_push(s: Seq<UnspentTransaction>, x: UnspentTransaction)
    ensures
        sum_unspent(s.push(x)) == sum_unspent(s) + x.amount,
{
    assert(s.push(x).drop_last() =~= s);
}

proof fn lemma_owned_sum_after_keep(u: Seq<UnspentTransaction>, spent: Seq<u64>, address: Seq<char>)
    ensures
        sum_unspent(owned_by(keep_unspent(u, spent), address)) <= sum_unspent(owned_by(u, address)),
    decreases u.len(),
{
    if u.len() > 0 {
        let d = u.drop_last();
        let l = u.last();
        lemma_owned_sum_after_keep(d, spent, address);
        assert(d.push(l) =~= u);
        lemma_owned_by_push(d, l, address);
        lemma_owned_by_push(keep_unspent(d, spent), l, address);
        lemma_sum_push(owned_by(d, address), l);
        lemma_sum_push(owned_by(keep_unspent(d, spent), address), l);
    }
}

/// A payment goes ahead exactly when the sender's outputs that `used`
/// does not spend are worth at least the amount and the fee (as long as the
/// outputs chosen are worth at most a 64-bit amount): the chain's balance
/// check never refuses what those outputs can pay.
pub proof fn law_payment_plan_exists_when_funded(
    blocks: Seq<BlockV>,
    sender: Address,
    recipient: Address,
    send_amount: u64,
    used: Seq<TransactionV>,
    fee: u64,
)
    requires
        send_amount + fee > 0,
        send_amount + fee <= u64::MAX,
    ensures
        ({
            let amount = send_amount + fee;
            let available = owned_by(keep_unspent(spec_chain_unspent(blocks).0, all_input_ids(used)), sender.der@);
            let chosen = spec_flex_unspent(available, amount as int);
            spec_payment_plan(blocks, sender, recipient, send_amount, used, fee) is None <==> (sum_unspent(
                available,
            ) < amount || sum_unspent(chosen) > u64::MAX)
        }),
{
    let amount = (send_amount + fee) as int;
    let unspent = spec_chain_unspent(blocks).0;
    let available = owned_by(keep_unspent(unspent, all_input_ids(used)), sender.der@);
    lemma_owned_sum_after_keep(unspent, all_input_ids(used), sender.der@);
    crate::blockchain::utxo::law_flex_picks_shortest_prefix(available, amount);
    let k = crate::blockchain::utxo::shortest_reaching(available, amount);
    lemma_prefix_sum_le(available, k);
    assert(available.take(0) =~= Seq::<UnspentTransaction>::empty());
    if k == available.len() {
        assert(available.take(k) =~= available);
    }
    crate::blockchain::utxo::lemma_sum_unspent_nonneg(owned_by(unspent, sender.der@));
}

proof fn lemma_prefix_sum_le(s: Seq<UnspentTransaction>, k: int)
    requires
        0 <= k <= s.len(),
    ensures
        sum_unspent(s.take(k)) <= sum_unspent(s),
    decreases s.len() - k,
{
    if k < s.len() {
        lemma_prefix_sum_le(s, k + 1);
        crate::blockchain::utxo::lemma_sum_unspent_take_step(s, k);
    } else {
        assert(s.take(k) =~= s);
    }
}

} // verus!
