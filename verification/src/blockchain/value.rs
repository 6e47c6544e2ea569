//! Value: what transactions and blocks do to the total of the unspent
//! outputs.
use vstd::prelude::*;

use crate::blockchain::block::{spec_block_unspent, sum_fees, txs_unspent, BlockV};
use crate::blockchain::chain::select_by_ids;
use crate::blockchain::coinbase::{spec_coinbase_amount, spec_is_coinbase};
use crate::blockchain::ids::{ids_fresh, ids_from, ids_increasing};
use crate::blockchain::transaction::{
    input_total, keep_unspent, outputs_as_unspent, spec_transaction_unspent, spec_transaction_valid, sum_outs,
    all_inputs_found, TransactionV,
};
use crate::blockchain::utxo::{
    all_input_ids, find_amount, input_ids, lemma_all_input_ids_concat, sum_unspent, TransactionIn, TransactionOut,
    UnspentTransaction,
};
use crate::blockchain::block::{all_after_first_valid, spec_block_valid};
use crate::blockchain::chain::{blocks_unspent, spec_accepts_block, spec_chain_unspent};

verus! {

/// The amount of the output with the given id, nothing when there is none.
pub open spec fn amount_of(s: Seq<UnspentTransaction>, id: u64) -> int {
    match find_amount(s, id) {
        Some(a) => a as int,
        None => 0,
    }
}

proof fn lemma_sum_concat(a: Seq<UnspentTransaction>, b: Seq<UnspentTransaction>)
    ensures
        sum_unspent(a + b) == sum_unspent(a) + sum_unspent(b),
    decreases b.len(),
{
    if b.len() == 0 {
        assert(a + b =~= a);
    } else {
        lemma_sum_concat(a, b.drop_last());
        assert((a + b).drop_last() =~= a + b.drop_last());
    }
}

proof fn lemma_outputs_sum(out: Seq<TransactionOut>, first: u64)
    ensures
        sum_unspent(outputs_as_unspent(out, first).0) == sum_outs(out),
    decreases out.len(),
{
    if out.len() > 0 {
        lemma_outputs_sum(out.drop_last(), first);
        let (s, id) = outputs_as_unspent(out.drop_last(), first);
        let u = UnspentTransaction { id, address: out.last().address, amount: out.last().amount };
        assert(s.push(u).drop_last() =~= s);
    }
}

proof fn lemma_keep_select_split(s: Seq<UnspentTransaction>, ids: Seq<u64>)
    ensures
        sum_unspent(keep_unspent(s, ids)) + sum_unspent(select_by_ids(s, ids)) == sum_unspent(s),
    decreases s.len(),
{
    if s.len() > 0 {
        let d = s.drop_last();
        let l = s.last();
        lemma_keep_select_split(d, ids);
        assert(keep_unspent(d, ids).push(l).drop_last() =~= keep_unspent(d, ids));
        assert(select_by_ids(d, ids).push(l).drop_last() =~= select_by_ids(d, ids));
    }
}

proof fn lemma_select_nothing(s: Seq<UnspentTransaction>)
    ensures
        select_by_ids(s, Seq::empty()).len() == 0,
    decreases s.len(),
{
    if s.len() > 0 {
        lemma_select_nothing(s.drop_last());
    }
}

proof fn lemma_find_amount_from_back(s: Seq<UnspentTransaction>, id: u64)
    requires
        ids_increasing(s),
        s.len() > 0,
    ensures
        find_amount(s, id) == if s.last().id == id {
            Some(s.last().amount)
        } else {
            find_amount(s.drop_last(), id)
        },
    decreases s.len(),
{
    let d = s.drop_last();
    if s.len() == 1 {
        assert(s[0] == s.last());
        assert(d.len() == 0);
    } else {
        assert(d[0] == s[0]);
        if s[0].id == id {
            assert(s[0].id < s[s.len() - 1].id);
        } else {
            let r = s.skip(1);
            assert(ids_increasing(r)) by {
                assert forall|i: int, j: int| 0 <= i < j < r.len() implies r[i].id < r[j].id by {
                    assert(r[i] == s[i + 1] && r[j] == s[j + 1]);
                }
            }
            lemma_find_amount_from_back(r, id);
            assert(r.last() == s.last());
            assert(d.skip(1) =~= r.drop_last());
        }
    }
}

proof fn lemma_find_amount_absent(s: Seq<UnspentTransaction>, id: u64)
    requires
        forall|k: int| 0 <= k < s.len() ==> s[k].id != id,
    ensures
        find_amount(s, id) is None,
    decreases s.len(),
{
    if s.len() > 0 {
        let r = s.skip(1);
        assert forall|k: int| 0 <= k < r.len() implies r[k].id != id by {
            assert(r[k] == s[k + 1]);
        }
        lemma_find_amount_absent(r, id);
    }
}

proof fn lemma_select_push_sum(s: Seq<UnspentTransaction>, a: Seq<u64>, x: u64)
    requires
        ids_increasing(s),
        !a.contains(x),
    ensures
        sum_unspent(select_by_ids(s, a.push(x))) == sum_unspent(select_by_ids(s, a)) + amount_of(s, x),
    decreases s.len(),
{
    if s.len() > 0 {
        let d = s.drop_last();
        let l = s.last();
        assert(ids_increasing(d));
        lemma_select_push_sum(d, a, x);
        lemma_find_amount_from_back(s, x);
        let ax = a.push(x);
        assert(ax.contains(l.id) <==> (a.contains(l.id) || l.id == x)) by {
            if ax.contains(l.id) {
                let k = choose|k: int| 0 <= k < ax.len() && ax[k] == l.id;
                if k < a.len() {
                    assert(a[k] == l.id);
                }
            }
            if a.contains(l.id) {
                let k = choose|k: int| 0 <= k < a.len() && a[k] == l.id;
                assert(ax[k] == l.id);
            }
            assert(ax[a.len() as int] == x);
        }
        if l.id == x {
            assert forall|k: int| 0 <= k < d.len() implies d[k].id != x by {
                assert(d[k] == s[k]);
                assert(s[k].id < s[s.len() - 1].id);
            }
            lemma_find_amount_absent(d, x);
            assert(select_by_ids(d, ax).push(l).drop_last() =~= select_by_ids(d, ax));
        } else if a.contains(l.id) {
            assert(select_by_ids(d, ax).push(l).drop_last() =~= select_by_ids(d, ax));
            assert(select_by_ids(d, a).push(l).drop_last() =~= select_by_ids(d, a));
        }
    }
}

proof fn lemma_select_sum_is_input_total(s: Seq<UnspentTransaction>, ins: Seq<TransactionIn>)
    requires
        ids_increasing(s),
        input_ids(ins).no_duplicates(),
    ensures
        sum_unspent(select_by_ids(s, input_ids(ins))) == input_total(ins, s),
    decreases ins.len(),
{
    if ins.len() == 0 {
        assert(input_ids(ins) =~= Seq::<u64>::empty());
        lemma_select_nothing(s);
    } else {
        let d = ins.drop_last();
        let x = ins.last().unspent_id;
        assert(input_ids(ins) =~= input_ids(d).push(x));
        assert(input_ids(d).no_duplicates()) by {
            assert forall|i: int, j: int| 0 <= i < input_ids(d).len() && 0 <= j < input_ids(d).len() && i != j implies input_ids(
                d,
            )[i] != input_ids(d)[j] by {
                assert(input_ids(d)[i] == input_ids(ins)[i]);
                assert(input_ids(d)[j] == input_ids(ins)[j]);
            }
        }
        assert(!input_ids(d).contains(x)) by {
            if input_ids(d).contains(x) {
                let k = choose|k: int| 0 <= k < input_ids(d).len() && input_ids(d)[k] == x;
                assert(input_ids(ins)[k] == input_ids(ins)[ins.len() - 1]);
            }
        }
        lemma_select_sum_is_input_total(s, d);
        lemma_select_push_sum(s, input_ids(d), x);
    }
}

proof fn lemma_find_amount_concat(a: Seq<UnspentTransaction>, b: Seq<UnspentTransaction>, id: u64)
    requires
        find_amount(a, id) is Some,
    ensures
        find_amount(a + b, id) == find_amount(a, id),
    decreases a.len(),
{
    if a[0].id != id {
        assert((a + b).skip(1) =~= a.skip(1) + b);
        lemma_find_amount_concat(a.skip(1), b, id);
    }
}

proof fn lemma_input_total_concat(ins: Seq<TransactionIn>, a: Seq<UnspentTransaction>, b: Seq<UnspentTransaction>)
    requires
        all_inputs_found(ins, a),
    ensures
        input_total(ins, a + b) == input_total(ins, a),
    decreases ins.len(),
{
    if ins.len() > 0 {
        let d = ins.drop_last();
        assert(all_inputs_found(d, a)) by {
            assert forall|i: int| 0 <= i < d.len() implies (#[trigger] find_amount(a, d[i].unspent_id)) is Some by {
                assert(d[i] == ins[i]);
            }
        }
        lemma_input_total_concat(d, a, b);
        assert(find_amount(a, ins[ins.len() - 1].unspent_id) is Some);
        lemma_find_amount_concat(a, b, ins.last().unspent_id);
    }
}

/// A valid transaction that spends each output once takes exactly its fee
/// out of the unspent outputs: the outputs after it are worth what those
/// before it were worth, less the fee (as long as ids have not run out).
pub proof fn law_transaction_takes_its_fee(t: TransactionV, prev: Seq<UnspentTransaction>, first: u64)
    requires
        ids_fresh(prev, first),
        spec_transaction_valid(t, prev),
        input_ids(t.tx_in).no_duplicates(),
        outputs_as_unspent(t.out, first).1 < u64::MAX,
    ensures
        sum_unspent(spec_transaction_unspent(t, prev, first).0) == sum_unspent(prev) - t.fee,
{
    let (added, next) = outputs_as_unspent(t.out, first);
    crate::blockchain::ids::lemma_outputs_fresh(t.out, first);
    crate::blockchain::ids::lemma_concat_fresh(prev, added, first, next);
    let s = prev + added;
    let ids = input_ids(t.tx_in);
    lemma_outputs_sum(t.out, first);
    lemma_sum_concat(prev, added);
    lemma_keep_select_split(s, ids);
    lemma_select_sum_is_input_total(s, t.tx_in);
    lemma_input_total_concat(t.tx_in, prev, added);
}

/// Whether each transaction after the first is valid against the unspent
/// outputs that those before it leave, and spends each output once.
pub open spec fn spends_in_turn(txs: Seq<TransactionV>, prev: Seq<UnspentTransaction>, first: u64) -> bool {
    forall|i: int|
        1 <= i < txs.len() ==> spec_transaction_valid(#[trigger] txs[i], txs_unspent(txs.take(i), prev, first).0)
            && input_ids(txs[i].tx_in).no_duplicates()
}

proof fn lemma_sum_fees_nonneg(txs: Seq<TransactionV>)
    ensures
        sum_fees(txs) >= 0,
    decreases txs.len(),
{
    if txs.len() > 0 {
        lemma_sum_fees_nonneg(txs.drop_last());
    }
}

proof fn lemma_keep_nothing(s: Seq<UnspentTransaction>)
    ensures
        keep_unspent(s, Seq::empty()) == s,
    decreases s.len(),
{
    if s.len() > 0 {
        lemma_keep_nothing(s.drop_last());
        assert(s.drop_last().push(s.last()) =~= s);
    }
}

proof fn lemma_prefix_value(txs: Seq<TransactionV>, prev: Seq<UnspentTransaction>, first: u64, k: int)
    requires
        1 <= k <= txs.len(),
        txs[0].tx_in.len() == 0,
        txs[0].fee == 0,
        spends_in_turn(txs, prev, first),
        ids_fresh(prev, first),
        txs_unspent(txs.take(k), prev, first).1 < u64::MAX,
    ensures
        sum_unspent(txs_unspent(txs.take(k), prev, first).0) == sum_unspent(prev) + sum_outs(txs[0].out)
            - sum_fees(txs.take(k)),
    decreases k,
{
    let t = txs.take(k);
    assert(t.drop_last() =~= txs.take(k - 1));
    assert(t.last() == txs[k - 1]);
    if k == 1 {
        assert(txs.take(0) =~= Seq::<TransactionV>::empty());
        let (added, next) = outputs_as_unspent(txs[0].out, first);
        assert(input_ids(txs[0].tx_in) =~= Seq::<u64>::empty());
        lemma_keep_nothing(prev + added);
        lemma_sum_concat(prev, added);
        lemma_outputs_sum(txs[0].out, first);
        assert(sum_fees(t) == sum_fees(txs.take(0)) + txs[0].fee);
    } else {
        let (s, id) = txs_unspent(txs.take(k - 1), prev, first);
        crate::blockchain::ids::lemma_transaction_fresh_bound(txs[k - 1], s, id);
        lemma_prefix_value(txs, prev, first, k - 1);
        crate::blockchain::ids::lemma_txs_fresh(txs.take(k - 1), prev, first);
        law_transaction_takes_its_fee(txs[k - 1], s, id);
    }
}

/// A block adds exactly its coinbase to the money in circulation: when its
/// first transaction is a coinbase without inputs or fee and each other
/// transaction is valid against the outputs that those before it leave,
/// spending each output once, the fees only move from the payers to the
/// block's issuer (as long as ids have not run out and the fees fit in 64
/// bits).
pub proof fn law_block_adds_its_coinbase(b: BlockV, prev: Seq<UnspentTransaction>, first: u64)
    requires
        ids_fresh(prev, first),
        b.transactions.len() > 0,
        spec_is_coinbase(b.transactions[0], b.index),
        b.transactions[0].fee == 0,
        spends_in_turn(b.transactions, prev, first),
        spec_block_unspent(b, prev, first).1 < u64::MAX,
        sum_fees(b.transactions) <= u64::MAX,
    ensures
        sum_unspent(spec_block_unspent(b, prev, first).0) == sum_unspent(prev) + spec_coinbase_amount(b.index),
{
    let txs = b.transactions;
    let n = txs.len() as int;
    assert(txs.take(n) =~= txs);
    let (s, id) = txs_unspent(txs, prev, first);
    lemma_prefix_value(txs, prev, first, n);
    assert(sum_outs(txs[0].out) == txs[0].out[0].amount) by {
        let out = txs[0].out;
        assert(out.drop_last() =~= Seq::<TransactionOut>::empty());
        assert(sum_outs(out.drop_last()) == 0);
        assert(out.last() == out[0]);
    }
    lemma_sum_fees_nonneg(txs);
    let fee_output = UnspentTransaction { id, address: b.issuer, amount: crate::blockchain::utxo::saturate(sum_fees(txs)) };
    assert(s.push(fee_output).drop_last() =~= s);
}

proof fn lemma_find_amount_keep(s: Seq<UnspentTransaction>, spent: Seq<u64>, x: u64)
    requires
        ids_increasing(s),
        !spent.contains(x),
    ensures
        find_amount(keep_unspent(s, spent), x) == find_amount(s, x),
    decreases s.len(),
{
    if s.len() > 0 {
        let d = s.drop_last();
        let l = s.last();
        assert(ids_fresh(d, l.id));
        lemma_find_amount_keep(d, spent, x);
        lemma_find_amount_from_back(s, x);
        if !spent.contains(l.id) {
            crate::blockchain::ids::lemma_keep_fresh(d, spent, l.id);
            let kd = keep_unspent(d, spent);
            let k = kd.push(l);
            assert(ids_increasing(k)) by {
                assert forall|i: int, j: int| 0 <= i < j < k.len() implies k[i].id < k[j].id by {
                    if j < kd.len() {
                        assert(k[i] == kd[i] && k[j] == kd[j]);
                    } else {
                        assert(k[i] == kd[i]);
                    }
                }
            }
            lemma_find_amount_from_back(k, x);
            assert(k.drop_last() =~= kd);
        }
    }
}

proof fn lemma_inputs_same_amounts(ins: Seq<TransactionIn>, a: Seq<UnspentTransaction>, b: Seq<UnspentTransaction>)
    requires
        all_inputs_found(ins, a),
        forall|i: int| 0 <= i < ins.len() ==> find_amount(b, (#[trigger] ins[i]).unspent_id) == find_amount(a, ins[i].unspent_id),
    ensures
        input_total(ins, b) == input_total(ins, a),
        all_inputs_found(ins, b),
    decreases ins.len(),
{
    if ins.len() > 0 {
        let d = ins.drop_last();
        assert(all_inputs_found(d, a)) by {
            assert forall|i: int| 0 <= i < d.len() implies (#[trigger] find_amount(a, d[i].unspent_id)) is Some by {
                assert(d[i] == ins[i]);
            }
        }
        assert forall|i: int| 0 <= i < d.len() implies find_amount(b, (#[trigger] d[i]).unspent_id) == find_amount(
            a,
            d[i].unspent_id,
        ) by {
            assert(d[i] == ins[i]);
        }
        lemma_inputs_same_amounts(d, a, b);
        assert(ins[ins.len() - 1] == ins.last());
    }
    assert forall|i: int| 0 <= i < ins.len() implies (#[trigger] find_amount(b, ins[i].unspent_id)) is Some by {
        assert(find_amount(a, ins[i].unspent_id) is Some);
    }
}

/// Whether every transaction after the first is valid against `unspent`.
pub open spec fn each_valid_against(txs: Seq<TransactionV>, unspent: Seq<UnspentTransaction>) -> bool {
    forall|i: int| 1 <= i < txs.len() ==> spec_transaction_valid(#[trigger] txs[i], unspent)
}

proof fn lemma_txs_next_monotone(txs: Seq<TransactionV>, prev: Seq<UnspentTransaction>, first: u64, i: int, k: int)
    requires
        0 <= i <= k <= txs.len(),
    ensures
        txs_unspent(txs.take(i), prev, first).1 <= txs_unspent(txs.take(k), prev, first).1,
    decreases k - i,
{
    if i < k {
        lemma_txs_next_monotone(txs, prev, first, i, k - 1);
        assert(txs.take(k).drop_last() =~= txs.take(k - 1));
        let (s, id) = txs_unspent(txs.take(k - 1), prev, first);
        crate::blockchain::ids::lemma_transaction_fresh_bound(txs.take(k).last(), s, id);
    }
}

proof fn lemma_independent_prefix(txs: Seq<TransactionV>, prev: Seq<UnspentTransaction>, first: u64, k: int)
    requires
        ids_fresh(prev, first),
        1 <= k <= txs.len(),
        txs[0].tx_in.len() == 0,
        txs_unspent(txs.take(k), prev, first).1 < u64::MAX,
    ensures
        ids_fresh(txs_unspent(txs.take(k), prev, first).0, txs_unspent(txs.take(k), prev, first).1),
        forall|x: u64|
            find_amount(prev, x) is Some && !all_input_ids(txs.take(k)).contains(x) ==> #[trigger] find_amount(
                txs_unspent(txs.take(k), prev, first).0,
                x,
            ) == find_amount(prev, x),
    decreases k,
{
    let t = txs.take(k);
    assert(t.drop_last() =~= txs.take(k - 1));
    assert(t.last() == txs[k - 1]);
    crate::blockchain::ids::lemma_txs_fresh(t, prev, first);
    let (sp, np) = txs_unspent(txs.take(k - 1), prev, first);
    crate::blockchain::ids::lemma_transaction_fresh_bound(txs[k - 1], sp, np);
    let (added, next) = outputs_as_unspent(txs[k - 1].out, np);
    crate::blockchain::ids::lemma_outputs_fresh(txs[k - 1].out, np);
    let spent = input_ids(txs[k - 1].tx_in);
    assert(all_input_ids(t) == all_input_ids(txs.take(k - 1)) + spent);
    if k == 1 {
        assert(txs.take(0) =~= Seq::<TransactionV>::empty());
        assert(spent =~= Seq::<u64>::empty());
        lemma_keep_nothing(prev + added);
        assert forall|x: u64| find_amount(prev, x) is Some implies #[trigger] find_amount(
            txs_unspent(t, prev, first).0,
            x,
        ) == find_amount(prev, x) by {
            lemma_find_amount_concat(prev, added, x);
        }
    } else {
        lemma_independent_prefix(txs, prev, first, k - 1);
        crate::blockchain::ids::lemma_concat_fresh(sp, added, np, next);
        assert forall|x: u64|
            find_amount(prev, x) is Some && !all_input_ids(t).contains(x) implies #[trigger] find_amount(
            txs_unspent(t, prev, first).0,
            x,
        ) == find_amount(prev, x) by {
            let a = all_input_ids(txs.take(k - 1));
            assert(!a.contains(x)) by {
                if a.contains(x) {
                    let j = choose|j: int| 0 <= j < a.len() && a[j] == x;
                    assert((a + spent)[j] == x);
                }
            }
            assert(!spent.contains(x)) by {
                if spent.contains(x) {
                    let j = choose|j: int| 0 <= j < spent.len() && spent[j] == x;
                    assert((a + spent)[a.len() + j] == x);
                }
            }
            assert(find_amount(sp, x) == find_amount(prev, x));
            lemma_find_amount_concat(sp, added, x);
            lemma_find_amount_keep(sp + added, spent, x);
        }
    }
}

proof fn lemma_ids_split(txs: Seq<TransactionV>, i: int)
    requires
        0 <= i < txs.len(),
    ensures
        all_input_ids(txs) == all_input_ids(txs.take(i)) + input_ids(txs[i].tx_in) + all_input_ids(txs.skip(i + 1)),
{
    lemma_all_input_ids_concat(txs.take(i), txs.skip(i));
    assert(txs.take(i) + txs.skip(i) =~= txs);
    assert(txs.skip(i) =~= seq![txs[i]] + txs.skip(i + 1));
    lemma_all_input_ids_concat(seq![txs[i]], txs.skip(i + 1));
    assert(seq![txs[i]].drop_last() =~= Seq::<TransactionV>::empty());
    assert(seq![txs[i]].last() == txs[i]);
    assert(all_input_ids(Seq::<TransactionV>::empty()) =~= Seq::<u64>::empty());
    assert(all_input_ids(seq![txs[i]]) =~= input_ids(txs[i].tx_in));
    assert(all_input_ids(txs) =~= all_input_ids(txs.take(i)) + input_ids(txs[i].tx_in) + all_input_ids(
        txs.skip(i + 1),
    ));
}

proof fn lemma_spends_at(txs: Seq<TransactionV>, prev: Seq<UnspentTransaction>, first: u64, i: int)
    requires
        ids_fresh(prev, first),
        1 <= i < txs.len(),
        txs[0].tx_in.len() == 0,
        spec_transaction_valid(txs[i], prev),
        all_input_ids(txs).no_duplicates(),
        txs_unspent(txs, prev, first).1 < u64::MAX,
    ensures
        spec_transaction_valid(txs[i], txs_unspent(txs.take(i), prev, first).0),
        input_ids(txs[i].tx_in).no_duplicates(),
{
    assert(txs.take(txs.len() as int) =~= txs);
    lemma_txs_next_monotone(txs, prev, first, i, txs.len() as int);
    lemma_independent_prefix(txs, prev, first, i);
    let a = all_input_ids(txs.take(i));
    let mine = input_ids(txs[i].tx_in);
    lemma_ids_split(txs, i);
    let whole = all_input_ids(txs);
    let s = txs_unspent(txs.take(i), prev, first).0;
    let ins = txs[i].tx_in;
    assert forall|j: int| 0 <= j < ins.len() implies find_amount(s, (#[trigger] ins[j]).unspent_id) == find_amount(
        prev,
        ins[j].unspent_id,
    ) by {
        let x = ins[j].unspent_id;
        assert(mine[j] == x);
        assert(whole[a.len() + j] == x);
        assert(find_amount(prev, x) is Some);
        assert(!a.contains(x)) by {
            if a.contains(x) {
                let m = choose|m: int| 0 <= m < a.len() && a[m] == x;
                assert(whole[m] == x);
            }
        }
    }
    lemma_inputs_same_amounts(ins, prev, s);
    assert(mine.no_duplicates()) by {
        assert forall|p: int, q: int| 0 <= p < mine.len() && 0 <= q < mine.len() && p != q implies mine[p]
            != mine[q] by {
            assert(whole[a.len() + p] == mine[p]);
            assert(whole[a.len() + q] == mine[q]);
        }
    }
}

/// Transactions that are each valid against the same unspent outputs and
/// together spend each output at most once can be applied one after another:
/// after a first transaction without inputs, each of them is valid against
/// the outputs that those before it leave (as long as ids have not run out).
pub proof fn law_independent_payments_spend_in_turn(txs: Seq<TransactionV>, prev: Seq<UnspentTransaction>, first: u64)
    requires
        ids_fresh(prev, first),
        txs.len() > 0,
        txs[0].tx_in.len() == 0,
        each_valid_against(txs, prev),
        all_input_ids(txs).no_duplicates(),
        txs_unspent(txs, prev, first).1 < u64::MAX,
    ensures
        spends_in_turn(txs, prev, first),
{
    assert forall|i: int| 1 <= i < txs.len() implies spec_transaction_valid(
        #[trigger] txs[i],
        txs_unspent(txs.take(i), prev, first).0,
    ) && input_ids(txs[i].tx_in).no_duplicates() by {
        lemma_spends_at(txs, prev, first, i);
    }
}

/// A block that passes the block rules against the unspent outputs and
/// whose transactions spend each output at most once adds exactly its
/// coinbase to the money in circulation, when its coinbase carries no fee
/// (as long as ids have not run out and the fees fit in 64 bits).
pub proof fn law_valid_block_adds_its_coinbase(b: BlockV, prev: Seq<UnspentTransaction>, first: u64)
    requires
        ids_fresh(prev, first),
        spec_block_valid(b, prev),
        b.transactions[0].fee == 0,
        all_input_ids(b.transactions).no_duplicates(),
        spec_block_unspent(b, prev, first).1 < u64::MAX,
        sum_fees(b.transactions) <= u64::MAX,
    ensures
        sum_unspent(spec_block_unspent(b, prev, first).0) == sum_unspent(prev) + spec_coinbase_amount(b.index),
{
    let txs = b.transactions;
    assert(each_valid_against(txs, prev));
    law_independent_payments_spend_in_turn(txs, prev, first);
    law_block_adds_its_coinbase(b, prev, first);
}

/// When a chain takes a block whose transactions spend each output at most
/// once and whose coinbase carries no fee, the money in circulation (the
/// total of the unspent outputs) grows by exactly the block's coinbase (as
/// long as ids have not run out and the fees fit in 64 bits).
pub proof fn law_accepted_block_adds_its_coinbase(
    blocks: Seq<BlockV>,
    b: BlockV,
    i_generated: bool,
    generated_now: bool,
    cache: Map<(Seq<u8>, i64), Seq<i32>>,
)
    requires
        spec_accepts_block(blocks, b, i_generated, generated_now, cache),
        b.transactions[0].fee == 0,
        all_input_ids(b.transactions).no_duplicates(),
        spec_chain_unspent(blocks.push(b)).1 < u64::MAX,
        sum_fees(b.transactions) <= u64::MAX,
    ensures
        sum_unspent(spec_chain_unspent(blocks.push(b)).0) == sum_unspent(spec_chain_unspent(blocks).0)
            + spec_coinbase_amount(b.index),
{
    let (prev, first) = spec_chain_unspent(blocks);
    assert(blocks.push(b).drop_last() =~= blocks);
    assert(spec_chain_unspent(blocks.push(b)) == spec_block_unspent(b, prev, first));
    crate::blockchain::ids::lemma_block_fresh(b, prev, first);
    crate::blockchain::ids::law_unspent_ids_distinct(blocks);
    law_valid_block_adds_its_coinbase(b, prev, first);
}

} // verus!
