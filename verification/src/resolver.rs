//! The unspent-output resolver: which outputs of a transaction log are still
//! spendable by a given public key, and the balance that they sum to.
//!
//! The log is a sequence of records in append order, oldest first. An output
//! is unspent for a key when the output is owned by the key and no later
//! record that lists the key among its participants consumes it. The resolver
//! walks the log newest to oldest, accumulating what later records consumed.

use vstd::prelude::*;
use crate::records::{Transaction, TransactionModel, VOut, VOutModel};

verus! {

/// An unspent entry: the identifier of the record that minted the output,
/// and the output itself.
pub type UnspentEntry = (Seq<char>, VOutModel);

/// Whether the record lists `pk` among its participants.
pub open spec fn involves(t: TransactionModel, pk: Seq<char>) -> bool {
    exists|j: int| 0 <= j < t.users.len() && t.users[j] == pk
}

/// Whether the record consumes, on behalf of `pk`, the output numbered
/// `out_id` of the record identified by `txid`. Coinbase records consume
/// nothing.
pub open spec fn spends(t: TransactionModel, pk: Seq<char>, txid: Seq<char>, out_id: u32) -> bool {
    &&& !t.is_coinbase
    &&& exists|n: int|
        0 <= n < t.vins.len() && t.vins[n].pub_key == pk && t.vins[n].txdir == txid
            && t.vins[n].vout == out_id
}

/// Whether some record after position `i` that involves `pk` consumes the
/// output numbered `out_id` of the record at position `i`.
pub open spec fn spent_later(txs: Seq<TransactionModel>, pk: Seq<char>, i: int, out_id: u32) -> bool {
    exists|j: int|
        i < j < txs.len() && involves(#[trigger] txs[j], pk) && spends(txs[j], pk, txs[i].id, out_id)
}

/// Whether output `k` of the record at position `i` is unspent and owned by `pk`.
pub open spec fn output_unspent(txs: Seq<TransactionModel>, pk: Seq<char>, i: int, k: int) -> bool {
    &&& txs[i].vouts[k].hashed_pub_key == pk
    &&& !spent_later(txs, pk, i, txs[i].vouts[k].id)
}

/// The unspent entries among the first `k` outputs of the record at position
/// `i`, in output order.
pub open spec fn tx_unspent_upto(txs: Seq<TransactionModel>, pk: Seq<char>, i: int, k: int) -> Seq<
    UnspentEntry,
>
    decreases k,
{
    if k <= 0 {
        Seq::empty()
    } else {
        tx_unspent_upto(txs, pk, i, k - 1) + (if output_unspent(txs, pk, i, k - 1) {
            seq![(txs[i].id, txs[i].vouts[k - 1])]
        } else {
            Seq::empty()
        })
    }
}

/// What the record at position `i` contributes to the unspent list of `pk`:
/// nothing unless the record involves `pk`, else its unspent outputs in order.
pub open spec fn tx_contrib(txs: Seq<TransactionModel>, pk: Seq<char>, i: int) -> Seq<UnspentEntry> {
    if involves(txs[i], pk) {
        tx_unspent_upto(txs, pk, i, txs[i].vouts.len() as int)
    } else {
        Seq::empty()
    }
}

/// The unspent entries contributed by the records at positions `hi - 1` down
/// to `lo`, newest first.
pub open spec fn unspent_range(txs: Seq<TransactionModel>, pk: Seq<char>, lo: int, hi: int) -> Seq<
    UnspentEntry,
>
    decreases hi - lo,
{
    if lo >= hi {
        Seq::empty()
    } else {
        unspent_range(txs, pk, lo + 1, hi) + tx_contrib(txs, pk, lo)
    }
}

/// The full unspent list of `pk`: every output owned by `pk` that no later
/// participating record consumes, newest record first, output order within a
/// record.
pub open spec fn unspent_for(txs: Seq<TransactionModel>, pk: Seq<char>) -> Seq<UnspentEntry> {
    unspent_range(txs, pk, 0, txs.len() as int)
}

/// The total value of a list of unspent entries.
pub open spec fn sum_values(s: Seq<UnspentEntry>) -> int
    decreases s.len(),
{
    if s.len() == 0 {
        0
    } else {
        s[0].1.value + sum_values(s.drop_first())
    }
}

/// The balance of `pk` over the log: the total value of its unspent outputs.
pub open spec fn balance_spec(txs: Seq<TransactionModel>, pk: Seq<char>) -> int {
    sum_values(unspent_for(txs, pk))
}

/// Concatenation splits a total.
pub proof fn lemma_sum_distributes(a: Seq<UnspentEntry>, b: Seq<UnspentEntry>)
    ensures
        sum_values(a + b) == sum_values(a) + sum_values(b),
    decreases a.len(),
{
    if a.len() == 0 {
        assert(a + b =~= b);
    } else {
        assert((a + b).drop_first() =~= a.drop_first() + b);
        lemma_sum_distributes(a.drop_first(), b);
    }
}

/// Output values are unsigned, so totals are never negative.
pub proof fn lemma_sum_nonneg(s: Seq<UnspentEntry>)
    ensures
        sum_values(s) >= 0,
    decreases s.len(),
{
    if s.len() > 0 {
        lemma_sum_nonneg(s.drop_first());
    }
}

/// A total splits at any position.
pub proof fn lemma_sum_take_skip(s: Seq<UnspentEntry>, m: int)
    requires
        0 <= m <= s.len(),
    ensures
        sum_values(s) == sum_values(s.take(m)) + sum_values(s.skip(m)),
{
    assert(s =~= s.take(m) + s.skip(m));
    lemma_sum_distributes(s.take(m), s.skip(m));
}

/// One more entry extends a prefix total by that entry's value.
pub proof fn lemma_sum_take_succ(s: Seq<UnspentEntry>, i: int)
    requires
        0 <= i < s.len(),
    ensures
        sum_values(s.take(i + 1)) == sum_values(s.take(i)) + s[i].1.value,
{
    assert(s.take(i + 1) =~= s.take(i) + seq![s[i]]);
    lemma_sum_distributes(s.take(i), seq![s[i]]);
    assert(seq![s[i]].drop_first() =~= Seq::<UnspentEntry>::empty());
    assert(seq![s[i]][0] == s[i]);
    assert(sum_values(seq![s[i]]) == s[i].1.value + sum_values(seq![s[i]].drop_first()));
    assert(sum_values(Seq::<UnspentEntry>::empty()) == 0);
}

/// Every entry of a record's unspent prefix is owned by `pk` and carries that
/// record's identifier.
pub proof fn lemma_upto_entries(txs: Seq<TransactionModel>, pk: Seq<char>, i: int, k: int)
    requires
        0 <= i < txs.len(),
        k <= txs[i].vouts.len(),
    ensures
        forall|n: int|
            0 <= n < tx_unspent_upto(txs, pk, i, k).len() ==> {
                &&& (#[trigger] tx_unspent_upto(txs, pk, i, k)[n]).1.hashed_pub_key == pk
                &&& tx_unspent_upto(txs, pk, i, k)[n].0 == txs[i].id
                &&& exists|q: int|
                    0 <= q < k && q < txs[i].vouts.len() && tx_unspent_upto(txs, pk, i, k)[n].1
                        == txs[i].vouts[q] && !spent_later(txs, pk, i, txs[i].vouts[q].id)
            },
    decreases k,
{
    if k > 0 {
        lemma_upto_entries(txs, pk, i, k - 1);
        let s = tx_unspent_upto(txs, pk, i, k);
        let s0 = tx_unspent_upto(txs, pk, i, k - 1);
        if output_unspent(txs, pk, i, k - 1) {
            assert(s == s0 + seq![(txs[i].id, txs[i].vouts[k - 1])]);
            assert forall|n: int| 0 <= n < s.len() implies {
                &&& (#[trigger] s[n]).1.hashed_pub_key == pk
                &&& s[n].0 == txs[i].id
                &&& exists|q: int|
                    0 <= q < k && q < txs[i].vouts.len() && s[n].1 == txs[i].vouts[q]
                        && !spent_later(txs, pk, i, txs[i].vouts[q].id)
            } by {
                if n < s0.len() {
                    assert(s[n] == s0[n]);
                    let q = choose|q: int|
                        0 <= q < k - 1 && q < txs[i].vouts.len() && s0[n].1 == txs[i].vouts[q]
                            && !spent_later(txs, pk, i, txs[i].vouts[q].id);
                    assert(0 <= q < k && q < txs[i].vouts.len() && s[n].1 == txs[i].vouts[q]
                        && !spent_later(txs, pk, i, txs[i].vouts[q].id));
                } else {
                    assert(s.len() == s0.len() + 1);
                    assert(n == s0.len());
                    assert(seq![(txs[i].id, txs[i].vouts[k - 1])][0] == (
                        txs[i].id,
                        txs[i].vouts[k - 1],
                    ));
                    assert(s[n] == (txs[i].id, txs[i].vouts[k - 1]));
                    assert(0 <= k - 1 < k && k - 1 < txs[i].vouts.len() && s[n].1 == txs[i].vouts[k
                        - 1] && !spent_later(txs, pk, i, txs[i].vouts[k - 1].id));
                }
            }
        } else {
            assert(s =~= s0);
            assert forall|n: int| 0 <= n < s.len() implies {
                &&& (#[trigger] s[n]).1.hashed_pub_key == pk
                &&& s[n].0 == txs[i].id
                &&& exists|q: int|
                    0 <= q < k && q < txs[i].vouts.len() && s[n].1 == txs[i].vouts[q]
                        && !spent_later(txs, pk, i, txs[i].vouts[q].id)
            } by {
                assert(s[n] == s0[n]);
                let q = choose|q: int|
                    0 <= q < k - 1 && q < txs[i].vouts.len() && s0[n].1 == txs[i].vouts[q]
                        && !spent_later(txs, pk, i, txs[i].vouts[q].id);
                assert(0 <= q < k && q < txs[i].vouts.len() && s[n].1 == txs[i].vouts[q]
                    && !spent_later(txs, pk, i, txs[i].vouts[q].id));
            }
        }
    }
}

/// The entry `e` was minted by the record at position `i`: that record
/// involves `pk`, names the entry's identifier, and one of its outputs is the
/// entry's output, not consumed by any later participating record.
pub open spec fn entry_minted(
    txs: Seq<TransactionModel>,
    pk: Seq<char>,
    e: UnspentEntry,
    i: int,
) -> bool {
    &&& 0 <= i < txs.len()
    &&& involves(txs[i], pk)
    &&& e.0 == txs[i].id
    &&& exists|q: int|
        0 <= q < txs[i].vouts.len() && e.1 == #[trigger] txs[i].vouts[q] && !spent_later(
            txs,
            pk,
            i,
            txs[i].vouts[q].id,
        )
}

/// Every entry of a range of the unspent list is owned by `pk` and was minted
/// by a record inside the range.
pub proof fn lemma_range_entries(txs: Seq<TransactionModel>, pk: Seq<char>, lo: int, hi: int)
    requires
        0 <= lo,
        hi <= txs.len(),
    ensures
        forall|n: int|
            0 <= n < unspent_range(txs, pk, lo, hi).len() ==> {
                &&& (#[trigger] unspent_range(txs, pk, lo, hi)[n]).1.hashed_pub_key == pk
                &&& exists|i: int|
                    lo <= i < hi && entry_minted(txs, pk, unspent_range(txs, pk, lo, hi)[n], i)
            },
    decreases hi - lo,
{
    if lo < hi {
        lemma_range_entries(txs, pk, lo + 1, hi);
        lemma_upto_entries(txs, pk, lo, txs[lo].vouts.len() as int);
        let s = unspent_range(txs, pk, lo, hi);
        let s0 = unspent_range(txs, pk, lo + 1, hi);
        let c = tx_contrib(txs, pk, lo);
        assert(s == s0 + c);
        assert forall|n: int| 0 <= n < s.len() implies {
            &&& (#[trigger] s[n]).1.hashed_pub_key == pk
            &&& exists|i: int| lo <= i < hi && entry_minted(txs, pk, s[n], i)
        } by {
            if n < s0.len() {
                assert(s[n] == s0[n]);
                let i = choose|i: int| lo + 1 <= i < hi && entry_minted(txs, pk, s0[n], i);
                assert(lo <= i < hi && entry_minted(txs, pk, s[n], i));
            } else {
                assert(c.len() > 0);
                assert(involves(txs[lo], pk));
                let m = n - s0.len();
                assert(s[n] == c[m]);
                let k0 = txs[lo].vouts.len() as int;
                assert(c == tx_unspent_upto(txs, pk, lo, k0));
                let q = choose|q: int|
                    0 <= q < k0 && q < txs[lo].vouts.len() && tx_unspent_upto(txs, pk, lo, k0)[m].1
                        == txs[lo].vouts[q] && !spent_later(txs, pk, lo, txs[lo].vouts[q].id);
                assert(0 <= q < txs[lo].vouts.len() && s[n].1 == txs[lo].vouts[q] && !spent_later(
                    txs,
                    pk,
                    lo,
                    txs[lo].vouts[q].id,
                ));
                assert(entry_minted(txs, pk, s[n], lo));
            }
        }
    }
}

/// Whether the spent list records the pair (record identifier, output number).
pub open spec fn spent_has(s: Seq<(Seq<char>, u32)>, txid: Seq<char>, out_id: u32) -> bool {
    exists|n: int| 0 <= n < s.len() && #[trigger] s[n] == (txid, out_id)
}

/// Whether some record at a position in `[i, len)` that involves `pk`
/// consumes the output `(txid, out_id)`.
pub open spec fn spent_in_suffix(
    txs: Seq<TransactionModel>,
    pk: Seq<char>,
    i: int,
    txid: Seq<char>,
    out_id: u32,
) -> bool {
    exists|j: int|
        i <= j < txs.len() && involves(#[trigger] txs[j], pk) && spends(txs[j], pk, txid, out_id)
}

/// Linear scan of the participant list.
fn contains_key(users: &Vec<String>, pk: &String) -> (b: bool)
    ensures
        b == exists|j: int| 0 <= j < users.deep_view().len() && users.deep_view()[j] == pk@,
{
    let mut j: usize = 0;
    while j < users.len()
        invariant
            j <= users.len(),
            forall|n: int| 0 <= n < j ==> users.deep_view()[n] != pk@,
        decreases users.len() - j,
    {
        if users[j] == *pk {
            proof {
                assert(users.deep_view()[j as int] == pk@);
            }
            return true;
        }
        proof {
            assert(users.deep_view()[j as int] != pk@);
        }
        j = j + 1;
    }
    false
}

/// Linear scan of the spent list for a (record identifier, output number) pair.
fn spent_contains(spent: &Vec<(String, u32)>, txid: &String, out_id: u32) -> (b: bool)
    ensures
        b == spent_has(spent.deep_view(), txid@, out_id),
{
    let mut n: usize = 0;
    while n < spent.len()
        invariant
            n <= spent.len(),
            forall|m: int| 0 <= m < n ==> #[trigger] spent.deep_view()[m] != (txid@, out_id),
        decreases spent.len() - n,
    {
        let p = &spent[n];
        if p.1 == out_id && p.0 == *txid {
            assert(spent.deep_view()[n as int] == (txid@, out_id));
            return true;
        }
        assert(spent.deep_view()[n as int] != (txid@, out_id));
        n = n + 1;
    }
    false
}

/// Computes the unspent list of `pub_key` over a snapshot of the log, exactly
/// as `unspent_for` describes: one backward pass, newest record first,
/// accumulating what later participating records consumed.
pub fn unspent_from(txs: &Vec<Transaction>, pub_key: &String) -> (r: Vec<(String, VOut)>)
    ensures
        r.deep_view() == unspent_for(txs.deep_view(), pub_key@),
{
    let ghost txs_m = txs.deep_view();
    let ghost pk = pub_key@;
    let mut r: Vec<(String, VOut)> = Vec::new();
    let mut spent: Vec<(String, u32)> = Vec::new();
    let mut i: usize = txs.len();
    proof {
        assert(r.deep_view() =~= unspent_range(txs_m, pk, i as int, txs_m.len() as int));
    }
    while i > 0
        invariant
            i <= txs.len(),
            txs_m == txs.deep_view(),
            pk == pub_key@,
            r.deep_view() == unspent_range(txs_m, pk, i as int, txs_m.len() as int),
            forall|txid: Seq<char>, out_id: u32|
                spent_has(spent.deep_view(), txid, out_id) == spent_in_suffix(
                    txs_m,
                    pk,
                    i as int,
                    txid,
                    out_id,
                ),
        decreases i,
    {
        i = i - 1;
        let tx = &txs[i];
        let ghost t = txs_m[i as int];
        if contains_key(&tx.users, pub_key) {
            proof {
                let j = choose|j: int|
                    0 <= j < tx.users.deep_view().len() && tx.users.deep_view()[j] == pk;
                assert(t.users[j] == pk);
                assert(involves(t, pk));
            }
            // Outputs of this record, checked against what later records consumed.
            let mut k: usize = 0;
            while k < tx.vouts.len()
                invariant
                    k <= tx.vouts.len(),
                    txs_m == txs.deep_view(),
                    pk == pub_key@,
                    i < txs.len(),
                    tx == &txs[i as int],
                    t == txs_m[i as int],
                    involves(t, pk),
                    forall|txid: Seq<char>, out_id: u32|
                        spent_has(spent.deep_view(), txid, out_id) == spent_in_suffix(
                            txs_m,
                            pk,
                            i + 1,
                            txid,
                            out_id,
                        ),
                    r.deep_view() == unspent_range(txs_m, pk, i + 1, txs_m.len() as int)
                        + tx_unspent_upto(txs_m, pk, i as int, k as int),
                decreases tx.vouts.len() - k,
            {
                let o = &tx.vouts[k];
                let ghost r0 = r.deep_view();
                proof {
                    assert(spent_in_suffix(txs_m, pk, i + 1, t.id, o.id) == spent_later(
                        txs_m,
                        pk,
                        i as int,
                        t.vouts[k as int].id,
                    ));
                }
                if !spent_contains(&spent, &tx.id, o.id) && o.hashed_pub_key == *pub_key {
                    r.push((tx.id.clone(), o.clone()));
                    proof {
                        assert(output_unspent(txs_m, pk, i as int, k as int));
                        assert(r.deep_view() =~= r0 + seq![(t.id, t.vouts[k as int])]);
                    }
                } else {
                    proof {
                        assert(!output_unspent(txs_m, pk, i as int, k as int));
                        assert(r.deep_view() =~= r0 + Seq::<UnspentEntry>::empty());
                    }
                }
                proof {
                    assert(r.deep_view() =~= unspent_range(txs_m, pk, i + 1, txs_m.len() as int)
                        + tx_unspent_upto(txs_m, pk, i as int, k + 1));
                }
                k = k + 1;
            }
            proof {
                assert(tx_contrib(txs_m, pk, i as int) == tx_unspent_upto(
                    txs_m,
                    pk,
                    i as int,
                    t.vouts.len() as int,
                ));
                assert(r.deep_view() == unspent_range(txs_m, pk, i + 1, txs_m.len() as int)
                    + tx_contrib(txs_m, pk, i as int));
                assert(r.deep_view() == unspent_range(txs_m, pk, i as int, txs_m.len() as int));
            }
            // Inputs of this record: record what it consumed for older records.
            if !tx.is_coinbase {
                let mut k: usize = 0;
                while k < tx.vins.len()
                    invariant
                        k <= tx.vins.len(),
                        txs_m == txs.deep_view(),
                        pk == pub_key@,
                        i < txs.len(),
                        tx == &txs[i as int],
                        t == txs_m[i as int],
                        involves(t, pk),
                        !t.is_coinbase,
                        forall|txid: Seq<char>, out_id: u32|
                            spent_has(spent.deep_view(), txid, out_id) == (spent_in_suffix(
                                txs_m,
                                pk,
                                i + 1,
                                txid,
                                out_id,
                            ) || exists|n: int|
                                0 <= n < k && t.vins[n].pub_key == pk && #[trigger] t.vins[n].txdir
                                    == txid && t.vins[n].vout == out_id),
                    decreases tx.vins.len() - k,
                {
                    let v = &tx.vins[k];
                    let ghost spent0 = spent.deep_view();
                    let pushed = v.pub_key == *pub_key;
                    if pushed {
                        spent.push((v.txdir.clone(), v.vout));
                    }
                    proof {
                        let vm = t.vins[k as int];
                        if pushed {
                            assert(vm.pub_key == pk);
                            assert(spent.deep_view() =~= spent0.push((vm.txdir, vm.vout)));
                        } else {
                            assert(vm.pub_key != pk);
                            assert(spent.deep_view() == spent0);
                        }
                        assert forall|txid: Seq<char>, out_id: u32|
                            spent_has(spent.deep_view(), txid, out_id) == (spent_in_suffix(
                                txs_m,
                                pk,
                                i + 1,
                                txid,
                                out_id,
                            ) || exists|n: int|
                                0 <= n < k + 1 && t.vins[n].pub_key == pk && #[trigger] t.vins[n].txdir
                                    == txid && t.vins[n].vout == out_id) by {
                            let s_new = spent.deep_view();
                            if spent_has(s_new, txid, out_id) {
                                let m = choose|m: int|
                                    0 <= m < s_new.len() && #[trigger] s_new[m] == (txid, out_id);
                                if m < spent0.len() {
                                    assert(spent0[m] == (txid, out_id));
                                    assert(spent_has(spent0, txid, out_id));
                                    if !spent_in_suffix(txs_m, pk, i + 1, txid, out_id) {
                                        let n = choose|n: int|
                                            0 <= n < k && t.vins[n].pub_key == pk
                                                && #[trigger] t.vins[n].txdir == txid
                                                && t.vins[n].vout == out_id;
                                        assert(0 <= n < k + 1 && t.vins[n].pub_key == pk
                                            && t.vins[n].txdir == txid && t.vins[n].vout == out_id);
                                    }
                                } else {
                                    assert(pushed);
                                    assert(s_new[m] == (vm.txdir, vm.vout));
                                    assert(0 <= k < k + 1 && t.vins[k as int].pub_key == pk
                                        && t.vins[k as int].txdir == txid && t.vins[k as int].vout
                                        == out_id);
                                }
                            }
                            if spent_in_suffix(txs_m, pk, i + 1, txid, out_id) {
                                assert(spent_has(spent0, txid, out_id));
                                let m = choose|m: int|
                                    0 <= m < spent0.len() && #[trigger] spent0[m] == (txid, out_id);
                                assert(s_new[m] == (txid, out_id));
                                assert(spent_has(s_new, txid, out_id));
                            }
                            if exists|n: int|
                                0 <= n < k + 1 && t.vins[n].pub_key == pk && #[trigger] t.vins[n].txdir
                                    == txid && t.vins[n].vout == out_id {
                                let n = choose|n: int|
                                    0 <= n < k + 1 && t.vins[n].pub_key == pk
                                        && #[trigger] t.vins[n].txdir == txid && t.vins[n].vout
                                        == out_id;
                                if n < k {
                                    assert(spent_has(spent0, txid, out_id));
                                    let m = choose|m: int|
                                        0 <= m < spent0.len() && #[trigger] spent0[m] == (
                                        txid,
                                        out_id,
                                        );
                                    assert(s_new[m] == (txid, out_id));
                                    assert(spent_has(s_new, txid, out_id));
                                } else {
                                    assert(n == k);
                                    assert(vm.pub_key == pk);
                                    assert(pushed);
                                    assert(s_new[spent0.len() as int] == (txid, out_id));
                                    assert(spent_has(s_new, txid, out_id));
                                }
                            }
                        }
                    }
                    k = k + 1;
                }
            }
            proof {
                let nvins = t.vins.len() as int;
                assert forall|txid: Seq<char>, out_id: u32|
                    spent_has(spent.deep_view(), txid, out_id) == spent_in_suffix(
                        txs_m,
                        pk,
                        i as int,
                        txid,
                        out_id,
                    ) by {
                    if spent_has(spent.deep_view(), txid, out_id) {
                        if spent_in_suffix(txs_m, pk, i + 1, txid, out_id) {
                            let j = choose|j: int|
                                i + 1 <= j < txs_m.len() && involves(#[trigger] txs_m[j], pk)
                                    && spends(txs_m[j], pk, txid, out_id);
                            assert(i <= j < txs_m.len() && involves(txs_m[j], pk) && spends(
                                txs_m[j],
                                pk,
                                txid,
                                out_id,
                            ));
                        } else {
                            // Only possible when this record is not coinbase and one
                            // of its own inputs matches: then the record itself spends.
                            assert(!t.is_coinbase);
                            let n = choose|n: int|
                                0 <= n < nvins && t.vins[n].pub_key == pk
                                    && #[trigger] t.vins[n].txdir == txid && t.vins[n].vout
                                    == out_id;
                            assert(spends(t, pk, txid, out_id));
                            assert(i <= i < txs_m.len() && involves(txs_m[i as int], pk) && spends(
                                txs_m[i as int],
                                pk,
                                txid,
                                out_id,
                            ));
                        }
                        assert(spent_in_suffix(txs_m, pk, i as int, txid, out_id));
                    }
                    if spent_in_suffix(txs_m, pk, i as int, txid, out_id) {
                        let j = choose|j: int|
                            i <= j < txs_m.len() && involves(#[trigger] txs_m[j], pk) && spends(
                                txs_m[j],
                                pk,
                                txid,
                                out_id,
                            );
                        if j == i {
                            assert(!t.is_coinbase);
                            let n = choose|n: int|
                                0 <= n < t.vins.len() && t.vins[n].pub_key == pk && t.vins[n].txdir
                                    == txid && t.vins[n].vout == out_id;
                            assert(0 <= n < nvins && t.vins[n].pub_key == pk && t.vins[n].txdir
                                == txid && t.vins[n].vout == out_id);
                            assert(spent_has(spent.deep_view(), txid, out_id));
                        } else {
                            assert(i + 1 <= j < txs_m.len() && involves(txs_m[j], pk) && spends(
                                txs_m[j],
                                pk,
                                txid,
                                out_id,
                            ));
                            assert(spent_in_suffix(txs_m, pk, i + 1, txid, out_id));
                            assert(spent_has(spent.deep_view(), txid, out_id));
                        }
                    }
                }
            }
        } else {
            proof {
                assert(!involves(t, pk));
                assert(tx_contrib(txs_m, pk, i as int) =~= Seq::<UnspentEntry>::empty());
                assert(r.deep_view() =~= unspent_range(txs_m, pk, i as int, txs_m.len() as int));
                assert forall|txid: Seq<char>, out_id: u32|
                    spent_in_suffix(txs_m, pk, i as int, txid, out_id) == spent_in_suffix(
                        txs_m,
                        pk,
                        i + 1,
                        txid,
                        out_id,
                    ) by {
                    if spent_in_suffix(txs_m, pk, i as int, txid, out_id) {
                        let j = choose|j: int|
                            i <= j < txs_m.len() && involves(#[trigger] txs_m[j], pk) && spends(
                                txs_m[j],
                                pk,
                                txid,
                                out_id,
                            );
                        assert(j != i);
                        assert(spent_in_suffix(txs_m, pk, i + 1, txid, out_id));
                    }
                }
            }
        }
    }
    r
}

/// Sums the value of the entries owned by `pub_key`. Every entry of an
/// unspent list is owned by its user, so the ownership test filters nothing;
/// it stands as a defensive restatement of the resolver's guarantee.
fn sum_unspent(entries: &Vec<(String, VOut)>, pub_key: &String) -> (r: u32)
    requires
        sum_values(entries.deep_view()) <= u32::MAX as int,
        forall|n: int|
            0 <= n < entries.deep_view().len() ==> (#[trigger] entries.deep_view()[n]).1.hashed_pub_key
                == pub_key@,
    ensures
        r as int == sum_values(entries.deep_view()),
{
    let ghost s = entries.deep_view();
    let mut balance: u32 = 0;
    let mut n: usize = 0;
    while n < entries.len()
        invariant
            n <= entries.len(),
            s == entries.deep_view(),
            sum_values(s) <= u32::MAX as int,
            forall|m: int| 0 <= m < s.len() ==> (#[trigger] s[m]).1.hashed_pub_key == pub_key@,
            balance as int == sum_values(s.take(n as int)),
        decreases entries.len() - n,
    {
        let e = &entries[n];
        proof {
            lemma_sum_take_succ(s, n as int);
            lemma_sum_take_skip(s, n + 1);
            lemma_sum_nonneg(s.skip(n + 1));
        }
        if e.1.hashed_pub_key == *pub_key {
            balance = balance + e.1.value;
        }
        n = n + 1;
    }
    proof {
        assert(s.take(s.len() as int) =~= s);
    }
    balance
}

/// The balance of `pub_key` over a snapshot of the log: the total value of
/// its unspent outputs. The caller owes that the balance fits the result
/// type; `try_balance_from` is the variant that checks instead.
pub fn balance_from(txs: &Vec<Transaction>, pub_key: &String) -> (r: u32)
    requires
        balance_spec(txs.deep_view(), pub_key@) <= u32::MAX as int,
    ensures
        r as int == balance_spec(txs.deep_view(), pub_key@),
{
    let entries = unspent_from(txs, pub_key);
    proof {
        lemma_range_entries(txs.deep_view(), pub_key@, 0, txs.deep_view().len() as int);
    }
    sum_unspent(&entries, pub_key)
}

/// The balance of `pub_key`, or nothing when it exceeds the result type:
/// exactly when the mathematical balance is over `u32::MAX`.
pub fn try_balance_from(txs: &Vec<Transaction>, pub_key: &String) -> (r: Option<u32>)
    ensures
        r is Some <==> balance_spec(txs.deep_view(), pub_key@) <= u32::MAX as int,
        r matches Some(b) ==> b as int == balance_spec(txs.deep_view(), pub_key@),
{
    let entries = unspent_from(txs, pub_key);
    let ghost s = entries.deep_view();
    let mut balance: u64 = 0;
    let mut n: usize = 0;
    while n < entries.len()
        invariant
            n <= entries.len(),
            s == entries.deep_view(),
            s == unspent_for(txs.deep_view(), pub_key@),
            balance as int == sum_values(s.take(n as int)),
            balance <= u32::MAX as u64,
        decreases entries.len() - n,
    {
        let e = &entries[n];
        proof {
            lemma_sum_take_succ(s, n as int);
        }
        balance = balance + (e.1.value as u64);
        if balance > (u32::MAX as u64) {
            proof {
                lemma_sum_take_skip(s, n + 1);
                lemma_sum_nonneg(s.skip(n + 1));
            }
            return None;
        }
        n = n + 1;
    }
    proof {
        assert(s.take(s.len() as int) =~= s);
    }
    Some(balance as u32)
}

} // verus!
