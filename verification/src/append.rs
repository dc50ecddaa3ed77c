//! How appending one record changes the unspent lists: the new record's own
//! contribution goes in front, and every older entry survives exactly when
//! the new record does not consume it. These lemmas carry the ledger's
//! balance accounting.

use vstd::prelude::*;
use crate::numerals::{decimal_of, lemma_decimal_injective};
use crate::records::TransactionModel;
use crate::resolver::{
    entry_minted, involves, lemma_range_entries, lemma_upto_entries, output_unspent, spends,
    spent_later, tx_contrib, tx_unspent_upto, unspent_for, unspent_range, UnspentEntry,
};

verus! {

/// The entries that the record `t` does not consume on behalf of `pk`.
pub open spec fn not_spent_by(t: TransactionModel, pk: Seq<char>) -> spec_fn(UnspentEntry) -> bool {
    |e: UnspentEntry| !(involves(t, pk) && spends(t, pk, e.0, e.1.id))
}

/// Every record identifier is the numeral of the record's position.
pub open spec fn ids_wf(txs: Seq<TransactionModel>) -> bool {
    forall|i: int| 0 <= i < txs.len() ==> (#[trigger] txs[i]).id == decimal_of(i as nat)
}

/// Every output is numbered by its position in its record.
pub open spec fn vouts_wf(txs: Seq<TransactionModel>) -> bool {
    forall|i: int, k: int|
        0 <= i < txs.len() && 0 <= k < txs[i].vouts.len() ==> (#[trigger] txs[i].vouts[k]).id == k
}

/// A range splits at its newest record.
pub proof fn lemma_range_peel_top(txs: Seq<TransactionModel>, pk: Seq<char>, lo: int, hi: int)
    requires
        lo < hi,
    ensures
        unspent_range(txs, pk, lo, hi) == tx_contrib(txs, pk, hi - 1) + unspent_range(
            txs,
            pk,
            lo,
            hi - 1,
        ),
    decreases hi - lo,
{
    if lo == hi - 1 {
        assert(unspent_range(txs, pk, lo + 1, hi) =~= Seq::<UnspentEntry>::empty());
        assert(unspent_range(txs, pk, lo, hi - 1) =~= Seq::<UnspentEntry>::empty());
        assert(unspent_range(txs, pk, lo, hi) =~= tx_contrib(txs, pk, hi - 1) + unspent_range(
            txs,
            pk,
            lo,
            hi - 1,
        ));
    } else {
        lemma_range_peel_top(txs, pk, lo + 1, hi);
        assert(unspent_range(txs, pk, lo, hi) =~= tx_contrib(txs, pk, hi - 1) + unspent_range(
            txs,
            pk,
            lo,
            hi - 1,
        ));
    }
}

/// After a push, a record's output is consumed-later exactly when it already
/// was, or when the new record consumes it.
pub proof fn lemma_spent_later_push(
    txs: Seq<TransactionModel>,
    t: TransactionModel,
    pk: Seq<char>,
    i: int,
    out_id: u32,
)
    requires
        0 <= i < txs.len(),
    ensures
        spent_later(txs.push(t), pk, i, out_id) == (spent_later(txs, pk, i, out_id) || (involves(
            t,
            pk,
        ) && spends(t, pk, txs[i].id, out_id))),
{
    let p = txs.push(t);
    assert(p[i] == txs[i]);
    if spent_later(p, pk, i, out_id) {
        let j = choose|j: int|
            i < j < p.len() && involves(#[trigger] p[j], pk) && spends(p[j], pk, p[i].id, out_id);
        if j < txs.len() {
            assert(p[j] == txs[j]);
            assert(i < j < txs.len() && involves(txs[j], pk) && spends(
                txs[j],
                pk,
                txs[i].id,
                out_id,
            ));
            assert(spent_later(txs, pk, i, out_id));
        } else {
            assert(p[j] == t);
        }
    }
    if spent_later(txs, pk, i, out_id) {
        let j = choose|j: int|
            i < j < txs.len() && involves(#[trigger] txs[j], pk) && spends(
                txs[j],
                pk,
                txs[i].id,
                out_id,
            );
        assert(p[j] == txs[j]);
        assert(i < j < p.len() && involves(p[j], pk) && spends(p[j], pk, p[i].id, out_id));
        assert(spent_later(p, pk, i, out_id));
    }
    if involves(t, pk) && spends(t, pk, txs[i].id, out_id) {
        let j = txs.len() as int;
        assert(p[j] == t);
        assert(i < j < p.len() && involves(p[j], pk) && spends(p[j], pk, p[i].id, out_id));
        assert(spent_later(p, pk, i, out_id));
    }
}

/// Filtering a one-entry list keeps or drops the entry.
pub proof fn lemma_filter_singleton(e: UnspentEntry, pred: spec_fn(UnspentEntry) -> bool)
    ensures
        seq![e].filter(pred) == (if pred(e) {
            seq![e]
        } else {
            Seq::<UnspentEntry>::empty()
        }),
{
    reveal_with_fuel(Seq::filter, 2);
    assert(Seq::<UnspentEntry>::empty().filter(pred) =~= Seq::<UnspentEntry>::empty());
    assert(seq![e].drop_last() =~= Seq::<UnspentEntry>::empty());
    assert(seq![e].last() == e);
    if pred(e) {
        assert(seq![e].filter(pred) =~= seq![e]);
    } else {
        assert(seq![e].filter(pred) =~= Seq::<UnspentEntry>::empty());
    }
}

/// A filter that keeps everything changes nothing.
pub proof fn lemma_filter_all_true(s: Seq<UnspentEntry>, pred: spec_fn(UnspentEntry) -> bool)
    requires
        forall|n: int| 0 <= n < s.len() ==> pred(#[trigger] s[n]),
    ensures
        s.filter(pred) == s,
    decreases s.len(),
{
    reveal(Seq::filter);
    if s.len() > 0 {
        assert(forall|n: int| 0 <= n < s.drop_last().len() ==> pred(#[trigger] s.drop_last()[n]));
        lemma_filter_all_true(s.drop_last(), pred);
        assert(s.filter(pred) =~= s);
    }
}

/// A filter that rejects exactly a prefix leaves the suffix.
pub proof fn lemma_filter_skip_prefix(
    s: Seq<UnspentEntry>,
    pred: spec_fn(UnspentEntry) -> bool,
    m: int,
)
    requires
        0 <= m <= s.len(),
        forall|j: int| 0 <= j < m ==> !pred(#[trigger] s[j]),
        forall|j: int| m <= j < s.len() ==> pred(#[trigger] s[j]),
    ensures
        s.filter(pred) == s.skip(m),
    decreases s.len(),
{
    reveal(Seq::filter);
    if s.len() == 0 {
        assert(s.filter(pred) =~= s.skip(m));
    } else if m == s.len() {
        assert(forall|j: int| 0 <= j < m - 1 ==> !pred(#[trigger] s.drop_last()[j]));
        lemma_filter_skip_prefix(s.drop_last(), pred, m - 1);
        assert(!pred(s.last()));
        assert(s.drop_last().skip(m - 1) =~= Seq::<UnspentEntry>::empty());
        assert(s.filter(pred) =~= s.skip(m));
    } else {
        assert(forall|j: int| 0 <= j < m ==> !pred(#[trigger] s.drop_last()[j]));
        assert(forall|j: int| m <= j < s.drop_last().len() ==> pred(#[trigger] s.drop_last()[j]));
        lemma_filter_skip_prefix(s.drop_last(), pred, m);
        assert(pred(s.last()));
        assert(s.filter(pred) =~= s.drop_last().skip(m).push(s.last()));
        assert(s.drop_last().skip(m).push(s.last()) =~= s.skip(m));
    }
}

/// After a push, a record's unspent prefix is the old one with the entries
/// the new record consumes removed.
pub proof fn lemma_upto_push(
    txs: Seq<TransactionModel>,
    t: TransactionModel,
    pk: Seq<char>,
    i: int,
    k: int,
)
    requires
        0 <= i < txs.len(),
        0 <= k <= txs[i].vouts.len(),
    ensures
        tx_unspent_upto(txs.push(t), pk, i, k) == tx_unspent_upto(txs, pk, i, k).filter(
            not_spent_by(t, pk),
        ),
    decreases k,
{
    reveal(Seq::filter);
    let p = txs.push(t);
    let pred = not_spent_by(t, pk);
    assert(p[i] == txs[i]);
    if k == 0 {
        assert(tx_unspent_upto(txs, pk, i, 0).filter(pred) =~= Seq::<UnspentEntry>::empty());
        assert(tx_unspent_upto(p, pk, i, 0) =~= Seq::<UnspentEntry>::empty());
    } else {
        lemma_upto_push(txs, t, pk, i, k - 1);
        lemma_spent_later_push(txs, t, pk, i, txs[i].vouts[k - 1].id);
        let e = (txs[i].id, txs[i].vouts[k - 1]);
        let piece_old: Seq<UnspentEntry> = if output_unspent(txs, pk, i, k - 1) {
            seq![e]
        } else {
            Seq::empty()
        };
        Seq::filter_distributes_over_add(tx_unspent_upto(txs, pk, i, k - 1), piece_old, pred);
        lemma_filter_singleton(e, pred);
        assert(output_unspent(p, pk, i, k - 1) == (output_unspent(txs, pk, i, k - 1) && pred(e)));
        assert(tx_unspent_upto(p, pk, i, k) =~= tx_unspent_upto(txs, pk, i, k).filter(pred));
    }
}

/// After a push, an old record's contribution is the old one filtered.
pub proof fn lemma_contrib_push(
    txs: Seq<TransactionModel>,
    t: TransactionModel,
    pk: Seq<char>,
    i: int,
)
    requires
        0 <= i < txs.len(),
    ensures
        tx_contrib(txs.push(t), pk, i) == tx_contrib(txs, pk, i).filter(not_spent_by(t, pk)),
{
    reveal(Seq::filter);
    let p = txs.push(t);
    assert(p[i] == txs[i]);
    if involves(txs[i], pk) {
        lemma_upto_push(txs, t, pk, i, txs[i].vouts.len() as int);
    } else {
        assert(tx_contrib(p, pk, i) =~= Seq::<UnspentEntry>::empty());
        assert(tx_contrib(txs, pk, i).filter(not_spent_by(t, pk)) =~= Seq::<UnspentEntry>::empty());
    }
}

/// After a push, a whole old range is the old range filtered.
pub proof fn lemma_range_push(
    txs: Seq<TransactionModel>,
    t: TransactionModel,
    pk: Seq<char>,
    lo: int,
    hi: int,
)
    requires
        0 <= lo <= hi <= txs.len(),
    ensures
        unspent_range(txs.push(t), pk, lo, hi) == unspent_range(txs, pk, lo, hi).filter(
            not_spent_by(t, pk),
        ),
    decreases hi - lo,
{
    reveal(Seq::filter);
    let p = txs.push(t);
    let pred = not_spent_by(t, pk);
    if lo >= hi {
        assert(unspent_range(p, pk, lo, hi) =~= Seq::<UnspentEntry>::empty());
        assert(unspent_range(txs, pk, lo, hi).filter(pred) =~= Seq::<UnspentEntry>::empty());
    } else {
        lemma_range_push(txs, t, pk, lo + 1, hi);
        lemma_contrib_push(txs, t, pk, lo);
        Seq::filter_distributes_over_add(
            unspent_range(txs, pk, lo + 1, hi),
            tx_contrib(txs, pk, lo),
            pred,
        );
        assert(unspent_range(p, pk, lo, hi) =~= unspent_range(txs, pk, lo, hi).filter(pred));
    }
}

/// The main append law: the new record's contribution, then the old unspent
/// list with whatever the new record consumed removed.
pub proof fn lemma_unspent_push(txs: Seq<TransactionModel>, t: TransactionModel, pk: Seq<char>)
    ensures
        unspent_for(txs.push(t), pk) == tx_contrib(txs.push(t), pk, txs.len() as int)
            + unspent_for(txs, pk).filter(not_spent_by(t, pk)),
{
    let p = txs.push(t);
    lemma_range_peel_top(p, pk, 0, p.len() as int);
    lemma_range_push(txs, t, pk, 0, txs.len() as int);
}

/// A record that does not involve `pk` leaves `pk`'s unspent list untouched.
pub proof fn lemma_append_foreign(txs: Seq<TransactionModel>, t: TransactionModel, pk: Seq<char>)
    requires
        !involves(t, pk),
    ensures
        unspent_for(txs.push(t), pk) == unspent_for(txs, pk),
{
    lemma_unspent_push(txs, t, pk);
    let p = txs.push(t);
    assert(p[txs.len() as int] == t);
    assert(tx_contrib(p, pk, txs.len() as int) =~= Seq::<UnspentEntry>::empty());
    assert(forall|n: int|
        0 <= n < unspent_for(txs, pk).len() ==> not_spent_by(t, pk)(
            #[trigger] unspent_for(txs, pk)[n],
        ));
    lemma_filter_all_true(unspent_for(txs, pk), not_spent_by(t, pk));
    assert(unspent_for(txs.push(t), pk) =~= unspent_for(txs, pk));
}

/// Within one record's unspent prefix, output numbers strictly increase.
pub proof fn lemma_upto_ids_increasing(txs: Seq<TransactionModel>, pk: Seq<char>, i: int, k: int)
    requires
        vouts_wf(txs),
        0 <= i < txs.len(),
        0 <= k <= txs[i].vouts.len(),
    ensures
        forall|n: int|
            0 <= n < tx_unspent_upto(txs, pk, i, k).len() ==> (#[trigger] tx_unspent_upto(
                txs,
                pk,
                i,
                k,
            )[n]).1.id < k,
        forall|a: int, b: int|
            0 <= a < b < tx_unspent_upto(txs, pk, i, k).len() ==> (#[trigger] tx_unspent_upto(
                txs,
                pk,
                i,
                k,
            )[a]).1.id < (#[trigger] tx_unspent_upto(txs, pk, i, k)[b]).1.id,
    decreases k,
{
    if k > 0 {
        lemma_upto_ids_increasing(txs, pk, i, k - 1);
        let s = tx_unspent_upto(txs, pk, i, k);
        let s0 = tx_unspent_upto(txs, pk, i, k - 1);
        if output_unspent(txs, pk, i, k - 1) {
            assert(txs[i].vouts[k - 1].id == k - 1);
            assert(s == s0 + seq![(txs[i].id, txs[i].vouts[k - 1])]);
            assert(forall|n: int| 0 <= n < s0.len() ==> s[n] == s0[n]);
            assert(s[s.len() - 1] == (txs[i].id, txs[i].vouts[k - 1]));
        } else {
            assert(s =~= s0);
        }
    }
}

/// Under a well-formed store, no two entries of an unspent range share the
/// (record identifier, output number) pair that an input would reference.
pub proof fn lemma_range_keys_distinct(txs: Seq<TransactionModel>, pk: Seq<char>, lo: int, hi: int)
    requires
        ids_wf(txs),
        vouts_wf(txs),
        0 <= lo <= hi <= txs.len(),
    ensures
        forall|a: int, b: int|
            0 <= a < b < unspent_range(txs, pk, lo, hi).len() ==> !((#[trigger] unspent_range(
                txs,
                pk,
                lo,
                hi,
            )[a]).0 == (#[trigger] unspent_range(txs, pk, lo, hi)[b]).0 && unspent_range(
                txs,
                pk,
                lo,
                hi,
            )[a].1.id == unspent_range(txs, pk, lo, hi)[b].1.id),
    decreases hi - lo,
{
    if lo < hi {
        let s = unspent_range(txs, pk, lo, hi);
        let s_a = unspent_range(txs, pk, lo + 1, hi);
        let s_b = tx_contrib(txs, pk, lo);
        let k0 = txs[lo].vouts.len() as int;
        lemma_range_keys_distinct(txs, pk, lo + 1, hi);
        lemma_range_entries(txs, pk, lo + 1, hi);
        lemma_upto_ids_increasing(txs, pk, lo, k0);
        lemma_upto_entries(txs, pk, lo, k0);
        assert(s == s_a + s_b);
        assert forall|a: int, b: int| 0 <= a < b < s.len() implies !((#[trigger] s[a]).0 == (
        #[trigger] s[b]).0 && s[a].1.id == s[b].1.id) by {
            if b < s_a.len() {
                assert(s[a] == s_a[a] && s[b] == s_a[b]);
            } else if a >= s_a.len() {
                assert(involves(txs[lo], pk));
                assert(s_b == tx_unspent_upto(txs, pk, lo, k0));
                assert(s[a] == s_b[a - s_a.len()] && s[b] == s_b[b - s_a.len()]);
                assert(s[a].1.id < s[b].1.id);
            } else {
                // one entry from an older record, one from this record:
                // their minting records differ, so their identifiers differ.
                assert(involves(txs[lo], pk));
                assert(s_b == tx_unspent_upto(txs, pk, lo, k0));
                assert(s[a] == s_a[a]);
                assert(s[b] == s_b[b - s_a.len()]);
                let i_a = choose|i: int| lo + 1 <= i < hi && entry_minted(txs, pk, s_a[a], i);
                assert(s[a].0 == txs[i_a].id);
                assert(s[a].0 == decimal_of(i_a as nat));
                assert(s[b].0 == txs[lo].id);
                assert(s[b].0 == decimal_of(lo as nat));
                if s[a].0 == s[b].0 {
                    lemma_decimal_injective(i_a as nat, lo as nat);
                    assert(false);
                }
            }
        }
    }
}

} // verus!
