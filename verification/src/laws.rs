//! The ledger's global laws, stated once over any well-formed store.

use vstd::prelude::*;
use crate::ledger::store_wf;
use crate::numerals::lemma_decimal_injective;
use crate::records::{sha256_hex_of, tx_preimage, TransactionModel, VInModel, VOutModel};
use crate::resolver::{
    balance_spec, entry_minted, involves, lemma_range_entries, lemma_sum_nonneg, spends,
    spent_later, unspent_for, unspent_range, UnspentEntry,
};

verus! {

/// Law: a balance is never negative — it is a sum of unsigned output values.
pub proof fn lemma_balance_nonnegative(txs: Seq<TransactionModel>, pk: Seq<char>)
    ensures
        balance_spec(txs, pk) >= 0,
{
    lemma_sum_nonneg(unspent_for(txs, pk));
}

/// Law: no double spend. In a well-formed store, once any input of any
/// record references an output, no unspent query — for any user — returns an
/// entry for that output again.
pub proof fn lemma_no_double_spend(
    txs: Seq<TransactionModel>,
    i: int,
    j: int,
    n: int,
    pk: Seq<char>,
    e: UnspentEntry,
)
    requires
        store_wf(txs),
        0 <= i < j < txs.len(),
        !txs[j].is_coinbase,
        0 <= n < txs[j].vins.len(),
        txs[i].id == txs[j].vins[n].txdir,
        e.0 == txs[i].id,
        e.1.id == txs[j].vins[n].vout,
    ensures
        !unspent_for(txs, pk).contains(e),
{
    if unspent_for(txs, pk).contains(e) {
        let s = unspent_for(txs, pk);
        let idx = choose|idx: int| 0 <= idx < s.len() && s[idx] == e;
        lemma_range_entries(txs, pk, 0, txs.len() as int);
        assert(s == unspent_range(txs, pk, 0, txs.len() as int));
        assert(s[idx].1.hashed_pub_key == pk);
        let i2 = choose|i2: int| 0 <= i2 < txs.len() && entry_minted(txs, pk, s[idx], i2);
        assert(txs[i2].id == e.0);
        assert(txs[i].id == e.0);
        lemma_decimal_injective(i as nat, i2 as nat);
        assert(i2 == i);
        let q = choose|q: int|
            0 <= q < txs[i].vouts.len() && e.1 == #[trigger] txs[i].vouts[q] && !spent_later(
                txs,
                pk,
                i,
                txs[i].vouts[q].id,
            );
        // The referencing input belongs, by well-formedness, to the owner of
        // the referenced output; and that owner is `pk`, since the entry was
        // returned for `pk`.
        let v = txs[j].vins[n];
        assert(involves(txs[j], v.pub_key));
        let (i0, q0) = choose|i0: int, q0: int|
            0 <= i0 < j && 0 <= q0 < txs[i0].vouts.len() && txs[i0].id == txs[j].vins[n].txdir && (
            #[trigger] txs[i0].vouts[q0]).id == txs[j].vins[n].vout
                && txs[i0].vouts[q0].hashed_pub_key == txs[j].vins[n].pub_key;
        assert(txs[i0].id == e.0);
        lemma_decimal_injective(i as nat, i0 as nat);
        assert(i0 == i);
        assert(txs[i].vouts[q0].id == q0);
        assert(txs[i].vouts[q].id == q);
        assert(txs[i].vouts[q].id == e.1.id);
        assert(q0 == q);
        assert(v.pub_key == txs[i].vouts[q].hashed_pub_key);
        assert(v.pub_key == pk);
        assert(spends(txs[j], pk, txs[i].id, e.1.id)) by {
            assert(0 <= n < txs[j].vins.len() && txs[j].vins[n].pub_key == pk
                && txs[j].vins[n].txdir == txs[i].id && txs[j].vins[n].vout == e.1.id);
        }
        assert(spent_later(txs, pk, i, txs[i].vouts[q].id)) by {
            assert(i < j < txs.len() && involves(txs[j], pk) && spends(
                txs[j],
                pk,
                txs[i].id,
                txs[i].vouts[q].id,
            ));
        }
        assert(false);
    }
}

/// Law: the content hash is a function of the record's fields and creation
/// instant alone — identical fields at the identical instant give the
/// identical hash.
pub proof fn lemma_content_hash_deterministic(
    ts1: u64,
    vins1: Seq<VInModel>,
    vouts1: Seq<VOutModel>,
    users1: Seq<Seq<char>>,
    ts2: u64,
    vins2: Seq<VInModel>,
    vouts2: Seq<VOutModel>,
    users2: Seq<Seq<char>>,
)
    requires
        ts1 == ts2,
        vins1 == vins2,
        vouts1 == vouts2,
        users1 == users2,
    ensures
        sha256_hex_of(tx_preimage(ts1, vins1, vouts1, users1)) == sha256_hex_of(
            tx_preimage(ts2, vins2, vouts2, users2),
        ),
{
}

} // verus!
