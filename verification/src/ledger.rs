//! The ledger engine: coinbase issuance, transfers and balance queries over
//! an append-only in-memory transaction store. Every operation's effect on
//! every user's balance is part of its contract: issuance credits exactly the
//! minted value, a transfer moves exactly the requested value from sender to
//! recipient and touches nobody else, and an insufficient transfer leaves
//! the store untouched.

use vstd::prelude::*;
use crate::append::{
    ids_wf, lemma_append_foreign, lemma_filter_all_true, lemma_filter_skip_prefix,
    lemma_range_keys_distinct, lemma_unspent_push, not_spent_by, vouts_wf,
};
use crate::numerals::decimal_of;
use crate::records::{
    sha256_hex_of, tx_preimage, Transaction, TransactionModel, VIn, VInModel, VOut, VOutModel,
};
use crate::resolver::{
    balance_spec, entry_minted, involves, lemma_range_entries, lemma_sum_distributes,
    lemma_sum_nonneg, lemma_sum_take_skip, lemma_sum_take_succ, spends, spent_later, sum_values,
    tx_contrib, tx_unspent_upto, unspent_for, unspent_from, unspent_range, balance_from,
    try_balance_from, UnspentEntry,
};
use crate::User;

verus! {

/// The errors an operation can surface. An insufficient transfer is
/// recoverable and reported, never a panic; the in-memory store itself
/// cannot fail.
#[derive(Debug, PartialEq, Eq, Structural, Clone, Copy)]
pub enum LedgerError {
    InsufficientFunds,
}

/// Every input of every non-coinbase record is made on behalf of a
/// participant of that record and references an output of an earlier record
/// owned by that same key.
pub open spec fn vins_wf(txs: Seq<TransactionModel>) -> bool {
    forall|j: int, n: int|
        0 <= j < txs.len() && !txs[j].is_coinbase && 0 <= n < txs[j].vins.len() ==> {
            &&& involves(txs[j], (#[trigger] txs[j].vins[n]).pub_key)
            &&& exists|i: int, q: int|
                0 <= i < j && 0 <= q < txs[i].vouts.len() && txs[i].id == txs[j].vins[n].txdir && (
                #[trigger] txs[i].vouts[q]).id == txs[j].vins[n].vout
                    && txs[i].vouts[q].hashed_pub_key == txs[j].vins[n].pub_key
        }
}

/// A well-formed store: identifiers are positional numerals, outputs are
/// numbered by position, and inputs reference real prior outputs of their
/// own spender.
pub open spec fn store_wf(txs: Seq<TransactionModel>) -> bool {
    &&& ids_wf(txs)
    &&& vouts_wf(txs)
    &&& vins_wf(txs)
}

/// Appending a record whose inputs all reference prior outputs correctly
/// keeps the input discipline.
proof fn lemma_vins_wf_push(txs: Seq<TransactionModel>, t: TransactionModel)
    requires
        vins_wf(txs),
        !t.is_coinbase ==> forall|n: int|
            0 <= n < t.vins.len() ==> {
                &&& involves(t, (#[trigger] t.vins[n]).pub_key)
                &&& exists|i: int, q: int|
                    0 <= i < txs.len() && 0 <= q < txs[i].vouts.len() && txs[i].id
                        == t.vins[n].txdir && (#[trigger] txs[i].vouts[q]).id == t.vins[n].vout
                        && txs[i].vouts[q].hashed_pub_key == t.vins[n].pub_key
            },
    ensures
        vins_wf(txs.push(t)),
{
    let p = txs.push(t);
    assert forall|j: int, n: int|
        0 <= j < p.len() && !p[j].is_coinbase && 0 <= n < p[j].vins.len() implies {
        &&& involves(p[j], (#[trigger] p[j].vins[n]).pub_key)
        &&& exists|i: int, q: int|
            0 <= i < j && 0 <= q < p[i].vouts.len() && p[i].id == p[j].vins[n].txdir && (
            #[trigger] p[i].vouts[q]).id == p[j].vins[n].vout && p[i].vouts[q].hashed_pub_key
                == p[j].vins[n].pub_key
    } by {
        if j < txs.len() {
            assert(p[j] == txs[j]);
            assert(involves(txs[j], txs[j].vins[n].pub_key));
            let (i, q) = choose|i: int, q: int|
                0 <= i < j && 0 <= q < txs[i].vouts.len() && txs[i].id == txs[j].vins[n].txdir && (
                #[trigger] txs[i].vouts[q]).id == txs[j].vins[n].vout
                    && txs[i].vouts[q].hashed_pub_key == txs[j].vins[n].pub_key;
            assert(p[i] == txs[i]);
            assert(0 <= i < j && 0 <= q < p[i].vouts.len() && p[i].id == p[j].vins[n].txdir
                && p[i].vouts[q].id == p[j].vins[n].vout && p[i].vouts[q].hashed_pub_key
                == p[j].vins[n].pub_key);
        } else {
            assert(p[j] == t);
            let (i, q) = choose|i: int, q: int|
                0 <= i < txs.len() && 0 <= q < txs[i].vouts.len() && txs[i].id == t.vins[n].txdir
                    && (#[trigger] txs[i].vouts[q]).id == t.vins[n].vout
                    && txs[i].vouts[q].hashed_pub_key == t.vins[n].pub_key;
            assert(p[i] == txs[i]);
            assert(0 <= i < j && 0 <= q < p[i].vouts.len() && p[i].id == p[j].vins[n].txdir
                && p[i].vouts[q].id == p[j].vins[n].vout && p[i].vouts[q].hashed_pub_key
                == p[j].vins[n].pub_key);
        }
    }
}

/// The shape of an issuance record: one placeholder input, one output
/// crediting the minted value, the single participant, and the advisory hash
/// over the record's own fields and instant.
pub open spec fn coinbase_record(
    t: TransactionModel,
    seqno: nat,
    uname: Seq<char>,
    pk: Seq<char>,
    value: u32,
) -> bool {
    &&& t.id == decimal_of(seqno)
    &&& t.is_coinbase
    &&& t.vins =~= seq![
        VInModel {
            id: 0,
            txdir: Seq::<char>::empty(),
            vout: 0,
            firm: Seq::<char>::empty(),
            pub_key: Seq::<char>::empty(),
        },
    ]
    &&& t.vouts =~= seq![VOutModel { id: 0, username: uname, hashed_pub_key: pk, value }]
    &&& t.users =~= seq![pk]
    &&& t.hash == sha256_hex_of(tx_preimage(t.timestamp, t.vins, t.vouts, t.users))
}

/// How many unspent entries the greedy selection takes: entries are
/// accumulated newest first, and selection stops as soon as the running
/// total reaches the requested value — always after at least one entry.
pub open spec fn greedy_count(s: Seq<UnspentEntry>, value: int) -> int
    decreases s.len(),
{
    if s.len() == 0 {
        0
    } else if s[0].1.value >= value {
        1
    } else {
        1 + greedy_count(s.drop_first(), value - s[0].1.value)
    }
}

/// What the greedy selection guarantees: it never overshoots the list, the
/// running total stays short of the value before the stopping point, and it
/// reaches the value whenever the whole list does.
pub proof fn lemma_greedy(s: Seq<UnspentEntry>, value: int)
    ensures
        0 <= greedy_count(s, value) <= s.len(),
        s.len() > 0 ==> greedy_count(s, value) >= 1,
        forall|i: int| 1 <= i < greedy_count(s, value) ==> sum_values(s.take(i)) < value,
        greedy_count(s, value) < s.len() ==> sum_values(s.take(greedy_count(s, value))) >= value,
        sum_values(s) >= value ==> sum_values(s.take(greedy_count(s, value))) >= value,
        sum_values(s) < value ==> greedy_count(s, value) == s.len(),
    decreases s.len(),
{
    if s.len() == 0 {
        assert(s.take(0) =~= s);
    } else {
        let v0 = s[0].1.value as int;
        let s1 = s.drop_first();
        lemma_sum_nonneg(s1);
        assert(s =~= seq![s[0]] + s1);
        lemma_sum_distributes(seq![s[0]], s1);
        assert(seq![s[0]].drop_first() =~= Seq::<UnspentEntry>::empty());
        assert(sum_values(seq![s[0]]) == v0);
        assert(sum_values(s) == v0 + sum_values(s1));
        lemma_sum_take_succ(s, 0);
        assert(s.take(0) =~= Seq::<UnspentEntry>::empty());
        assert(sum_values(s.take(1)) == v0);
        if v0 >= value {
            assert(greedy_count(s, value) == 1);
        } else {
            lemma_greedy(s1, value - v0);
            let g1 = greedy_count(s1, value - v0);
            let g = 1 + g1;
            assert(greedy_count(s, value) == g);
            assert forall|i: int| 1 <= i < g implies sum_values(s.take(i)) < value by {
                assert(s.take(i).drop_first() =~= s1.take(i - 1));
                assert(s.take(i)[0] == s[0]);
                assert(sum_values(s.take(i)) == v0 + sum_values(s1.take(i - 1)));
                if i == 1 {
                    assert(s1.take(0) =~= Seq::<UnspentEntry>::empty());
                } else {
                    assert(1 <= i - 1 < g1);
                    assert(sum_values(s1.take(i - 1)) < value - v0);
                }
            }
            assert(s.take(g).drop_first() =~= s1.take(g1));
            assert(s.take(g)[0] == s[0]);
            assert(sum_values(s.take(g)) == v0 + sum_values(s1.take(g1)));
            if g < s.len() {
                assert(g1 < s1.len());
                assert(sum_values(s1.take(g1)) >= value - v0);
            }
            if sum_values(s) >= value {
                assert(sum_values(s1) >= value - v0);
                assert(sum_values(s1.take(g1)) >= value - v0);
            }
            if sum_values(s) < value {
                assert(sum_values(s1) < value - v0);
                assert(g1 == s1.len());
            }
        }
    }
}

/// The shape of a transfer record built over the sender's unspent list `s`:
/// the greedy prefix of `s` as inputs, one output paying the recipient, a
/// change output back to the sender exactly when the selection overshot,
/// both participants, and the advisory hash.
pub open spec fn transfer_record(
    t: TransactionModel,
    seqno: nat,
    from_uname: Seq<char>,
    from_pk: Seq<char>,
    to_uname: Seq<char>,
    to_pk: Seq<char>,
    value: u32,
    s: Seq<UnspentEntry>,
) -> bool {
    let m = greedy_count(s, value as int);
    let total = sum_values(s.take(m));
    &&& t.id == decimal_of(seqno)
    &&& !t.is_coinbase
    &&& t.users =~= seq![from_pk, to_pk]
    &&& t.vins.len() == m
    &&& forall|n: int|
        0 <= n < m ==> (#[trigger] t.vins[n]) =~= VInModel {
            id: n as u32,
            txdir: s[n].0,
            vout: s[n].1.id,
            firm: Seq::<char>::empty(),
            pub_key: from_pk,
        }
    &&& t.vouts.len() == (if total > value as int {
        2int
    } else {
        1int
    })
    &&& t.vouts[0] =~= VOutModel { id: 0, username: to_uname, hashed_pub_key: to_pk, value }
    &&& (total > value as int ==> t.vouts[1] =~= VOutModel {
        id: 1,
        username: from_uname,
        hashed_pub_key: from_pk,
        value: (total - value) as u32,
    })
    &&& t.hash == sha256_hex_of(tx_preimage(t.timestamp, t.vins, t.vouts, t.users))
}

/// What issuing to `pk` does to every balance: the issuer gains exactly the
/// minted value, everyone else is untouched.
proof fn lemma_coinbase_effect(
    txs: Seq<TransactionModel>,
    t: TransactionModel,
    seqno: nat,
    uname: Seq<char>,
    pk: Seq<char>,
    value: u32,
)
    requires
        coinbase_record(t, seqno, uname, pk, value),
    ensures
        unspent_for(txs.push(t), pk) == seq![(t.id, t.vouts[0])] + unspent_for(txs, pk),
        balance_spec(txs.push(t), pk) == balance_spec(txs, pk) + value,
        forall|other: Seq<char>|
            other != pk ==> balance_spec(txs.push(t), other) == balance_spec(txs, other),
    decreases 0int,
{
    let p = txs.push(t);
    let top = txs.len() as int;
    assert(p[top] == t);
    // the issuer's view
    lemma_unspent_push(txs, t, pk);
    assert(forall|n: int|
        0 <= n < unspent_for(txs, pk).len() ==> not_spent_by(t, pk)(
            #[trigger] unspent_for(txs, pk)[n],
        ));
    lemma_filter_all_true(unspent_for(txs, pk), not_spent_by(t, pk));
    assert(t.users[0] == pk);
    assert(involves(t, pk));
    assert(!spent_later(p, pk, top, t.vouts[0].id)) by {
        if spent_later(p, pk, top, t.vouts[0].id) {
            let j = choose|j: int|
                top < j < p.len() && involves(#[trigger] p[j], pk) && spends(
                    p[j],
                    pk,
                    p[top].id,
                    t.vouts[0].id,
                );
            assert(false);
        }
    }
    assert(tx_unspent_upto(p, pk, top, 0) =~= Seq::<UnspentEntry>::empty());
    assert(t.vouts[0].hashed_pub_key == pk);
    assert(tx_unspent_upto(p, pk, top, 1) =~= seq![(t.id, t.vouts[0])]);
    assert(p[top].vouts.len() == 1);
    assert(tx_contrib(p, pk, top) =~= seq![(t.id, t.vouts[0])]);
    assert(unspent_for(p, pk) =~= seq![(t.id, t.vouts[0])] + unspent_for(txs, pk));
    lemma_sum_distributes(seq![(t.id, t.vouts[0])], unspent_for(txs, pk));
    assert(seq![(t.id, t.vouts[0])].drop_first() =~= Seq::<UnspentEntry>::empty());
    assert(seq![(t.id, t.vouts[0])][0] == (t.id, t.vouts[0]));
    assert(sum_values(Seq::<UnspentEntry>::empty()) == 0);
    assert(t.vouts[0].value == value);
    assert(sum_values(seq![(t.id, t.vouts[0])]) == value);
    // everyone else
    assert forall|other: Seq<char>| other != pk implies balance_spec(p, other) == balance_spec(
        txs,
        other,
    ) by {
        assert(!involves(t, other)) by {
            if involves(t, other) {
                let j = choose|j: int| 0 <= j < t.users.len() && t.users[j] == other;
                assert(t.users[j] == pk);
            }
        }
        lemma_append_foreign(txs, t, other);
    }
}

/// What a transfer does to every balance: the sender loses exactly the
/// requested value, the recipient gains exactly it, and nobody else moves.
proof fn lemma_transfer_effect(
    txs: Seq<TransactionModel>,
    t: TransactionModel,
    seqno: nat,
    from_uname: Seq<char>,
    from_pk: Seq<char>,
    to_uname: Seq<char>,
    to_pk: Seq<char>,
    value: u32,
)
    requires
        ids_wf(txs),
        vouts_wf(txs),
        transfer_record(
            t,
            seqno,
            from_uname,
            from_pk,
            to_uname,
            to_pk,
            value,
            unspent_for(txs, from_pk),
        ),
        sum_values(
            unspent_for(txs, from_pk).take(greedy_count(unspent_for(txs, from_pk), value as int)),
        ) >= value as int,
        greedy_count(unspent_for(txs, from_pk), value as int) <= unspent_for(txs, from_pk).len(),
        sum_values(
            unspent_for(txs, from_pk).take(greedy_count(unspent_for(txs, from_pk), value as int)),
        ) - value <= u32::MAX as int,
    ensures
        balance_spec(txs, from_pk) >= value as int,
        from_pk != to_pk ==> balance_spec(txs.push(t), from_pk) == balance_spec(txs, from_pk)
            - value,
        from_pk != to_pk ==> balance_spec(txs.push(t), to_pk) == balance_spec(txs, to_pk) + value,
        forall|pk: Seq<char>|
            pk != from_pk && pk != to_pk ==> balance_spec(txs.push(t), pk) == balance_spec(txs, pk),
{
    let s = unspent_for(txs, from_pk);
    let m = greedy_count(s, value as int);
    let total = sum_values(s.take(m));
    let p = txs.push(t);
    let top = txs.len() as int;
    assert(p[top] == t);
    assert(t.users[0] == from_pk);
    assert(t.users[1] == to_pk);
    assert(involves(t, from_pk));
    assert(involves(t, to_pk));
    lemma_sum_take_skip(s, m);
    lemma_sum_nonneg(s.skip(m));
    assert(balance_spec(txs, from_pk) >= value as int);
    assert forall|oid: u32| !spent_later(p, from_pk, top, oid) && !spent_later(
        p,
        to_pk,
        top,
        oid,
    ) by {
        if spent_later(p, from_pk, top, oid) {
            let j = choose|j: int|
                top < j < p.len() && involves(#[trigger] p[j], from_pk) && spends(
                    p[j],
                    from_pk,
                    p[top].id,
                    oid,
                );
            assert(false);
        }
        if spent_later(p, to_pk, top, oid) {
            let j = choose|j: int|
                top < j < p.len() && involves(#[trigger] p[j], to_pk) && spends(
                    p[j],
                    to_pk,
                    p[top].id,
                    oid,
                );
            assert(false);
        }
    }
    if from_pk != to_pk {
        // the sender: the new record consumes exactly the greedy prefix of the
        // sender's unspent list and gives back the change, if any.
        lemma_unspent_push(txs, t, from_pk);
        lemma_range_keys_distinct(txs, from_pk, 0, txs.len() as int);
        assert(s == unspent_range(txs, from_pk, 0, txs.len() as int));
        let pred = not_spent_by(t, from_pk);
        assert forall|j: int| 0 <= j < m implies !pred(#[trigger] s[j]) by {
            assert(t.vins[j] =~= VInModel {
                id: j as u32,
                txdir: s[j].0,
                vout: s[j].1.id,
                firm: Seq::<char>::empty(),
                pub_key: from_pk,
            });
            assert(0 <= j < t.vins.len() && t.vins[j].pub_key == from_pk && t.vins[j].txdir
                == s[j].0 && t.vins[j].vout == s[j].1.id);
            assert(spends(t, from_pk, s[j].0, s[j].1.id));
        }
        assert forall|j: int| m <= j < s.len() implies pred(#[trigger] s[j]) by {
            if !pred(s[j]) {
                let n = choose|n: int|
                    0 <= n < t.vins.len() && t.vins[n].pub_key == from_pk && t.vins[n].txdir
                        == s[j].0 && t.vins[n].vout == s[j].1.id;
                assert(t.vins[n] =~= VInModel {
                    id: n as u32,
                    txdir: s[n].0,
                    vout: s[n].1.id,
                    firm: Seq::<char>::empty(),
                    pub_key: from_pk,
                });
                assert(s[n].0 == s[j].0 && s[n].1.id == s[j].1.id);
                assert(0 <= n < j < s.len());
                assert(false);
            }
        }
        lemma_filter_skip_prefix(s, pred, m);
        if total > value as int {
            assert(t.vouts[0].hashed_pub_key == to_pk);
            assert(t.vouts[1].hashed_pub_key == from_pk);
            assert(tx_unspent_upto(p, from_pk, top, 0) =~= Seq::<UnspentEntry>::empty());
            assert(tx_unspent_upto(p, from_pk, top, 1) =~= Seq::<UnspentEntry>::empty());
            assert(tx_unspent_upto(p, from_pk, top, 2) =~= seq![(t.id, t.vouts[1])]);
            assert(tx_contrib(p, from_pk, top) =~= seq![(t.id, t.vouts[1])]);
            assert(unspent_for(p, from_pk) =~= seq![(t.id, t.vouts[1])] + s.skip(m));
            lemma_sum_distributes(seq![(t.id, t.vouts[1])], s.skip(m));
            assert(seq![(t.id, t.vouts[1])].drop_first() =~= Seq::<UnspentEntry>::empty());
            assert(seq![(t.id, t.vouts[1])][0] == (t.id, t.vouts[1]));
            assert(sum_values(Seq::<UnspentEntry>::empty()) == 0);
            assert(t.vouts[1].value as int == total - value);
            assert(sum_values(seq![(t.id, t.vouts[1])]) == total - value);
            assert(balance_spec(p, from_pk) == balance_spec(txs, from_pk) - value);
        } else {
            assert(total == value as int);
            assert(t.vouts.len() == 1);
            assert(t.vouts[0].hashed_pub_key == to_pk);
            assert(tx_unspent_upto(p, from_pk, top, 0) =~= Seq::<UnspentEntry>::empty());
            assert(tx_unspent_upto(p, from_pk, top, 1) =~= Seq::<UnspentEntry>::empty());
            assert(tx_contrib(p, from_pk, top) =~= Seq::<UnspentEntry>::empty());
            assert(unspent_for(p, from_pk) =~= s.skip(m));
            assert(balance_spec(p, from_pk) == balance_spec(txs, from_pk) - value);
        }
        // the recipient: nothing of the recipient's is consumed, and the new
        // record contributes exactly the payment output.
        lemma_unspent_push(txs, t, to_pk);
        let s_to = unspent_for(txs, to_pk);
        let pred_to = not_spent_by(t, to_pk);
        assert forall|n: int| 0 <= n < s_to.len() implies pred_to(#[trigger] s_to[n]) by {
            if !pred_to(s_to[n]) {
                let q = choose|q: int|
                    0 <= q < t.vins.len() && t.vins[q].pub_key == to_pk && t.vins[q].txdir
                        == s_to[n].0 && t.vins[q].vout == s_to[n].1.id;
                assert(t.vins[q] =~= VInModel {
                    id: q as u32,
                    txdir: s[q].0,
                    vout: s[q].1.id,
                    firm: Seq::<char>::empty(),
                    pub_key: from_pk,
                });
                assert(false);
            }
        }
        lemma_filter_all_true(s_to, pred_to);
        assert(tx_unspent_upto(p, to_pk, top, 0) =~= Seq::<UnspentEntry>::empty());
        assert(tx_unspent_upto(p, to_pk, top, 1) =~= seq![(t.id, t.vouts[0])]);
        if total > value as int {
            assert(t.vouts[1].hashed_pub_key == from_pk);
            assert(tx_unspent_upto(p, to_pk, top, 2) =~= seq![(t.id, t.vouts[0])]);
            assert(tx_contrib(p, to_pk, top) =~= seq![(t.id, t.vouts[0])]);
        } else {
            assert(tx_contrib(p, to_pk, top) =~= seq![(t.id, t.vouts[0])]);
        }
        assert(unspent_for(p, to_pk) =~= seq![(t.id, t.vouts[0])] + s_to);
        lemma_sum_distributes(seq![(t.id, t.vouts[0])], s_to);
        assert(seq![(t.id, t.vouts[0])].drop_first() =~= Seq::<UnspentEntry>::empty());
        assert(seq![(t.id, t.vouts[0])][0] == (t.id, t.vouts[0]));
        assert(sum_values(Seq::<UnspentEntry>::empty()) == 0);
        assert(sum_values(seq![(t.id, t.vouts[0])]) == value);
        assert(balance_spec(p, to_pk) == balance_spec(txs, to_pk) + value);
    }
    assert forall|pk: Seq<char>| pk != from_pk && pk != to_pk implies balance_spec(p, pk)
        == balance_spec(txs, pk) by {
        assert(!involves(t, pk)) by {
            if involves(t, pk) {
                let j = choose|j: int| 0 <= j < t.users.len() && t.users[j] == pk;
                assert(t.users.len() == 2);
                assert(j == 0 || j == 1);
            }
        }
        lemma_append_foreign(txs, t, pk);
    }
}

/// The ledger engine over an append-only in-memory store. It holds no state
/// beyond the store; balances are derived on demand by the resolver.
pub struct TransactionManager {
    txs: Vec<Transaction>,
}

impl View for TransactionManager {
    type V = Seq<TransactionModel>;

    closed spec fn view(&self) -> Seq<TransactionModel> {
        self.txs.deep_view()
    }
}

impl TransactionManager {
    /// A well-formed ledger: see `store_wf`.
    pub open spec fn wf(self) -> bool {
        store_wf(self.view())
    }

    /// An empty ledger.
    pub fn new() -> (r: TransactionManager)
        ensures
            r@ =~= Seq::<TransactionModel>::empty(),
            r.wf(),
    {
        let r = TransactionManager { txs: Vec::new() };
        proof {
            assert(r.txs.deep_view() =~= Seq::<TransactionModel>::empty());
        }
        r
    }

    /// Mints `value` for `user`: appends one coinbase record. The user's
    /// balance grows by exactly `value` and every other balance is
    /// untouched.
    pub fn create_coinbase(&mut self, user: &User, value: u32)
        requires
            old(self).wf(),
        ensures
            final(self).wf(),
            final(self)@.len() == old(self)@.len() + 1,
            final(self)@ =~= old(self)@.push(final(self)@.last()),
            coinbase_record(
                final(self)@.last(),
                old(self)@.len() as nat,
                user.username@,
                user.pub_key@,
                value,
            ),
            balance_spec(final(self)@, user.pub_key@) == balance_spec(old(self)@, user.pub_key@)
                + value,
            forall|pk: Seq<char>|
                pk != user.pub_key@ ==> balance_spec(final(self)@, pk) == balance_spec(
                    old(self)@,
                    pk,
                ),
    {
        let ghost old_view = self.txs.deep_view();
        let mut vins: Vec<VIn> = Vec::new();
        vins.push(
            VIn {
                id: 0,
                txdir: String::new(),
                vout: 0,
                firm: String::new(),
                pub_key: String::new(),
            },
        );
        let mut vouts: Vec<VOut> = Vec::new();
        vouts.push(
            VOut {
                id: 0,
                username: user.username.clone(),
                hashed_pub_key: user.pub_key.clone(),
                value,
            },
        );
        let mut users: Vec<String> = Vec::new();
        users.push(user.pub_key.clone());
        proof {
            assert(vins.deep_view() =~= seq![
                VInModel {
                    id: 0,
                    txdir: Seq::<char>::empty(),
                    vout: 0,
                    firm: Seq::<char>::empty(),
                    pub_key: Seq::<char>::empty(),
                },
            ]);
            assert(vouts.deep_view() =~= seq![
                VOutModel {
                    id: 0,
                    username: user.username@,
                    hashed_pub_key: user.pub_key@,
                    value,
                },
            ]);
            assert(users.deep_view() =~= seq![user.pub_key@]);
        }
        let seqno = self.txs.len() as u64;
        let t = Transaction::new(seqno, vins, vouts, users, true);
        proof {
            assert(coinbase_record(
                t@,
                old_view.len() as nat,
                user.username@,
                user.pub_key@,
                value,
            ));
            lemma_coinbase_effect(
                old_view,
                t@,
                old_view.len() as nat,
                user.username@,
                user.pub_key@,
                value,
            );
            lemma_vins_wf_push(old_view, t@);
        }
        self.txs.push(t);
        proof {
            let p = self.txs.deep_view();
            assert(p =~= old_view.push(t@));
            assert forall|i: int| 0 <= i < p.len() implies (#[trigger] p[i]).id == decimal_of(
                i as nat,
            ) by {
                if i < old_view.len() {
                    assert(p[i] == old_view[i]);
                } else {
                    assert(p[i] == t@);
                }
            }
            assert forall|i: int, k: int|
                0 <= i < p.len() && 0 <= k < p[i].vouts.len() implies (#[trigger] p[i].vouts[k]).id
                == k by {
                if i < old_view.len() {
                    assert(p[i] == old_view[i]);
                    assert(old_view[i].vouts[k].id == k);
                } else {
                    assert(p[i] == t@);
                }
            }
        }
    }

    /// The outputs `user` can still spend, newest record first.
    pub fn get_unspent(&self, user: &User) -> (r: Vec<(String, VOut)>)
        ensures
            r.deep_view() == unspent_for(self@, user.pub_key@),
    {
        unspent_from(&self.txs, &user.pub_key)
    }

    /// The balance of `user`: the total value of the user's unspent outputs.
    /// The caller owes that the total fits; `try_get_balance` checks instead.
    pub fn get_balance(&self, user: &User) -> (r: u32)
        requires
            balance_spec(self@, user.pub_key@) <= u32::MAX as int,
        ensures
            r as int == balance_spec(self@, user.pub_key@),
    {
        balance_from(&self.txs, &user.pub_key)
    }

    /// The balance of `user`, or nothing exactly when it exceeds `u32::MAX`.
    pub fn try_get_balance(&self, user: &User) -> (r: Option<u32>)
        ensures
            r is Some <==> balance_spec(self@, user.pub_key@) <= u32::MAX as int,
            r matches Some(b) ==> b as int == balance_spec(self@, user.pub_key@),
    {
        try_balance_from(&self.txs, &user.pub_key)
    }

    /// Moves `value` from `from` to `to`. Consumes the sender's unspent
    /// outputs greedily, newest first, pays the recipient, returns change to
    /// the sender when the selection overshot, and appends one record — or
    /// appends nothing and reports insufficient funds, exactly when the
    /// sender's balance is short of `value`.
    pub fn send(&mut self, from: &User, to: &User, value: u32) -> (r: Result<(), LedgerError>)
        requires
            old(self).wf(),
        ensures
            final(self).wf(),
            r is Err <==> balance_spec(old(self)@, from.pub_key@) < value as int,
            r is Err ==> final(self)@ == old(self)@ && r == Err::<(), LedgerError>(
                LedgerError::InsufficientFunds,
            ),
            r is Ok ==> {
                &&& final(self)@.len() == old(self)@.len() + 1
                &&& final(self)@ =~= old(self)@.push(final(self)@.last())
                &&& transfer_record(
                    final(self)@.last(),
                    old(self)@.len() as nat,
                    from.username@,
                    from.pub_key@,
                    to.username@,
                    to.pub_key@,
                    value,
                    unspent_for(old(self)@, from.pub_key@),
                )
            },
            r is Ok && from.pub_key@ != to.pub_key@ ==> balance_spec(final(self)@, from.pub_key@)
                == balance_spec(old(self)@, from.pub_key@) - value && balance_spec(
                final(self)@,
                to.pub_key@,
            ) == balance_spec(old(self)@, to.pub_key@) + value,
            r is Ok ==> forall|pk: Seq<char>|
                pk != from.pub_key@ && pk != to.pub_key@ ==> balance_spec(final(self)@, pk)
                    == balance_spec(old(self)@, pk),
    {
        let ghost old_view = self.txs.deep_view();
        let ghost from_pk = from.pub_key@;
        let entries = unspent_from(&self.txs, &from.pub_key);
        let ghost s = entries.deep_view();
        let ghost gc = greedy_count(s, value as int);
        proof {
            lemma_greedy(s, value as int);
            lemma_range_entries(old_view, from_pk, 0, old_view.len() as int);
            assert(s == unspent_range(old_view, from_pk, 0, old_view.len() as int));
        }
        let mut vins: Vec<VIn> = Vec::new();
        let mut total: u64 = 0;
        let mut done = false;
        let mut i: usize = 0;
        while i < entries.len()
            invariant
                s == entries.deep_view(),
                s == unspent_for(old_view, from_pk),
                from_pk == from.pub_key@,
                gc == greedy_count(s, value as int),
                0 <= gc <= s.len(),
                s.len() > 0 ==> gc >= 1,
                forall|j: int| 1 <= j < gc ==> sum_values(s.take(j)) < value as int,
                gc < s.len() ==> sum_values(s.take(gc)) >= value as int,
                sum_values(s) < value as int ==> gc == s.len(),
                forall|n: int|
                    0 <= n < s.len() ==> (#[trigger] s[n]).1.hashed_pub_key == from_pk,
                i <= entries.len(),
                !done ==> vins.len() == i && i <= gc && total as int == sum_values(
                    s.take(i as int),
                ) && (i == 0 || total < value as u64),
                done ==> vins.len() as int == gc && i >= gc && total as int == sum_values(
                    s.take(gc),
                ) && total >= value as u64,
                total as int <= value as int + u32::MAX as int,
                forall|n: int|
                    0 <= n < vins.len() ==> (#[trigger] vins.deep_view()[n]) =~= (VInModel {
                        id: n as u32,
                        txdir: s[n].0,
                        vout: s[n].1.id,
                        firm: Seq::<char>::empty(),
                        pub_key: from_pk,
                    }),
            decreases entries.len() - i,
        {
            if !done {
                let e = &entries[i];
                proof {
                    assert(s[i as int].1.hashed_pub_key == from_pk);
                }
                if e.1.hashed_pub_key == from.pub_key {
                    proof {
                        lemma_sum_take_succ(s, i as int);
                    }
                    total = total + (e.1.value as u64);
                    let ghost vins0 = vins.deep_view();
                    vins.push(
                        VIn {
                            id: i as u32,
                            txdir: e.0.clone(),
                            vout: e.1.id,
                            firm: String::new(),
                            pub_key: from.pub_key.clone(),
                        },
                    );
                    proof {
                        assert(vins.deep_view() =~= vins0.push(
                            VInModel {
                                id: i as u32,
                                txdir: s[i as int].0,
                                vout: s[i as int].1.id,
                                firm: Seq::<char>::empty(),
                                pub_key: from_pk,
                            },
                        ));
                        assert(i < gc) by {
                            if i as int == gc {
                                if i == 0 {
                                    assert(s.len() > 0);
                                } else {
                                    assert(gc < s.len());
                                    assert(sum_values(s.take(gc)) >= value as int);
                                }
                            }
                        }
                    }
                    if total >= value as u64 {
                        done = true;
                        proof {
                            assert(gc >= i + 1);
                            if gc > i + 1 {
                                assert(sum_values(s.take(i + 1)) < value as int);
                            }
                            assert(gc == i + 1);
                        }
                    }
                }
            }
            i = i + 1;
        }
        if total < value as u64 {
            proof {
                assert(!done);
                assert(s.take(s.len() as int) =~= s);
                assert(balance_spec(old_view, from_pk) < value as int);
            }
            return Err(LedgerError::InsufficientFunds);
        }
        proof {
            if !done {
                assert(vins.len() == entries.len());
                assert(s.take(s.len() as int) =~= s);
                assert(gc == s.len());
            }
            assert(vins.len() as int == gc);
            assert(total as int == sum_values(s.take(gc)));
            assert(total as int >= value as int);
            lemma_sum_take_skip(s, gc);
            lemma_sum_nonneg(s.skip(gc));
            assert(balance_spec(old_view, from_pk) >= value as int);
        }
        let mut vouts: Vec<VOut> = Vec::new();
        vouts.push(
            VOut {
                id: 0,
                username: to.username.clone(),
                hashed_pub_key: to.pub_key.clone(),
                value,
            },
        );
        if total > value as u64 {
            let change = (total - value as u64) as u32;
            vouts.push(
                VOut {
                    id: 1,
                    username: from.username.clone(),
                    hashed_pub_key: from.pub_key.clone(),
                    value: change,
                },
            );
            proof {
                assert(vouts.deep_view() =~= seq![
                    VOutModel {
                        id: 0,
                        username: to.username@,
                        hashed_pub_key: to.pub_key@,
                        value,
                    },
                    VOutModel {
                        id: 1,
                        username: from.username@,
                        hashed_pub_key: from.pub_key@,
                        value: change,
                    },
                ]);
            }
        } else {
            proof {
                assert(vouts.deep_view() =~= seq![
                    VOutModel {
                        id: 0,
                        username: to.username@,
                        hashed_pub_key: to.pub_key@,
                        value,
                    },
                ]);
            }
        }
        let mut users: Vec<String> = Vec::new();
        users.push(from.pub_key.clone());
        users.push(to.pub_key.clone());
        proof {
            assert(users.deep_view() =~= seq![from.pub_key@, to.pub_key@]);
        }
        let seqno = self.txs.len() as u64;
        let t = Transaction::new(seqno, vins, vouts, users, false);
        proof {
            if total > value as u64 {
                assert(t@.vouts.len() == 2);
                assert(t@.vouts[0] =~= VOutModel {
                    id: 0,
                    username: to.username@,
                    hashed_pub_key: to.pub_key@,
                    value,
                });
                assert(t@.vouts[1] =~= VOutModel {
                    id: 1,
                    username: from.username@,
                    hashed_pub_key: from.pub_key@,
                    value: (total - value as u64) as u32,
                });
            } else {
                assert(t@.vouts.len() == 1);
                assert(t@.vouts[0] =~= VOutModel {
                    id: 0,
                    username: to.username@,
                    hashed_pub_key: to.pub_key@,
                    value,
                });
            }
            assert(transfer_record(
                t@,
                old_view.len() as nat,
                from.username@,
                from.pub_key@,
                to.username@,
                to.pub_key@,
                value,
                s,
            ));
            lemma_transfer_effect(
                old_view,
                t@,
                old_view.len() as nat,
                from.username@,
                from.pub_key@,
                to.username@,
                to.pub_key@,
                value,
            );
            // the new record's inputs reference real prior outputs of the sender
            assert forall|n: int| 0 <= n < t@.vins.len() implies {
                &&& involves(t@, (#[trigger] t@.vins[n]).pub_key)
                &&& exists|i2: int, q: int|
                    0 <= i2 < old_view.len() && 0 <= q < old_view[i2].vouts.len()
                        && old_view[i2].id == t@.vins[n].txdir && (
                    #[trigger] old_view[i2].vouts[q]).id == t@.vins[n].vout
                        && old_view[i2].vouts[q].hashed_pub_key == t@.vins[n].pub_key
            } by {
                assert(t@.vins[n] =~= VInModel {
                    id: n as u32,
                    txdir: s[n].0,
                    vout: s[n].1.id,
                    firm: Seq::<char>::empty(),
                    pub_key: from_pk,
                });
                assert(t@.users[0] == from_pk);
                assert(involves(t@, from_pk));
                assert(s[n].1.hashed_pub_key == from_pk);
                let i2 = choose|i2: int|
                    0 <= i2 < old_view.len() && entry_minted(old_view, from_pk, s[n], i2);
                let q = choose|q: int|
                    0 <= q < old_view[i2].vouts.len() && s[n].1 == #[trigger] old_view[i2].vouts[q]
                        && !spent_later(old_view, from_pk, i2, old_view[i2].vouts[q].id);
                assert(0 <= i2 < old_view.len() && 0 <= q < old_view[i2].vouts.len()
                    && old_view[i2].id == t@.vins[n].txdir && old_view[i2].vouts[q].id
                    == t@.vins[n].vout && old_view[i2].vouts[q].hashed_pub_key
                    == t@.vins[n].pub_key);
            }
            lemma_vins_wf_push(old_view, t@);
        }
        self.txs.push(t);
        proof {
            let p = self.txs.deep_view();
            assert(p =~= old_view.push(t@));
            assert forall|i2: int| 0 <= i2 < p.len() implies (#[trigger] p[i2]).id == decimal_of(
                i2 as nat,
            ) by {
                if i2 < old_view.len() {
                    assert(p[i2] == old_view[i2]);
                } else {
                    assert(p[i2] == t@);
                }
            }
            assert forall|i2: int, k: int|
                0 <= i2 < p.len() && 0 <= k < p[i2].vouts.len() implies (
            #[trigger] p[i2].vouts[k]).id == k by {
                if i2 < old_view.len() {
                    assert(p[i2] == old_view[i2]);
                    assert(old_view[i2].vouts[k].id == k);
                } else {
                    assert(p[i2] == t@);
                }
            }
        }
        Ok(())
    }
}

} // verus!
