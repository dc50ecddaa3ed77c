//! The immutable units of the ledger: inputs, outputs and transaction
//! records, together with the content hash that binds a record's fields.
//!
//! A record carries two identifiers. `id` is the store-assigned name — the
//! decimal numeral of the record's position in the log — and is what inputs
//! reference. `hash` is an advisory fingerprint of the record's fields and
//! creation instant; nothing downstream verifies it.

use vstd::prelude::*;
use vstd::string::StringExecFns;
use crate::numerals::{decimal_of, u64_to_string};
use sha2::{Digest, Sha256};
use std::time::SystemTime;

verus! {

/// An input: consumes the output numbered `vout` of the earlier record whose
/// identifier is `txdir`. `firm` is an unpopulated signature placeholder.
pub struct VIn {
    pub id: u32,
    pub txdir: String,
    pub vout: u32,
    pub firm: String,
    pub pub_key: String,
}

/// An output: credits `value` to the holder of `hashed_pub_key`.
pub struct VOut {
    pub id: u32,
    pub username: String,
    pub hashed_pub_key: String,
    pub value: u32,
}

/// A transaction record: an ordered list of inputs consuming earlier outputs,
/// an ordered list of new outputs, the participants' public keys, and the
/// advisory content hash.
pub struct Transaction {
    pub id: String,
    pub hash: String,
    pub timestamp: u64,
    pub vins: Vec<VIn>,
    pub vouts: Vec<VOut>,
    pub users: Vec<String>,
    pub is_coinbase: bool,
}

/// The mathematical image of an input: strings as character sequences.
#[verifier::ext_equal]
pub struct VInModel {
    pub id: u32,
    pub txdir: Seq<char>,
    pub vout: u32,
    pub firm: Seq<char>,
    pub pub_key: Seq<char>,
}

/// The mathematical image of an output.
#[verifier::ext_equal]
pub struct VOutModel {
    pub id: u32,
    pub username: Seq<char>,
    pub hashed_pub_key: Seq<char>,
    pub value: u32,
}

/// The mathematical image of a transaction record.
#[verifier::ext_equal]
pub struct TransactionModel {
    pub id: Seq<char>,
    pub hash: Seq<char>,
    pub timestamp: u64,
    pub vins: Seq<VInModel>,
    pub vouts: Seq<VOutModel>,
    pub users: Seq<Seq<char>>,
    pub is_coinbase: bool,
}

impl View for VIn {
    type V = VInModel;

    open spec fn view(&self) -> VInModel {
        VInModel {
            id: self.id,
            txdir: self.txdir@,
            vout: self.vout,
            firm: self.firm@,
            pub_key: self.pub_key@,
        }
    }
}

impl DeepView for VIn {
    type V = VInModel;

    open spec fn deep_view(&self) -> VInModel {
        self.view()
    }
}

impl View for VOut {
    type V = VOutModel;

    open spec fn view(&self) -> VOutModel {
        VOutModel {
            id: self.id,
            username: self.username@,
            hashed_pub_key: self.hashed_pub_key@,
            value: self.value,
        }
    }
}

impl DeepView for VOut {
    type V = VOutModel;

    open spec fn deep_view(&self) -> VOutModel {
        self.view()
    }
}

impl View for Transaction {
    type V = TransactionModel;

    open spec fn view(&self) -> TransactionModel {
        TransactionModel {
            id: self.id@,
            hash: self.hash@,
            timestamp: self.timestamp,
            vins: self.vins.deep_view(),
            vouts: self.vouts.deep_view(),
            users: self.users.deep_view(),
            is_coinbase: self.is_coinbase,
        }
    }
}

impl DeepView for Transaction {
    type V = TransactionModel;

    open spec fn deep_view(&self) -> TransactionModel {
        self.view()
    }
}

impl Clone for VIn {
    fn clone(&self) -> (r: Self)
        ensures
            r@ == self@,
    {
        VIn {
            id: self.id,
            txdir: self.txdir.clone(),
            vout: self.vout,
            firm: self.firm.clone(),
            pub_key: self.pub_key.clone(),
        }
    }
}

impl Clone for VOut {
    fn clone(&self) -> (r: Self)
        ensures
            r@ == self@,
    {
        VOut {
            id: self.id,
            username: self.username.clone(),
            hashed_pub_key: self.hashed_pub_key.clone(),
            value: self.value,
        }
    }
}

/// The hash-preimage contribution of one input: the count of outputs of the
/// record, then the input's fields, each rendered in decimal or taken verbatim.
pub open spec fn vin_piece(v: VInModel, nvouts: nat) -> Seq<char> {
    decimal_of(nvouts) + decimal_of(v.id as nat) + v.txdir + decimal_of(v.vout as nat) + v.firm
        + v.pub_key
}

/// The preimage contribution of the first `k` inputs, in order.
pub open spec fn vins_preimage(vins: Seq<VInModel>, nvouts: nat, k: int) -> Seq<char>
    decreases k,
{
    if k <= 0 {
        Seq::empty()
    } else {
        vins_preimage(vins, nvouts, k - 1) + vin_piece(vins[k - 1], nvouts)
    }
}

/// The preimage contribution of one output.
pub open spec fn vout_piece(o: VOutModel, nvouts: nat) -> Seq<char> {
    decimal_of(nvouts) + decimal_of(o.id as nat) + o.hashed_pub_key + o.username + decimal_of(
        o.value as nat,
    )
}

/// The preimage contribution of the first `k` outputs, in order.
pub open spec fn vouts_preimage(vouts: Seq<VOutModel>, nvouts: nat, k: int) -> Seq<char>
    decreases k,
{
    if k <= 0 {
        Seq::empty()
    } else {
        vouts_preimage(vouts, nvouts, k - 1) + vout_piece(vouts[k - 1], nvouts)
    }
}

/// The preimage contribution of the first `k` participants, in order.
pub open spec fn users_preimage(users: Seq<Seq<char>>, nusers: nat, k: int) -> Seq<char>
    decreases k,
{
    if k <= 0 {
        Seq::empty()
    } else {
        users_preimage(users, nusers, k - 1) + decimal_of(nusers) + users[k - 1]
    }
}

/// The full content-hash preimage of a record: the creation instant in
/// decimal, then every input, output and participant in order.
pub open spec fn tx_preimage(
    timestamp: u64,
    vins: Seq<VInModel>,
    vouts: Seq<VOutModel>,
    users: Seq<Seq<char>>,
) -> Seq<char> {
    decimal_of(timestamp as nat) + vins_preimage(vins, vouts.len(), vins.len() as int)
        + vouts_preimage(vouts, vouts.len(), vouts.len() as int) + users_preimage(
        users,
        users.len(),
        users.len() as int,
    )
}

/// The lowercase hexadecimal SHA-256 digest of a character sequence's UTF-8
/// bytes; a function of the characters alone.
pub uninterp spec fn sha256_hex_of(s: Seq<char>) -> Seq<char>;

/// Relies on sha2::Sha256 and generic-array's LowerHex formatting: the digest
/// of the input's UTF-8 bytes, printed as exactly two lowercase hex digits per
/// digest byte, depends on the input characters alone.
#[verifier::external_body]
fn sha256_hex(s: &str) -> (r: String)
    ensures
        r@ == sha256_hex_of(s@),
        r@.len() == 64,
{
    let mut hasher = Sha256::new();
    hasher.update(s.as_bytes());
    format!("{:x}", hasher.finalize())
}

/// Relies on std::time::SystemTime::now: seconds since the Unix epoch, or
/// zero if the clock reads earlier than the epoch. Nothing is promised of the
/// value: every record construction states its fields for whatever instant
/// came back.
#[verifier::external_body]
fn now_seconds() -> u64 {
    match SystemTime::now().duration_since(SystemTime::UNIX_EPOCH) {
        Ok(d) => d.as_secs(),
        Err(_) => 0,
    }
}

/// Builds the content-hash preimage string, exactly as `tx_preimage` says.
#[verifier::rlimit(60)]
fn build_preimage(timestamp: u64, vins: &Vec<VIn>, vouts: &Vec<VOut>, users: &Vec<String>) -> (r:
    String)
    ensures
        r@ == tx_preimage(timestamp, vins.deep_view(), vouts.deep_view(), users.deep_view()),
{
    let ghost vins_m = vins.deep_view();
    let ghost vouts_m = vouts.deep_view();
    let ghost users_m = users.deep_view();
    let mut s = u64_to_string(timestamp);
    let nvouts: usize = vouts.len();
    let mut i: usize = 0;
    while i < vins.len()
        invariant
            i <= vins.len(),
            nvouts == vouts_m.len(),
            vins_m == vins.deep_view(),
            vouts_m == vouts.deep_view(),
            s@ == decimal_of(timestamp as nat) + vins_preimage(vins_m, nvouts as nat, i as int),
        decreases vins.len() - i,
    {
        let ghost s0 = s@;
        let vin = &vins[i];
        s.append(u64_to_string(nvouts as u64).as_str());
        s.append(u64_to_string(vin.id as u64).as_str());
        s.append(vin.txdir.as_str());
        s.append(u64_to_string(vin.vout as u64).as_str());
        s.append(vin.firm.as_str());
        s.append(vin.pub_key.as_str());
        proof {
            assert(s@ =~= s0 + vin_piece(vins_m[i as int], nvouts as nat));
            assert(vins_preimage(vins_m, nvouts as nat, i + 1) == vins_preimage(
                vins_m,
                nvouts as nat,
                i as int,
            ) + vin_piece(vins_m[i as int], nvouts as nat));
            assert(s@ =~= decimal_of(timestamp as nat) + vins_preimage(
                vins_m,
                nvouts as nat,
                i + 1,
            ));
        }
        i = i + 1;
    }
    let ghost base1 = decimal_of(timestamp as nat) + vins_preimage(
        vins_m,
        nvouts as nat,
        vins_m.len() as int,
    );
    let mut k: usize = 0;
    while k < vouts.len()
        invariant
            k <= vouts.len(),
            nvouts == vouts_m.len(),
            vouts_m == vouts.deep_view(),
            s@ == base1 + vouts_preimage(vouts_m, nvouts as nat, k as int),
        decreases vouts.len() - k,
    {
        let ghost s0 = s@;
        let vout = &vouts[k];
        s.append(u64_to_string(nvouts as u64).as_str());
        s.append(u64_to_string(vout.id as u64).as_str());
        s.append(vout.hashed_pub_key.as_str());
        s.append(vout.username.as_str());
        s.append(u64_to_string(vout.value as u64).as_str());
        proof {
            assert(s@ =~= s0 + vout_piece(vouts_m[k as int], nvouts as nat));
            assert(vouts_preimage(vouts_m, nvouts as nat, k + 1) == vouts_preimage(
                vouts_m,
                nvouts as nat,
                k as int,
            ) + vout_piece(vouts_m[k as int], nvouts as nat));
            assert(s@ =~= base1 + vouts_preimage(vouts_m, nvouts as nat, k + 1));
        }
        k = k + 1;
    }
    let ghost base2 = base1 + vouts_preimage(vouts_m, nvouts as nat, vouts_m.len() as int);
    let nusers: usize = users.len();
    let mut j: usize = 0;
    while j < users.len()
        invariant
            j <= users.len(),
            nusers == users_m.len(),
            users_m == users.deep_view(),
            s@ == base2 + users_preimage(users_m, nusers as nat, j as int),
        decreases users.len() - j,
    {
        let ghost s0 = s@;
        s.append(u64_to_string(nusers as u64).as_str());
        s.append(users[j].as_str());
        proof {
            assert(s@ =~= s0 + decimal_of(nusers as nat) + users_m[j as int]);
            assert(users_preimage(users_m, nusers as nat, j + 1) == users_preimage(
                users_m,
                nusers as nat,
                j as int,
            ) + decimal_of(nusers as nat) + users_m[j as int]);
            assert(s@ =~= base2 + users_preimage(users_m, nusers as nat, j + 1));
        }
        j = j + 1;
    }
    proof {
        assert(s@ =~= tx_preimage(timestamp, vins_m, vouts_m, users_m));
    }
    s
}

impl Transaction {
    /// Builds a record at a given instant: the identifier is the decimal
    /// numeral of `seq`, and the content hash is the digest of the preimage
    /// over the given fields and instant.
    pub fn new_at(
        seq: u64,
        timestamp: u64,
        vins: Vec<VIn>,
        vouts: Vec<VOut>,
        users: Vec<String>,
        is_coinbase: bool,
    ) -> (t: Transaction)
        ensures
            t@.id == decimal_of(seq as nat),
            t@.timestamp == timestamp,
            t@.vins == vins.deep_view(),
            t@.vouts == vouts.deep_view(),
            t@.users == users.deep_view(),
            t@.is_coinbase == is_coinbase,
            t@.hash == sha256_hex_of(
                tx_preimage(timestamp, vins.deep_view(), vouts.deep_view(), users.deep_view()),
            ),
    {
        let preimage = build_preimage(timestamp, &vins, &vouts, &users);
        let hash = sha256_hex(preimage.as_str());
        let id = u64_to_string(seq);
        Transaction { id, hash, timestamp, vins, vouts, users, is_coinbase }
    }

    /// Builds a record at the present instant. The instant itself is not
    /// pinned down; every other field, and how the hash derives from the
    /// fields and the instant, is.
    pub fn new(
        seq: u64,
        vins: Vec<VIn>,
        vouts: Vec<VOut>,
        users: Vec<String>,
        is_coinbase: bool,
    ) -> (t: Transaction)
        ensures
            t@.id == decimal_of(seq as nat),
            t@.vins == vins.deep_view(),
            t@.vouts == vouts.deep_view(),
            t@.users == users.deep_view(),
            t@.is_coinbase == is_coinbase,
            t@.hash == sha256_hex_of(
                tx_preimage(t@.timestamp, vins.deep_view(), vouts.deep_view(), users.deep_view()),
            ),
    {
        let timestamp = now_seconds();
        Transaction::new_at(seq, timestamp, vins, vouts, users, is_coinbase)
    }
}

} // verus!
