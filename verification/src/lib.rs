//! A verified ledger of value transfers in the unspent-transaction-output
//! style: balances are never stored, only derived by scanning an append-only
//! transaction log for outputs that no later input has consumed.

use vstd::prelude::*;

pub mod numerals;
pub mod records;
pub mod resolver;
pub mod append;
pub mod ledger;
pub mod laws;

verus! {

/// A participant in the ledger. The public key string is the identifier by
/// which outputs are owned and spent; the private key is opaque material kept
/// for a future signing capability and never inspected here.
pub struct User {
    pub username: String,
    pub pub_key: String,
    pub priv_key: String,
}

impl User {
    pub fn new(username: String, pub_key: String, priv_key: String) -> (r: User)
        ensures
            r.username@ == username@,
            r.pub_key@ == pub_key@,
            r.priv_key@ == priv_key@,
    {
        User { username, pub_key, priv_key }
    }
}

} // verus!
