//! The account store: one replay-protection nonce per identity, zero until
//! it is first written.

use vstd::hash_map::HashMapWithView;
use vstd::prelude::*;

use crate::encoding::AccountId;

verus! {

broadcast use vstd::std_specs::hash::group_hash_axioms;

/// The nonce of `who` in a store whose written nonces are `m`.
pub open spec fn nonce_of(m: Map<AccountId, u64>, who: AccountId) -> u64 {
    if m.contains_key(who) {
        m[who]
    } else {
        0
    }
}

/// Per-account nonces.
pub struct AccountStore {
    nonces: HashMapWithView<AccountId, u64>,
}

impl View for AccountStore {
    type V = Map<AccountId, u64>;

    closed spec fn view(&self) -> Map<AccountId, u64> {
        self.nonces@
    }
}

impl AccountStore {
    /// A store in which every nonce is zero.
    pub fn new() -> (r: Self)
        ensures
            r@ == Map::<AccountId, u64>::empty(),
    {
        AccountStore { nonces: HashMapWithView::new() }
    }

    /// The current nonce of `who`.
    pub fn account_nonce(&self, who: AccountId) -> (r: u64)
        ensures
            r == nonce_of(self@, who),
    {
        match self.nonces.get(&who) {
            Some(n) => *n,
            None => 0,
        }
    }

    /// Writes the nonce of `who`.
    pub fn set_account_nonce(&mut self, who: AccountId, nonce: u64)
        ensures
            final(self)@ == old(self)@.insert(who, nonce),
    {
        self.nonces.insert(who, nonce);
    }

    /// Advances the nonce of `who` by one.
    pub fn inc_account_nonce(&mut self, who: AccountId)
        requires
            nonce_of(old(self)@, who) < u64::MAX,
        ensures
            final(self)@ == old(self)@.insert(who, (nonce_of(old(self)@, who) + 1) as u64),
    {
        let n = self.account_nonce(who);
        self.nonces.insert(who, n + 1);
    }
}

} // verus!
