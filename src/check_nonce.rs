//! Replay protection in two phases: `validate` checks a supplied nonce
//! against the stored one without writing and describes the transaction's
//! ordering; `prepare`, run in commit order, demands an exact match and
//! advances the stored nonce by one.

use vstd::prelude::*;

use crate::accounts::{nonce_of, AccountStore};
use crate::encoding::{push_u64_le, u64_le, AccountId};

verus! {

/// An amount of execution weight.
#[derive(Clone, Copy, Debug, PartialEq, Eq, Structural)]
pub struct Weight {
    pub ref_time: u64,
    pub proof_size: u64,
}

/// No weight at all.
pub open spec fn zero_weight() -> Weight {
    Weight { ref_time: 0, proof_size: 0 }
}

impl Weight {
    /// No weight at all.
    pub fn zero() -> (r: Weight)
        ensures
            r == zero_weight(),
    {
        Weight { ref_time: 0, proof_size: 0 }
    }
}

/// Why a transaction is refused by the nonce guard.
#[derive(Clone, Copy, Debug, PartialEq, Eq, Structural)]
pub enum InvalidTransaction {
    /// The supplied nonce is below the stored one: already used.
    Stale,
    /// The supplied nonce is above the stored one at commit time.
    Future,
}

/// How a transaction orders among others in a pool: the tags it provides, the
/// tags it waits for, and fields that this guard leaves at their defaults.
#[derive(Debug)]
pub struct ValidTransaction {
    pub priority: u64,
    pub requires_tags: Vec<Vec<u8>>,
    pub provides_tags: Vec<Vec<u8>>,
    pub longevity: u64,
    pub propagate: bool,
}

/// What `validate` hands on to `prepare`.
#[derive(Clone, Copy, Debug, PartialEq, Eq, Structural)]
pub enum Val {
    /// The signer and the stored nonce that `validate` read.
    CheckNonce(AccountId, u64),
    /// No signer: nothing to check, this weight to refund.
    Refund(Weight),
}

/// What `prepare` hands on to `post_dispatch_details`.
#[derive(Clone, Copy, Debug, PartialEq, Eq, Structural)]
pub enum Pre {
    /// The nonce was checked and advanced.
    NonceChecked,
    /// Nothing was checked: this weight is refunded.
    Refund(Weight),
}

/// The ordering tag of an account's transaction with a given nonce: the
/// encoded pair of identity and nonce.
pub open spec fn nonce_tag(who: AccountId, nonce: u64) -> Seq<u8> {
    u64_le(who) + u64_le(nonce)
}

/// The validity that an unsigned origin is given: no tags, no priority.
pub open spec fn default_validity(v: ValidTransaction) -> bool {
    &&& v.priority == 0
    &&& v.requires_tags@.len() == 0
    &&& v.provides_tags@.len() == 0
    &&& v.longevity == u64::MAX
    &&& v.propagate
}

/// What `validate` decides for a supplied nonce against the stored one: the
/// stored nonce to check again at commit, or the refusal.
pub open spec fn validate_spec(supplied: u64, stored: u64) -> Result<u64, InvalidTransaction> {
    if supplied < stored {
        Err(InvalidTransaction::Stale)
    } else {
        Ok(stored)
    }
}

/// What `prepare` decides for a supplied nonce against the stored nonce that
/// `validate` read: the nonce to store, or the refusal.
pub open spec fn prepare_spec(supplied: u64, stored: u64) -> Result<u64, InvalidTransaction> {
    if supplied > stored {
        Err(InvalidTransaction::Future)
    } else {
        Ok((stored + 1) as u64)
    }
}

fn nonce_tag_bytes(who: AccountId, nonce: u64) -> (r: Vec<u8>)
    ensures
        r@ == nonce_tag(who, nonce),
{
    let mut r: Vec<u8> = Vec::new();
    push_u64_le(&mut r, who);
    push_u64_le(&mut r, nonce);
    assert(r@ =~= nonce_tag(who, nonce));
    r
}

/// The nonce that a transaction carries.
#[derive(Clone, Copy, Debug, PartialEq, Eq, Structural)]
pub struct CheckNonce(pub u64);

impl CheckNonce {
    /// A guard for a transaction that carries `nonce`.
    pub fn from(nonce: u64) -> (r: Self)
        ensures
            r.0 == nonce,
    {
        CheckNonce(nonce)
    }

    /// The weight that the guard itself costs: none.
    pub fn weight(&self) -> (r: Weight)
        ensures
            r == zero_weight(),
    {
        Weight::zero()
    }

    /// The first phase. An origin without a signer passes with a default
    /// validity and nothing to check. A signer's nonce below the stored one is
    /// `Stale`; otherwise the transaction provides the tag of its own nonce,
    /// requires the tag of the nonce before it when it is ahead of the stored
    /// one, and hands the stored nonce on. Nothing is written.
    pub fn validate(&self, origin: Option<AccountId>, accounts: &AccountStore) -> (r: Result<
        (ValidTransaction, Val),
        InvalidTransaction,
    >)
        ensures
            match origin {
                None => r matches Ok((v, val)) && default_validity(v) && val == Val::Refund(zero_weight()),
                Some(who) => {
                    let stored = nonce_of(accounts@, who);
                    match validate_spec(self.0, stored) {
                        Err(e) => r == Err::<(ValidTransaction, Val), InvalidTransaction>(e),
                        Ok(kept) => r matches Ok((v, val)) && val == Val::CheckNonce(who, kept)
                            && v.priority == 0 && v.longevity == u64::MAX && v.propagate
                            && v.provides_tags@.len() == 1 && v.provides_tags@[0]@ == nonce_tag(who, self.0)
                            && (if stored < self.0 {
                            v.requires_tags@.len() == 1 && v.requires_tags@[0]@ == nonce_tag(
                                who,
                                (self.0 - 1) as u64,
                            )
                        } else {
                            v.requires_tags@.len() == 0
                        }),
                    }
                },
            },
    {
        let who = match origin {
            None => {
                let validity = ValidTransaction {
                    priority: 0,
                    requires_tags: Vec::new(),
                    provides_tags: Vec::new(),
                    longevity: u64::MAX,
                    propagate: true,
                };
                return Ok((validity, Val::Refund(self.weight())));
            },
            Some(who) => who,
        };
        let stored = accounts.account_nonce(who);
        if self.0 < stored {
            return Err(InvalidTransaction::Stale);
        }
        let mut provides_tags: Vec<Vec<u8>> = Vec::new();
        provides_tags.push(nonce_tag_bytes(who, self.0));
        let mut requires_tags: Vec<Vec<u8>> = Vec::new();
        if stored < self.0 {
            requires_tags.push(nonce_tag_bytes(who, self.0 - 1));
        }
        let validity = ValidTransaction {
            priority: 0,
            requires_tags,
            provides_tags,
            longevity: u64::MAX,
            propagate: true,
        };
        Ok((validity, Val::CheckNonce(who, stored)))
    }

    /// The second phase, in commit order. A signer's nonce must now equal the
    /// stored nonce that `validate` read (`Future` where it is ahead); the
    /// stored nonce then advances by one. With nothing to check, the refund
    /// passes through and nothing is written.
    pub fn prepare(self, val: Val, accounts: &mut AccountStore) -> (r: Result<Pre, InvalidTransaction>)
        requires
            val matches Val::CheckNonce(_, n) ==> n < u64::MAX,
        ensures
            match val {
                Val::Refund(w) => {
                    &&& r == Ok::<Pre, InvalidTransaction>(Pre::Refund(w))
                    &&& final(accounts)@ == old(accounts)@
                },
                Val::CheckNonce(who, stored) => match prepare_spec(self.0, stored) {
                    Err(e) => {
                        &&& r == Err::<Pre, InvalidTransaction>(e)
                        &&& final(accounts)@ == old(accounts)@
                    },
                    Ok(next) => {
                        &&& r == Ok::<Pre, InvalidTransaction>(Pre::NonceChecked)
                        &&& final(accounts)@ == old(accounts)@.insert(who, next)
                    },
                },
            },
    {
        let (who, nonce) = match val {
            Val::CheckNonce(who, nonce) => (who, nonce),
            Val::Refund(weight) => return Ok(Pre::Refund(weight)),
        };
        if self.0 > nonce {
            return Err(InvalidTransaction::Future);
        }
        accounts.set_account_nonce(who, nonce + 1);
        Ok(Pre::NonceChecked)
    }

    /// After dispatch: the weight to refund, none where the nonce was checked.
    pub fn post_dispatch_details(pre: Pre) -> (r: Result<Weight, InvalidTransaction>)
        ensures
            r == match pre {
                Pre::NonceChecked => Ok::<Weight, InvalidTransaction>(zero_weight()),
                Pre::Refund(w) => Ok(w),
            },
    {
        match pre {
            Pre::NonceChecked => Ok(Weight::zero()),
            Pre::Refund(weight) => Ok(weight),
        }
    }
}

/// The nonce guard's protocol: a nonce below the stored one is `Stale` at
/// validation; one equal to it validates, and preparing it stores the next
/// nonce; one above it validates (waiting for its predecessor) but is
/// `Future` when prepared against an unchanged stored nonce.
pub proof fn lemma_nonce_guard_protocol(supplied: u64, stored: u64)
    requires
        stored < u64::MAX,
    ensures
        supplied < stored ==> validate_spec(supplied, stored) == Err::<u64, InvalidTransaction>(
            InvalidTransaction::Stale,
        ),
        supplied == stored ==> validate_spec(supplied, stored) == Ok::<u64, InvalidTransaction>(
            stored,
        ) && prepare_spec(supplied, stored) == Ok::<u64, InvalidTransaction>(
            (stored + 1) as u64,
        ),
        supplied > stored ==> validate_spec(supplied, stored) == Ok::<u64, InvalidTransaction>(
            stored,
        ) && prepare_spec(supplied, stored) == Err::<u64, InvalidTransaction>(
            InvalidTransaction::Future,
        ),
{
}

} // verus!
