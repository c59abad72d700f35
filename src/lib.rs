//! Proof-of-work scoring game: players earn points by submitting work that
//! hashes below a difficulty target, may withdraw irreversibly, and can enter
//! a periodic lottery; a nonce guard orders each account's submissions.

pub mod accounts;
pub mod check_nonce;
pub mod encoding;
pub mod hashing;
pub mod pallet;
pub mod pow;
