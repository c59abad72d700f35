//! Proof-of-work verification: the challenge digest of an identity, a nonce,
//! a difficulty and the caller's work, read as a little-endian 256-bit
//! integer, must fall below `2^(256 - difficulty)`.

use vstd::arithmetic::power2::{
    lemma2_to64, lemma_pow2_adds, lemma_pow2_pos, lemma_pow2_strictly_increases, lemma_pow2_unfold, pow2,
};
use vstd::prelude::*;

use crate::encoding::{push_bytes, push_u32_le, push_u64_le, u32_le, u64_le, AccountId};
use crate::hashing::{blake2_256, blake2_256_of};

verus! {

/// The number that the bytes of `s` spell, least significant first.
pub open spec fn le_value(s: Seq<u8>) -> nat
    decreases s.len(),
{
    if s.len() == 0 {
        0
    } else {
        s[0] as nat + 256 * le_value(s.drop_first())
    }
}

/// The bound that a digest must fall below: `2^(256 - difficulty)`, and 1 from
/// difficulty 256 on.
pub open spec fn target(difficulty: u32) -> nat {
    if difficulty < 256 {
        pow2((256 - difficulty) as nat)
    } else {
        1
    }
}

/// The bytes that are hashed: identity, nonce and difficulty encoded, then the
/// work as it stands.
pub open spec fn challenge(who: AccountId, nonce: u32, difficulty: u32, work: Seq<u8>) -> Seq<u8> {
    u64_le(who) + u32_le(nonce) + u32_le(difficulty) + work
}

/// Whether `work` is accepted for this identity, nonce and difficulty.
pub open spec fn pow_verdict(who: AccountId, nonce: u32, difficulty: u32, work: Seq<u8>) -> bool {
    le_value(blake2_256_of(challenge(who, nonce, difficulty, work))) < target(difficulty)
}

proof fn lemma_le_value_zero(s: Seq<u8>)
    ensures
        (le_value(s) == 0) == (forall|i: int| 0 <= i < s.len() ==> s[i] == 0),
    decreases s.len(),
{
    if s.len() > 0 {
        lemma_le_value_zero(s.drop_first());
        if le_value(s) == 0 {
            assert forall|i: int| 0 <= i < s.len() implies s[i] == 0 by {
                if i > 0 {
                    assert(s[i] == s.drop_first()[i - 1]);
                }
            }
        }
        if forall|i: int| 0 <= i < s.len() ==> s[i] == 0 {
            assert forall|i: int| 0 <= i < s.drop_first().len() implies s.drop_first()[i] == 0 by {
                assert(s.drop_first()[i] == s[i + 1]);
            }
        }
    }
}

proof fn lemma_pow2_byte_step(q: nat)
    requires
        q > 0,
    ensures
        pow2(8 * q) == 256 * pow2(8 * (q - 1) as nat),
{
    lemma2_to64();
    lemma_pow2_adds(8, 8 * (q - 1) as nat);
    assert(8 + 8 * (q - 1) as nat == 8 * q);
}

proof fn lemma_le_value_bound(s: Seq<u8>)
    ensures
        le_value(s) < pow2(8 * s.len()),
    decreases s.len(),
{
    lemma2_to64();
    if s.len() > 0 {
        let rest = s.drop_first();
        lemma_le_value_bound(rest);
        lemma_pow2_byte_step(s.len());
        let p = pow2(8 * rest.len());
        assert(s[0] as nat + 256 * le_value(rest) < 256 * p) by (nonlinear_arith)
            requires
                s[0] < 256,
                le_value(rest) < p,
        ;
    }
}

proof fn lemma_le_value_split(s: Seq<u8>, q: nat)
    requires
        q <= s.len(),
    ensures
        le_value(s) == le_value(s.take(q as int)) + pow2(8 * q) * le_value(s.skip(q as int)),
    decreases q,
{
    lemma2_to64();
    if q == 0 {
        assert(s.take(0) =~= Seq::<u8>::empty());
        assert(s.skip(0) =~= s);
        assert(pow2(0) == 1);
        assert(le_value(s.take(0)) == 0);
        assert(8 * q == 0);
        assert(pow2(8 * q) * le_value(s) == le_value(s)) by (nonlinear_arith)
            requires
                pow2(8 * q) == 1,
        ;
    } else {
        let rest = s.drop_first();
        lemma_le_value_split(rest, (q - 1) as nat);
        lemma_pow2_byte_step(q);
        assert(s.take(q as int).drop_first() =~= rest.take(q - 1));
        assert(rest.skip(q - 1) =~= s.skip(q as int));
        let a = le_value(rest.take(q - 1));
        let b = le_value(s.skip(q as int));
        let p = pow2(8 * (q - 1) as nat);
        assert(s.take(q as int)[0] == s[0]);
        assert(le_value(s.take(q as int)) == s[0] as nat + 256 * a);
        assert(le_value(s) == s[0] as nat + 256 * le_value(rest));
        let s0 = s[0] as nat;
        let pq = pow2(8 * q);
        assert(s0 + 256 * le_value(rest) == (s0 + 256 * a) + pq * b) by (nonlinear_arith)
            requires
                le_value(rest) == a + p * b,
                pq == 256 * p,
        ;
    }
}

/// `le_value(s) < 2^k`, read on the bytes: those above byte `k / 8` are zero,
/// and that byte, where there is one, is below `2^(k % 8)`.
pub open spec fn below_pow2_bytes(s: Seq<u8>, k: nat) -> bool {
    &&& forall|i: int| k / 8 < i < s.len() ==> s[i] == 0
    &&& (k / 8 < s.len() ==> s[(k / 8) as int] < pow2(k % 8))
}

proof fn lemma_below_pow2(s: Seq<u8>, k: nat)
    requires
        k <= 8 * s.len(),
    ensures
        (le_value(s) < pow2(k)) == below_pow2_bytes(s, k),
{
    let q = k / 8;
    let r = k % 8;
    lemma2_to64();
    lemma_pow2_adds(8 * q, r);
    assert(8 * q + r == k);
    lemma_le_value_split(s, q);
    lemma_le_value_bound(s.take(q as int));
    let low = le_value(s.take(q as int));
    let high = le_value(s.skip(q as int));
    let p = pow2(8 * q);
    let t = pow2(r);
    lemma_pow2_pos(8 * q);
    assert(le_value(s) == low + p * high);
    assert(pow2(k) == p * t);
    if q == s.len() {
        assert(s.skip(q as int).len() == 0);
        assert(high == 0);
        assert(r == 0);
        assert(t == 1);
        assert(low + p * high < p * t) by (nonlinear_arith)
            requires
                high == 0,
                t == 1,
                low < p,
        ;
    } else {
        assert((low + p * high < p * t) == (high < t)) by (nonlinear_arith)
            requires
                0 <= low < p,
        ;
        let hs = s.skip(q as int);
        let upper = hs.drop_first();
        assert(high == hs[0] as nat + 256 * le_value(upper));
        assert(t <= 128) by {
            if r > 0 {
                lemma_pow2_unfold(r);
            }
        }
        lemma_le_value_zero(upper);
        assert((hs[0] as nat + 256 * le_value(upper) < t) == (le_value(upper) == 0
            && hs[0] < t)) by (nonlinear_arith)
            requires
                t <= 128,
        ;
        assert(hs[0] == s[q as int]);
        if le_value(upper) == 0 {
            assert forall|i: int| q < i < s.len() implies s[i] == 0 by {
                assert(s[i] == upper[i - q - 1]);
            }
        }
        if forall|i: int| q < i < s.len() ==> s[i] == 0 {
            assert forall|i: int| 0 <= i < upper.len() implies upper[i] == 0 by {
                assert(upper[i] == s[i + q + 1]);
            }
        }
    }
}

/// Whether a digest, read as a little-endian integer, falls below the target
/// of `difficulty`.
pub fn meets_target(digest: &[u8; 32], difficulty: u32) -> (r: bool)
    ensures
        r == (le_value(digest@) < target(difficulty)),
{
    let k: u32 = if difficulty < 256 {
        256 - difficulty
    } else {
        0
    };
    let q: usize = (k / 8) as usize;
    let rem: u32 = k % 8;
    proof {
        lemma_below_pow2(digest@, k as nat);
        assert(pow2(0) == 1) by {
            lemma2_to64();
        }
    }
    if q >= 32 {
        return true;
    }
    let mut i: usize = 31;
    while i > q
        invariant
            q < 32,
            q <= i <= 31,
            q as nat == (k as nat) / 8,
            (le_value(digest@) < target(difficulty)) == below_pow2_bytes(digest@, k as nat),
            forall|j: int| i < j < 32 ==> digest@[j] == 0,
        decreases i,
    {
        if digest[i] != 0 {
            proof {
                assert(digest@[i as int] != 0);
            }
            return false;
        }
        i -= 1;
    }
    let mut bound: u32 = 1;
    let mut e: u32 = 0;
    while e < rem
        invariant
            e <= rem < 8,
            bound as nat == pow2(e as nat),
            bound <= 128,
        decreases rem - e,
    {
        proof {
            lemma_pow2_unfold((e + 1) as nat);
            lemma2_to64();
            if e < 6 {
                lemma_pow2_strictly_increases(e as nat, 6);
            }
        }
        bound = bound * 2;
        e += 1;
    }
    (digest[q] as u32) < bound
}

/// The bytes that are hashed for a challenge.
pub fn challenge_bytes(who: AccountId, nonce: u32, difficulty: u32, work: &[u8; 32]) -> (r: Vec<u8>)
    ensures
        r@ == challenge(who, nonce, difficulty, work@),
{
    let mut input: Vec<u8> = Vec::new();
    push_u64_le(&mut input, who);
    push_u32_le(&mut input, nonce);
    push_u32_le(&mut input, difficulty);
    push_bytes(&mut input, work.as_slice());
    assert(input@ =~= challenge(who, nonce, difficulty, work@));
    input
}

/// Checks a proof of work: hashes the challenge once and compares the digest,
/// read little-endian, with `2^(256 - difficulty)` (1 from difficulty 256 on,
/// so that only an all-zero digest passes there). The difficulty is not
/// range-checked here: callers do that.
pub fn verify_pow(who: AccountId, nonce: u32, difficulty: u32, work: &[u8; 32]) -> (r: bool)
    ensures
        r == pow_verdict(who, nonce, difficulty, work@),
{
    let input = challenge_bytes(who, nonce, difficulty, work);
    let hash = blake2_256(&input);
    meets_target(&hash, difficulty)
}

/// The verdict is a function of its four inputs: two checks of the same
/// identity, nonce, difficulty and work agree.
pub proof fn lemma_verify_pow_deterministic(
    who: AccountId,
    nonce: u32,
    difficulty: u32,
    work: Seq<u8>,
    first: bool,
    second: bool,
)
    requires
        first == pow_verdict(who, nonce, difficulty, work),
        second == pow_verdict(who, nonce, difficulty, work),
    ensures
        first == second,
{
}

} // verus!
