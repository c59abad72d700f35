//! The scoring game: per-account scores earned with proofs of work, an
//! irreversible withdrawal, and a lottery whose entries accumulate until a
//! tick draws one winner from an evolving randomness value.

use vstd::arithmetic::power2::{lemma2_to64, lemma2_to64_rest, lemma_pow2_strictly_increases, pow2};
use vstd::bits::{lemma_u64_pow2_no_overflow, lemma_u64_shl_is_mul};
use vstd::hash_map::HashMapWithView;
use vstd::prelude::*;

use crate::check_nonce::{zero_weight, Weight};
use crate::encoding::{be_u32_prefix, push_bytes, push_u32_le, read_be_u32, u32_le, AccountId};
use crate::accounts::{nonce_of, AccountStore};
use crate::hashing::{blake2_256, blake2_256_of};
use crate::pow::{pow_verdict, verify_pow};

verus! {

broadcast use vstd::std_specs::hash::group_hash_axioms;

/// The lowest difficulty that a scored solution may have.
pub const MIN_DIFFICULTY: u32 = 20;

/// The highest difficulty that a scored solution may have.
pub const MAX_DIFFICULTY: u32 = 256;

/// The fixed difficulty of a lottery entry's proof of work.
pub const LOTTERY_DIFFICULTY: u32 = 25;

/// The number of entries at which a tick draws a winner.
pub const LOTTERY_THRESHOLD: u32 = 20;

/// The points that a lottery winner receives: 25 times 2 to the 5th.
pub const LOTTERY_PRIZE: u64 = 800;

/// A player's score.
#[derive(Clone, Copy, Debug, PartialEq, Eq, Structural)]
pub enum ScoreState {
    /// Still playing, with this many points.
    Enabled(u64),
    /// Withdrawn: no points can be earned or lost any more.
    Disabled,
}

impl Default for ScoreState {
    fn default() -> (r: Self)
        ensures
            r == ScoreState::Enabled(0),
    {
        ScoreState::Enabled(0)
    }
}

/// Why an operation is refused.
#[derive(Clone, Copy, Debug, PartialEq, Eq, Structural)]
pub enum Error {
    /// The work does not meet the target, or the nonce does not fit in 32 bits.
    BadProof,
    /// The difficulty is outside `MIN_DIFFICULTY..=MAX_DIFFICULTY`.
    InvalidDifficulty,
    /// The account has already withdrawn.
    AlreadyWithdrawn,
    /// The account has withdrawn and may not play.
    ScoreDisabled,
    /// A lottery entry with another difficulty than the fixed one.
    InvalidLotteryDifficulty,
    /// The account already holds a lottery entry.
    LotteryEntryFailed,
}

/// What the game reports of its changes.
#[derive(Clone, Copy, Debug, PartialEq, Eq, Structural)]
pub enum Event {
    /// A solution was accepted.
    SolutionAccepted { who: AccountId, difficulty: u32, new_score: u64 },
    /// A player withdrew with these points.
    Withdrawn { who: AccountId, points: u64 },
    /// A lottery entry was added with this number.
    LotteryEntryAdded { who: AccountId, entry_number: u32 },
    /// A lottery winner received these points.
    LotteryWinnerSelected { who: AccountId, points_awarded: u64 },
}

/// The points that a solution of `difficulty` (in
/// `MIN_DIFFICULTY..=MAX_DIFFICULTY`) is worth: `2^(difficulty - 20)` up to
/// difficulty 83, then `2^63 + (difficulty - 83)` from 84 to 256.
///
/// The plain power `1 << (difficulty - 20)` needs a shift of 64 or more from
/// difficulty 84 on, which overflows a `u64`: unchecked, the shift amount
/// wraps and a harder solution would earn fewer points. The second branch
/// keeps the award strictly increasing over the whole range and within a
/// `u64`.
pub open spec fn award(difficulty: u32) -> u64 {
    if difficulty < 84 {
        pow2((difficulty - 20) as nat) as u64
    } else {
        (pow2(63) + (difficulty - 83)) as u64
    }
}

/// The points of a score, zero once withdrawn.
pub open spec fn points_of(s: ScoreState) -> u64 {
    match s {
        ScoreState::Enabled(p) => p,
        ScoreState::Disabled => 0,
    }
}

/// The position of the lottery winner among `count` entries: the first four
/// bytes of the randomness, big-endian, modulo `count`; 0 without randomness.
pub open spec fn winner_index_spec(randomness: Option<Seq<u8>>, count: u32) -> u32 {
    match randomness {
        Some(r) => (be_u32_prefix(r) % (count as nat)) as u32,
        None => 0,
    }
}

/// The next randomness value after the tick `n`.
pub open spec fn next_randomness(randomness: Option<Seq<u8>>, n: u32) -> Option<Seq<u8>> {
    match randomness {
        Some(r) => Some(blake2_256_of(r + u32_le(n))),
        None => None,
    }
}

/// The game's state, as values.
pub struct GameState {
    /// The scores written so far; an absent account scores `Enabled(0)`.
    pub scores: Map<AccountId, ScoreState>,
    /// The lottery entries, in the order in which they were made.
    pub entries: Seq<AccountId>,
    /// The entries made since the last draw.
    pub entry_count: u32,
    /// The randomness value, if one has been set.
    pub randomness: Option<Seq<u8>>,
    /// The events reported so far.
    pub events: Seq<Event>,
}

impl GameState {
    /// Each identity holds at most one entry, and the count never exceeds the
    /// entries held.
    pub open spec fn wf(self) -> bool {
        &&& self.entries.no_duplicates()
        &&& self.entry_count <= self.entries.len()
    }

    /// The score of `who`: `Enabled(0)` until one is written.
    pub open spec fn score_of(self, who: AccountId) -> ScoreState {
        if self.scores.contains_key(who) {
            self.scores[who]
        } else {
            ScoreState::Enabled(0)
        }
    }

    /// `submit_solution` by `who`, whose account nonce is `nonce`.
    pub open spec fn submit(self, nonce: u64, who: AccountId, difficulty: u32, work: Seq<u8>) -> (
        GameState,
        Result<u64, Error>,
    ) {
        if !(MIN_DIFFICULTY <= difficulty <= MAX_DIFFICULTY) {
            (self, Err(Error::InvalidDifficulty))
        } else if self.score_of(who) == ScoreState::Disabled {
            (self, Err(Error::ScoreDisabled))
        } else if nonce > u32::MAX {
            (self, Err(Error::BadProof))
        } else if !pow_verdict(who, nonce as u32, difficulty, work) {
            (self, Err(Error::BadProof))
        } else {
            let points = points_of(self.score_of(who)).saturating_add(award(difficulty));
            (
                GameState {
                    scores: self.scores.insert(who, ScoreState::Enabled(points)),
                    events: self.events.push(
                        Event::SolutionAccepted { who, difficulty, new_score: points },
                    ),
                    ..self
                },
                Ok(points),
            )
        }
    }

    /// `withdraw` by `who`.
    pub open spec fn withdraw(self, who: AccountId) -> (GameState, Result<u64, Error>) {
        match self.score_of(who) {
            ScoreState::Disabled => (self, Err(Error::AlreadyWithdrawn)),
            ScoreState::Enabled(points) => (
                GameState {
                    scores: self.scores.insert(who, ScoreState::Disabled),
                    events: self.events.push(Event::Withdrawn { who, points }),
                    ..self
                },
                Ok(points),
            ),
        }
    }

    /// Adding the entry of `who`, after its proof was accepted.
    pub open spec fn add_entry(self, who: AccountId) -> (GameState, Result<u32, Error>) {
        if self.entries.contains(who) {
            (self, Err(Error::LotteryEntryFailed))
        } else {
            (
                GameState {
                    entries: self.entries.push(who),
                    entry_count: self.entry_count.saturating_add(1),
                    events: self.events.push(
                        Event::LotteryEntryAdded { who, entry_number: self.entry_count },
                    ),
                    ..self
                },
                Ok(self.entry_count),
            )
        }
    }

    /// `enter_lottery` by `who`, whose account nonce is `nonce`.
    pub open spec fn enter(self, nonce: u64, who: AccountId, work: Seq<u8>) -> (
        GameState,
        Result<u32, Error>,
    ) {
        if self.score_of(who) == ScoreState::Disabled {
            (self, Err(Error::ScoreDisabled))
        } else if nonce > u32::MAX {
            (self, Err(Error::BadProof))
        } else if !pow_verdict(who, nonce as u32, LOTTERY_DIFFICULTY, work) {
            (self, Err(Error::BadProof))
        } else {
            self.add_entry(who)
        }
    }

    /// `enter_lottery` by each of `whos` in turn, the i-th with account nonce
    /// `nonces[i]` and work `works[i]`: the state after the run and each
    /// call's result.
    pub open spec fn enter_run(self, whos: Seq<AccountId>, nonces: Seq<u64>, works: Seq<Seq<u8>>) -> (
        GameState,
        Seq<Result<u32, Error>>,
    )
        decreases whos.len(),
    {
        if whos.len() == 0 || nonces.len() == 0 || works.len() == 0 {
            (self, Seq::empty())
        } else {
            let (next, r) = self.enter(nonces[0], whos[0], works[0]);
            let (last, rs) = next.enter_run(whos.drop_first(), nonces.drop_first(), works.drop_first());
            (last, seq![r] + rs)
        }
    }

    /// Drawing the lottery winner (with a positive count): every entry but the
    /// winner's is removed and the count is reset; the winner receives the
    /// prize, which is lost with `AlreadyWithdrawn` if the winner has withdrawn.
    pub open spec fn select(self) -> (GameState, Result<AccountId, Error>) {
        let w = self.entries[winner_index_spec(self.randomness, self.entry_count) as int];
        let drawn = GameState { entries: seq![w], entry_count: 0, ..self };
        match self.score_of(w) {
            ScoreState::Disabled => (drawn, Err(Error::AlreadyWithdrawn)),
            ScoreState::Enabled(p) => (
                GameState {
                    scores: self.scores.insert(
                        w,
                        ScoreState::Enabled(p.saturating_add(LOTTERY_PRIZE)),
                    ),
                    events: self.events.push(
                        Event::LotteryWinnerSelected { who: w, points_awarded: LOTTERY_PRIZE },
                    ),
                    ..drawn
                },
                Ok(w),
            ),
        }
    }

    /// The tick `n`: the randomness advances, then a winner is drawn once the
    /// count has reached the threshold; a refused draw changes nothing more.
    pub open spec fn tick(self, n: u32) -> GameState {
        let advanced = GameState { randomness: next_randomness(self.randomness, n), ..self };
        if advanced.entry_count >= LOTTERY_THRESHOLD {
            advanced.select().0
        } else {
            advanced
        }
    }
}

/// The points that a solution of `difficulty` earns.
pub fn solution_award(difficulty: u32) -> (r: u64)
    requires
        MIN_DIFFICULTY <= difficulty <= MAX_DIFFICULTY,
    ensures
        r == award(difficulty),
{
    let shift: u32 = difficulty - MIN_DIFFICULTY;
    if shift < 64 {
        proof {
            lemma_u64_pow2_no_overflow(shift as nat);
            lemma_u64_shl_is_mul(1, shift as u64);
        }
        1u64 << (shift as u64)
    } else {
        proof {
            lemma2_to64_rest();
        }
        0x8000_0000_0000_0000u64 + (difficulty - 83) as u64
    }
}

/// The award rises strictly with the difficulty over the admissible range.
pub proof fn lemma_award_strictly_increasing(d1: u32, d2: u32)
    requires
        MIN_DIFFICULTY <= d1 < d2 <= MAX_DIFFICULTY,
    ensures
        award(d1) < award(d2),
{
    lemma2_to64();
    lemma2_to64_rest();
    if d1 < 84 {
        let e1 = (d1 - 20) as nat;
        if e1 < 63 {
            lemma_pow2_strictly_increases(e1, 63);
        }
        if d2 < 84 {
            lemma_pow2_strictly_increases(e1, (d2 - 20) as nat);
            lemma_pow2_strictly_increases((d2 - 20) as nat, 64);
        }
    }
}

/// The position of the lottery winner among `count` entries.
pub fn winner_index(randomness: &Option<[u8; 32]>, count: u32) -> (r: u32)
    requires
        count > 0,
    ensures
        r == winner_index_spec(
            match randomness {
                Some(b) => Some(b@),
                None => None,
            },
            count,
        ),
{
    match randomness {
        Some(bytes) => read_be_u32(bytes) % count,
        None => 0,
    }
}

/// The game: scores, lottery entries, the randomness value and the events.
pub struct Pallet {
    scores: HashMapWithView<AccountId, ScoreState>,
    lottery_entries: Vec<AccountId>,
    lottery_entry_count: u32,
    lottery_randomness: Option<[u8; 32]>,
    events: Vec<Event>,
}

impl View for Pallet {
    type V = GameState;

    closed spec fn view(&self) -> GameState {
        GameState {
            scores: self.scores@,
            entries: self.lottery_entries@,
            entry_count: self.lottery_entry_count,
            randomness: match self.lottery_randomness {
                Some(r) => Some(r@),
                None => None,
            },
            events: self.events@,
        }
    }
}

impl Pallet {
    /// A game with no scores, no entries, no randomness and no events.
    pub fn new() -> (r: Self)
        ensures
            r@.wf(),
            r@ == (GameState {
                scores: Map::empty(),
                entries: Seq::empty(),
                entry_count: 0,
                randomness: None,
                events: Seq::empty(),
            }),
    {
        let r = Pallet {
            scores: HashMapWithView::new(),
            lottery_entries: Vec::new(),
            lottery_entry_count: 0,
            lottery_randomness: None,
            events: Vec::new(),
        };
        r
    }

    /// A game like `new`'s whose randomness value starts at `seed`.
    pub fn with_randomness(seed: [u8; 32]) -> (r: Self)
        ensures
            r@.wf(),
            r@ == (GameState {
                scores: Map::empty(),
                entries: Seq::empty(),
                entry_count: 0,
                randomness: Some(seed@),
                events: Seq::empty(),
            }),
    {
        let mut r = Pallet::new();
        r.lottery_randomness = Some(seed);
        r
    }

    /// The score of `who`.
    pub fn score(&self, who: AccountId) -> (r: ScoreState)
        ensures
            r == self@.score_of(who),
    {
        match self.scores.get(&who) {
            Some(s) => *s,
            None => ScoreState::Enabled(0),
        }
    }

    fn has_lottery_entry(&self, who: AccountId) -> (r: bool)
        ensures
            r == self@.entries.contains(who),
    {
        let mut i: usize = 0;
        while i < self.lottery_entries.len()
            invariant
                i <= self.lottery_entries@.len(),
                forall|k: int| 0 <= k < i ==> self.lottery_entries@[k] != who,
            decreases self.lottery_entries@.len() - i,
        {
            if self.lottery_entries[i] == who {
                assert(self@.entries[i as int] == who);
                return true;
            }
            i += 1;
        }
        false
    }

    /// Scores a proof of work of `difficulty` by `who`, checked against the
    /// account's current nonce, and returns the new point total.
    pub fn submit_solution(
        &mut self,
        accounts: &AccountStore,
        who: AccountId,
        difficulty: u32,
        work: [u8; 32],
    ) -> (r: Result<u64, Error>)
        requires
            old(self)@.wf(),
        ensures
            final(self)@.wf(),
            (final(self)@, r) == old(self)@.submit(nonce_of(accounts@, who), who, difficulty, work@),
    {
        if !(MIN_DIFFICULTY <= difficulty && difficulty <= MAX_DIFFICULTY) {
            return Err(Error::InvalidDifficulty);
        }
        let score_state = self.score(who);
        if score_state == ScoreState::Disabled {
            return Err(Error::ScoreDisabled);
        }
        let tx_nonce = accounts.account_nonce(who);
        if tx_nonce > u32::MAX as u64 {
            return Err(Error::BadProof);
        }
        if !verify_pow(who, tx_nonce as u32, difficulty, &work) {
            return Err(Error::BadProof);
        }
        let points = match score_state {
            ScoreState::Enabled(pts) => pts,
            ScoreState::Disabled => 0,
        };
        let points = points.saturating_add(solution_award(difficulty));
        self.scores.insert(who, ScoreState::Enabled(points));
        self.events.push(Event::SolutionAccepted { who, difficulty, new_score: points });
        Ok(points)
    }

    /// Withdraws `who`: the score is frozen as `Disabled` and the points it
    /// held are returned.
    pub fn withdraw(&mut self, who: AccountId) -> (r: Result<u64, Error>)
        requires
            old(self)@.wf(),
        ensures
            final(self)@.wf(),
            (final(self)@, r) == old(self)@.withdraw(who),
    {
        match self.score(who) {
            ScoreState::Disabled => Err(Error::AlreadyWithdrawn),
            ScoreState::Enabled(points) => {
                self.scores.insert(who, ScoreState::Disabled);
                self.events.push(Event::Withdrawn { who, points });
                Ok(points)
            },
        }
    }

    /// Enters `who` in the lottery with a proof of work of the lottery
    /// difficulty, checked against the account's current nonce, and returns
    /// the entry's number.
    pub fn enter_lottery(&mut self, accounts: &AccountStore, who: AccountId, work: [u8; 32]) -> (r:
        Result<u32, Error>)
        requires
            old(self)@.wf(),
        ensures
            final(self)@.wf(),
            (final(self)@, r) == old(self)@.enter(nonce_of(accounts@, who), who, work@),
    {
        if self.score(who) == ScoreState::Disabled {
            return Err(Error::ScoreDisabled);
        }
        let tx_nonce = accounts.account_nonce(who);
        if tx_nonce > u32::MAX as u64 {
            return Err(Error::BadProof);
        }
        if !verify_pow(who, tx_nonce as u32, LOTTERY_DIFFICULTY, &work) {
            return Err(Error::BadProof);
        }
        self.add_lottery_entry(who)
    }

    fn add_lottery_entry(&mut self, who: AccountId) -> (r: Result<u32, Error>)
        requires
            old(self)@.wf(),
        ensures
            final(self)@.wf(),
            (final(self)@, r) == old(self)@.add_entry(who),
    {
        let entry_count = self.lottery_entry_count;
        if self.has_lottery_entry(who) {
            return Err(Error::LotteryEntryFailed);
        }
        self.lottery_entries.push(who);
        self.lottery_entry_count = entry_count.saturating_add(1);
        self.events.push(Event::LotteryEntryAdded { who, entry_number: entry_count });
        proof {
            let e = self@.entries;
            assert forall|i: int, j: int| 0 <= i < e.len() && 0 <= j < e.len() && i != j implies e[i]
                != e[j] by {
                if i < e.len() - 1 && j < e.len() - 1 {
                    assert(old(self)@.entries[i] == e[i]);
                    assert(old(self)@.entries[j] == e[j]);
                } else if i < e.len() - 1 {
                    assert(old(self)@.entries[i] == e[i]);
                } else {
                    assert(old(self)@.entries[j] == e[j]);
                }
            }
        }
        Ok(entry_count)
    }

    /// Draws the lottery winner: the entry at the winner's position, with the
    /// entries taken in the order in which they were made. Every other entry
    /// is removed and the count is reset, also where the prize is refused
    /// because the winner has withdrawn.
    ///
    /// The winner's own entry is not removed. Until a later draw removes it:
    /// that identity cannot enter again; its stale entry stands at position 0
    /// and is eligible in the next draw without a new entry; and since the
    /// winner's position is below the count, which then is one less than the
    /// entries held, the newest entrant (at position `entry_count`) can never
    /// be drawn.
    pub fn select_lottery_winner(&mut self) -> (r: Result<AccountId, Error>)
        requires
            old(self)@.wf(),
            old(self)@.entry_count > 0,
        ensures
            final(self)@.wf(),
            (final(self)@, r) == old(self)@.select(),
    {
        let index = winner_index(&self.lottery_randomness, self.lottery_entry_count);
        let winner = self.lottery_entries[index as usize];
        let mut kept: Vec<AccountId> = Vec::new();
        kept.push(winner);
        self.lottery_entries = kept;
        self.lottery_entry_count = 0;
        proof {
            assert(self@.entries =~= seq![winner]);
        }
        match self.score(winner) {
            ScoreState::Disabled => Err(Error::AlreadyWithdrawn),
            ScoreState::Enabled(current_points) => {
                let new_points = current_points.saturating_add(LOTTERY_PRIZE);
                self.scores.insert(winner, ScoreState::Enabled(new_points));
                self.events.push(
                    Event::LotteryWinnerSelected { who: winner, points_awarded: LOTTERY_PRIZE },
                );
                Ok(winner)
            },
        }
    }

    /// The tick `n`: advances the randomness by hashing it with the encoded
    /// tick, then draws a winner once the count has reached the threshold. A
    /// refused draw is not reported.
    pub fn on_initialize(&mut self, n: u32) -> (r: Weight)
        requires
            old(self)@.wf(),
        ensures
            final(self)@.wf(),
            final(self)@ == old(self)@.tick(n),
            r == zero_weight(),
    {
        let next = match &self.lottery_randomness {
            Some(current) => {
                let mut input: Vec<u8> = Vec::new();
                push_bytes(&mut input, current.as_slice());
                push_u32_le(&mut input, n);
                Some(blake2_256(&input))
            },
            None => None,
        };
        self.lottery_randomness = next;
        if self.lottery_entry_count >= LOTTERY_THRESHOLD {
            let _ = self.select_lottery_winner();
        }
        Weight::zero()
    }

    /// The lottery entries held, in the order in which they were made.
    pub fn lottery_entries(&self) -> (r: &Vec<AccountId>)
        ensures
            r@ == self@.entries,
    {
        &self.lottery_entries
    }

    /// The number of entries made since the last draw.
    pub fn lottery_entry_count(&self) -> (r: u32)
        ensures
            r == self@.entry_count,
    {
        self.lottery_entry_count
    }

    /// The randomness value, if one has been set.
    pub fn lottery_randomness(&self) -> (r: Option<[u8; 32]>)
        ensures
            r matches Some(b) ==> self@.randomness == Some(b@),
            r is None ==> self@.randomness is None,
    {
        self.lottery_randomness
    }

    /// The events reported so far.
    pub fn events(&self) -> (r: &Vec<Event>)
        ensures
            r@ == self@.events,
    {
        &self.events
    }
}

/// Withdrawal is final. A withdrawn account's withdrawal is refused with
/// `AlreadyWithdrawn` and its submissions of an admissible difficulty with
/// `ScoreDisabled`, both without a change; and no operation by anyone, nor a
/// tick, makes the account `Enabled` again.
pub proof fn lemma_withdrawal_is_final(
    m: GameState,
    who: AccountId,
    other: AccountId,
    nonce: u64,
    difficulty: u32,
    work: Seq<u8>,
    n: u32,
)
    requires
        m.wf(),
        m.score_of(who) == ScoreState::Disabled,
    ensures
        m.withdraw(who) == (m, Err::<u64, Error>(Error::AlreadyWithdrawn)),
        MIN_DIFFICULTY <= difficulty <= MAX_DIFFICULTY ==> m.submit(nonce, who, difficulty, work)
            == (m, Err::<u64, Error>(Error::ScoreDisabled)),
        m.enter(nonce, who, work) == (m, Err::<u32, Error>(Error::ScoreDisabled)),
        m.submit(nonce, other, difficulty, work).0.score_of(who) == ScoreState::Disabled,
        m.withdraw(other).0.score_of(who) == ScoreState::Disabled,
        m.enter(nonce, other, work).0.score_of(who) == ScoreState::Disabled,
        m.tick(n).score_of(who) == ScoreState::Disabled,
{
    let advanced = GameState { randomness: next_randomness(m.randomness, n), ..m };
    if advanced.entry_count >= LOTTERY_THRESHOLD {
        assert(advanced.select().0.score_of(who) == ScoreState::Disabled);
    }
}

/// A withdrawal returns the points held and disables the account, after
/// which a submission of an admissible difficulty is refused with
/// `ScoreDisabled` and the points stay frozen.
pub proof fn lemma_withdraw_then_submit(
    m: GameState,
    who: AccountId,
    points: u64,
    nonce: u64,
    difficulty: u32,
    work: Seq<u8>,
)
    requires
        m.wf(),
        m.score_of(who) == ScoreState::Enabled(points),
        MIN_DIFFICULTY <= difficulty <= MAX_DIFFICULTY,
    ensures
        m.withdraw(who).1 == Ok::<u64, Error>(points),
        m.withdraw(who).0.score_of(who) == ScoreState::Disabled,
        m.withdraw(who).0.events.last() == (Event::Withdrawn { who, points }),
        m.withdraw(who).0.submit(nonce, who, difficulty, work) == (
            m.withdraw(who).0,
            Err::<u64, Error>(Error::ScoreDisabled),
        ),
{
}

proof fn lemma_add_entry_keeps_wf(m: GameState, who: AccountId)
    requires
        m.wf(),
    ensures
        m.add_entry(who).0.wf(),
        m.add_entry(who).1 is Ok ==> m.add_entry(who).0.entries == m.entries.push(who),
{
    if !m.entries.contains(who) {
        let e = m.add_entry(who).0.entries;
        assert forall|i: int, j: int| 0 <= i < e.len() && 0 <= j < e.len() && i != j implies e[i]
            != e[j] by {
            if i < e.len() - 1 {
                assert(m.entries[i] == e[i]);
            }
            if j < e.len() - 1 {
                assert(m.entries[j] == e[j]);
            }
        }
    }
}

/// Lottery entries are numbered from the count since the last draw: an
/// accepted entry gets the current count as its number and raises the count
/// by exactly one; a second entry by the same identity is then refused
/// whatever its nonce and work, without a change, and with
/// `LotteryEntryFailed` where its proof is accepted; and a draw resets the
/// count to zero.
pub proof fn lemma_lottery_entries_numbered(
    m: GameState,
    who: AccountId,
    nonce: u64,
    work: Seq<u8>,
    again_nonce: u64,
    again_work: Seq<u8>,
)
    requires
        m.wf(),
        m.entry_count < u32::MAX,
    ensures
        m.enter(nonce, who, work).1 matches Ok(k) ==> {
            let after = m.enter(nonce, who, work).0;
            &&& k == m.entry_count
            &&& after.entry_count == k + 1
            &&& after.wf()
            &&& after.enter(again_nonce, who, again_work).0 == after
            &&& after.enter(again_nonce, who, again_work).1 is Err
            &&& (again_nonce <= u32::MAX && pow_verdict(
                who,
                again_nonce as u32,
                LOTTERY_DIFFICULTY,
                again_work,
            )) ==> after.enter(again_nonce, who, again_work).1 == Err::<u32, Error>(
                Error::LotteryEntryFailed,
            )
        },
        m.entry_count > 0 ==> m.select().0.entry_count == 0,
{
    lemma_add_entry_keeps_wf(m, who);
    if m.enter(nonce, who, work).1 is Ok {
        let after = m.enter(nonce, who, work).0;
        assert(after.entries.last() == who);
        assert(after.entries.contains(who));
    }
}

/// A run of accepted lottery entries by distinct identities, none of which
/// holds an entry yet, is numbered `c, c + 1, c + 2, ...` from the current
/// count `c` (0 after a draw), raises the count by the number of entries,
/// and appends the identities to the entries in order.
pub proof fn lemma_lottery_entry_run(
    m: GameState,
    whos: Seq<AccountId>,
    nonces: Seq<u64>,
    works: Seq<Seq<u8>>,
)
    requires
        m.wf(),
        nonces.len() == whos.len(),
        works.len() == whos.len(),
        whos.no_duplicates(),
        m.entry_count + whos.len() < u32::MAX,
        forall|i: int|
            0 <= i < whos.len() ==> {
                &&& !m.entries.contains(#[trigger] whos[i])
                &&& m.score_of(whos[i]) != ScoreState::Disabled
                &&& nonces[i] <= u32::MAX
                &&& pow_verdict(whos[i], nonces[i] as u32, LOTTERY_DIFFICULTY, works[i])
            },
    ensures
        m.enter_run(whos, nonces, works).1 == Seq::new(
            whos.len(),
            |i: int| Ok::<u32, Error>((m.entry_count + i) as u32),
        ),
        m.enter_run(whos, nonces, works).0.entry_count == m.entry_count + whos.len(),
        m.enter_run(whos, nonces, works).0.entries == m.entries + whos,
        m.enter_run(whos, nonces, works).0.wf(),
    decreases whos.len(),
{
    if whos.len() == 0 {
        assert(m.entries + whos =~= m.entries);
        assert(Seq::new(whos.len(), |i: int| Ok::<u32, Error>((m.entry_count + i) as u32))
            =~= Seq::<Result<u32, Error>>::empty());
    } else {
        let who = whos[0];
        assert(!m.entries.contains(who) && m.score_of(who) != ScoreState::Disabled);
        let next = m.enter(nonces[0], who, works[0]).0;
        lemma_add_entry_keeps_wf(m, who);
        assert(next == m.add_entry(who).0);
        assert(next.entries == m.entries.push(who));
        let rest = whos.drop_first();
        assert(rest.no_duplicates()) by {
            assert forall|i: int, j: int| 0 <= i < rest.len() && 0 <= j < rest.len() && i != j implies rest[i]
                != rest[j] by {
                assert(rest[i] == whos[i + 1]);
                assert(rest[j] == whos[j + 1]);
            }
        }
        assert forall|i: int| 0 <= i < rest.len() implies {
            &&& !next.entries.contains(#[trigger] rest[i])
            &&& next.score_of(rest[i]) != ScoreState::Disabled
            &&& nonces.drop_first()[i] <= u32::MAX
            &&& pow_verdict(rest[i], nonces.drop_first()[i] as u32, LOTTERY_DIFFICULTY, works.drop_first()[i])
        } by {
            assert(rest[i] == whos[i + 1]);
            assert(whos[i + 1] != whos[0]);
            assert(!m.entries.contains(whos[i + 1]));
            if next.entries.contains(rest[i]) {
                let k = choose|k: int| 0 <= k < next.entries.len() && next.entries[k] == rest[i];
                if k < m.entries.len() {
                    assert(m.entries[k] == rest[i]);
                }
            }
        }
        lemma_lottery_entry_run(next, rest, nonces.drop_first(), works.drop_first());
        let c = m.entry_count;
        assert(next.entry_count == c + 1);
        assert(next.entries + rest =~= m.entries + whos);
        assert(m.enter_run(whos, nonces, works).1 =~= Seq::new(
            whos.len(),
            |i: int| Ok::<u32, Error>((c + i) as u32),
        ));
    }
}

/// A tick at which the entry count has reached the threshold draws exactly
/// once: one entry stays, the winner's, which was among the entries; the count
/// is reset; every other identity's score is unchanged; and the winner, where
/// still enabled, gains the prize, reported by one event.
pub proof fn lemma_lottery_draw(m: GameState, n: u32, x: AccountId)
    requires
        m.wf(),
        m.entry_count >= LOTTERY_THRESHOLD,
    ensures
        ({
            let index = winner_index_spec(next_randomness(m.randomness, n), m.entry_count);
            let w = m.entries[index as int];
            let after = m.tick(n);
            &&& index < m.entry_count
            &&& m.entries.contains(w)
            &&& after.entries == seq![w]
            &&& after.entry_count == 0
            &&& after.wf()
            &&& x != w ==> after.score_of(x) == m.score_of(x)
            &&& m.score_of(w) matches ScoreState::Enabled(p) ==> {
                &&& after.score_of(w) == ScoreState::Enabled(p.saturating_add(LOTTERY_PRIZE))
                &&& after.events == m.events.push(
                    Event::LotteryWinnerSelected { who: w, points_awarded: LOTTERY_PRIZE },
                )
            }
            &&& m.score_of(w) == ScoreState::Disabled ==> after.scores == m.scores
                && after.events == m.events
        }),
{
    let index = winner_index_spec(next_randomness(m.randomness, n), m.entry_count);
    let w = m.entries[index as int];
    let advanced = GameState { randomness: next_randomness(m.randomness, n), ..m };
    assert(index < m.entry_count) by {
        if let Some(r) = next_randomness(m.randomness, n) {
            assert(be_u32_prefix(r) % (m.entry_count as nat) < m.entry_count);
        }
    }
    assert(m.entries[index as int] == w);
    assert(m.entries.contains(w));
    assert(m.tick(n) == advanced.select().0);
    assert(seq![w].no_duplicates());
}

} // verus!
