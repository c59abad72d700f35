use ctf_pow::accounts::AccountStore;
use ctf_pow::check_nonce::Weight;
use ctf_pow::pallet::{solution_award, winner_index, Error, Event, Pallet, ScoreState, LOTTERY_PRIZE};

fn work_of(i: u64) -> [u8; 32] {
    let mut w = [0u8; 32];
    w[..8].copy_from_slice(&i.to_le_bytes());
    w
}

/// Work of difficulty 25 for identities 1 to 20 at nonce 0.
const LOTTERY_WORK: [u64; 20] = [
    10_613_656, 42_407_061, 38_027_438, 38_978_127, 8_107_859, 26_967_951, 149_817_291,
    23_544_164, 18_383_701, 45_895_985, 114_572_686, 8_421_371, 149_423_260, 529_635,
    18_060_703, 540_950, 22_934_061, 85_320_419, 36_871_889, 12_609_095,
];

fn full_lottery(game: &mut Pallet, accounts: &AccountStore) {
    for (i, w) in LOTTERY_WORK.iter().enumerate() {
        let who = i as u64 + 1;
        assert_eq!(game.enter_lottery(accounts, who, work_of(*w)), Ok(i as u32));
    }
}

#[test]
fn award_formula() {
    assert_eq!(solution_award(20), 1);
    assert_eq!(solution_award(21), 2);
    assert_eq!(solution_award(30), 1024);
    assert_eq!(solution_award(83), 1u64 << 63);
}

#[test]
fn award_keeps_rising_past_the_shift_width() {
    let top = 1u64 << 63;
    assert_eq!(solution_award(84), top + 1);
    assert_eq!(solution_award(85), top + 2);
    assert_eq!(solution_award(256), top + 173);
    for d in 20..256u32 {
        assert!(solution_award(d) < solution_award(d + 1));
    }
}

#[test]
fn default_score_is_enabled_zero() {
    assert_eq!(ScoreState::default(), ScoreState::Enabled(0));
    assert_eq!(Pallet::new().score(5), ScoreState::Enabled(0));
}

#[test]
fn invalid_difficulty_is_refused() {
    let accounts = AccountStore::new();
    let mut game = Pallet::new();
    assert_eq!(game.submit_solution(&accounts, 100, 19, work_of(0)), Err(Error::InvalidDifficulty));
    assert_eq!(game.submit_solution(&accounts, 100, 257, work_of(0)), Err(Error::InvalidDifficulty));
    assert!(game.events().is_empty());
}

#[test]
fn bad_work_is_refused() {
    let accounts = AccountStore::new();
    let mut game = Pallet::new();
    assert_eq!(game.submit_solution(&accounts, 100, 20, work_of(0)), Err(Error::BadProof));
    assert_eq!(game.score(100), ScoreState::Enabled(0));
}

#[test]
fn nonce_beyond_32_bits_is_bad_proof() {
    let mut accounts = AccountStore::new();
    accounts.set_account_nonce(100, u32::MAX as u64 + 1);
    let mut game = Pallet::new();
    assert_eq!(game.submit_solution(&accounts, 100, 20, work_of(1_729_496)), Err(Error::BadProof));
    assert_eq!(game.enter_lottery(&accounts, 100, work_of(0)), Err(Error::BadProof));
}

#[test]
fn end_to_end_scoring_and_withdrawal() {
    let mut accounts = AccountStore::new();
    let mut game = Pallet::new();
    assert_eq!(game.submit_solution(&accounts, 100, 20, work_of(1_729_496)), Ok(1));
    assert_eq!(game.score(100), ScoreState::Enabled(1));
    accounts.inc_account_nonce(100);
    assert_eq!(game.submit_solution(&accounts, 100, 21, work_of(148_786)), Ok(3));
    assert_eq!(game.score(100), ScoreState::Enabled(3));
    assert_eq!(game.withdraw(100), Ok(3));
    assert_eq!(game.score(100), ScoreState::Disabled);
    assert_eq!(
        game.events(),
        &vec![
            Event::SolutionAccepted { who: 100, difficulty: 20, new_score: 1 },
            Event::SolutionAccepted { who: 100, difficulty: 21, new_score: 3 },
            Event::Withdrawn { who: 100, points: 3 },
        ]
    );
    accounts.inc_account_nonce(100);
    assert_eq!(game.submit_solution(&accounts, 100, 20, work_of(663_927)), Err(Error::ScoreDisabled));
    assert_eq!(game.withdraw(100), Err(Error::AlreadyWithdrawn));
    assert_eq!(game.score(100), ScoreState::Disabled);
    assert_eq!(game.events().len(), 3);
}

#[test]
fn withdrawn_account_cannot_enter_lottery() {
    let accounts = AccountStore::new();
    let mut game = Pallet::new();
    assert_eq!(game.withdraw(1), Ok(0));
    assert_eq!(game.enter_lottery(&accounts, 1, work_of(LOTTERY_WORK[0])), Err(Error::ScoreDisabled));
    assert_eq!(game.lottery_entry_count(), 0);
}

#[test]
fn second_lottery_entry_is_refused() {
    let accounts = AccountStore::new();
    let mut game = Pallet::new();
    assert_eq!(game.enter_lottery(&accounts, 1, work_of(LOTTERY_WORK[0])), Ok(0));
    assert_eq!(game.enter_lottery(&accounts, 1, work_of(LOTTERY_WORK[0])), Err(Error::LotteryEntryFailed));
    assert_eq!(game.enter_lottery(&accounts, 2, work_of(LOTTERY_WORK[1])), Ok(1));
    assert_eq!(game.lottery_entry_count(), 2);
    assert_eq!(game.lottery_entries(), &vec![1, 2]);
    assert_eq!(game.events().last(), Some(&Event::LotteryEntryAdded { who: 2, entry_number: 1 }));
}

#[test]
fn lottery_entry_needs_work() {
    let accounts = AccountStore::new();
    let mut game = Pallet::new();
    assert_eq!(game.enter_lottery(&accounts, 1, work_of(0)), Err(Error::BadProof));
    assert!(game.lottery_entries().is_empty());
}

#[test]
fn winner_index_reads_big_endian_prefix() {
    let mut r = [0xEEu8; 32];
    r[0] = 0;
    r[1] = 0;
    r[2] = 1;
    r[3] = 2;
    assert_eq!(winner_index(&Some(r), 20), 258 % 20);
    assert_eq!(winner_index(&None, 20), 0);
}

#[test]
fn tick_below_threshold_draws_nothing() {
    let accounts = AccountStore::new();
    let mut game = Pallet::new();
    assert_eq!(game.enter_lottery(&accounts, 1, work_of(LOTTERY_WORK[0])), Ok(0));
    assert_eq!(game.on_initialize(1), Weight::zero());
    assert_eq!(game.lottery_entry_count(), 1);
    assert_eq!(game.lottery_randomness(), None);
}

#[test]
fn tick_advances_randomness() {
    let mut game = Pallet::with_randomness([7u8; 32]);
    game.on_initialize(5);
    let expected: [u8; 32] = [
        21, 242, 78, 85, 24, 251, 58, 239, 155, 187, 164, 38, 60, 57, 203, 28, 79, 36, 221, 253,
        28, 142, 175, 70, 75, 133, 184, 150, 14, 154, 96, 231,
    ];
    assert_eq!(game.lottery_randomness(), Some(expected));
}

#[test]
fn lottery_draw_without_randomness() {
    let accounts = AccountStore::new();
    let mut game = Pallet::new();
    full_lottery(&mut game, &accounts);
    assert_eq!(game.lottery_entry_count(), 20);
    game.on_initialize(1);
    assert_eq!(game.lottery_entry_count(), 0);
    assert_eq!(game.lottery_entries(), &vec![1]);
    assert_eq!(game.score(1), ScoreState::Enabled(LOTTERY_PRIZE));
    for who in 2..=20u64 {
        assert_eq!(game.score(who), ScoreState::Enabled(0));
    }
    let draws = game.events().iter().filter(|e| matches!(e, Event::LotteryWinnerSelected { .. })).count();
    assert_eq!(draws, 1);
    assert_eq!(game.events().last(), Some(&Event::LotteryWinnerSelected { who: 1, points_awarded: 800 }));
    game.on_initialize(2);
    assert_eq!(game.score(1), ScoreState::Enabled(LOTTERY_PRIZE));
}

#[test]
fn lottery_draw_with_randomness() {
    let accounts = AccountStore::new();
    let mut game = Pallet::with_randomness([7u8; 32]);
    full_lottery(&mut game, &accounts);
    game.on_initialize(1);
    assert_eq!(game.lottery_entry_count(), 0);
    assert_eq!(game.lottery_entries(), &vec![13]);
    for who in 1..=20u64 {
        let expected = if who == 13 { ScoreState::Enabled(800) } else { ScoreState::Enabled(0) };
        assert_eq!(game.score(who), expected);
    }
    let draws = game.events().iter().filter(|e| matches!(e, Event::LotteryWinnerSelected { .. })).count();
    assert_eq!(draws, 1);
}

#[test]
fn withdrawn_winner_loses_the_prize() {
    let accounts = AccountStore::new();
    let mut game = Pallet::new();
    full_lottery(&mut game, &accounts);
    assert_eq!(game.withdraw(1), Ok(0));
    assert_eq!(game.select_lottery_winner(), Err(Error::AlreadyWithdrawn));
    assert_eq!(game.score(1), ScoreState::Disabled);
    assert_eq!(game.lottery_entry_count(), 0);
    assert_eq!(game.lottery_entries(), &vec![1]);
}

#[test]
fn winner_keeps_stale_entry() {
    let accounts = AccountStore::new();
    let mut game = Pallet::new();
    full_lottery(&mut game, &accounts);
    assert_eq!(game.select_lottery_winner(), Ok(1));
    assert_eq!(game.enter_lottery(&accounts, 1, work_of(LOTTERY_WORK[0])), Err(Error::LotteryEntryFailed));
    assert_eq!(game.enter_lottery(&accounts, 2, work_of(LOTTERY_WORK[1])), Ok(0));
}
