use risk_dice::battle::{battle_trial, battle_trial_from_rolls, simulate_battle};
use risk_dice::rng::DiceRng;
use risk_dice::round::{roll_pool, simulate_single_round, simulate_single_round_parallel};
use risk_dice::sweep::percent_hundredths;

#[test]
fn three_dice_against_one_wins_often() {
    // Monotonicity sanity: three attacker dice against one defender die win
    // far more often than one against one. The best of three strictly beats
    // a single d6 with probability 855/1296, about 65.97%.
    let trials = 200_000;
    let wins_three = simulate_single_round_parallel(3, 1, trials);
    let wins_one = simulate_single_round_parallel(1, 1, trials);
    let percent_three = percent_hundredths(wins_three as u64, trials as u64);
    let percent_one = percent_hundredths(wins_one as u64, trials as u64);
    assert!(percent_three > percent_one, "got {percent_three} vs {percent_one}");
    assert!((6397..=6797).contains(&percent_three), "got {percent_three}");
}

#[test]
fn one_die_each_converges_to_fifteen_in_thirtysix() {
    // One d6 strictly beats another with probability 15/36, about 41.67%.
    let trials = 1_000_000;
    let wins = simulate_single_round_parallel(1, 1, trials);
    let percent = percent_hundredths(wins as u64, trials as u64);
    assert!((4067..=4267).contains(&percent), "got {percent}");
}

#[test]
fn sequential_and_parallel_trials_agree_statistically() {
    let trials = 200_000;
    let mut rng = DiceRng::seeded(99);
    let seq_wins = simulate_single_round(1, 1, trials, &mut rng);
    let par_wins = simulate_single_round_parallel(1, 1, trials);
    let seq_percent = percent_hundredths(seq_wins as u64, trials as u64) as i64;
    let par_percent = percent_hundredths(par_wins as u64, trials as u64) as i64;
    assert!((seq_percent - par_percent).abs() < 200);
}

#[test]
fn single_soldier_battle_reduces_to_single_dice_pair() {
    // A 1-vs-1 battle is decided by one die against one die: about 41.67%.
    let trials = 100_000;
    let mut rng = DiceRng::from_entropy();
    let wins = simulate_battle(1, 1, trials, &mut rng);
    let percent = percent_hundredths(wins as u64, trials as u64);
    assert!((3967..=4367).contains(&percent), "got {percent}");
}

#[test]
fn same_seed_same_battle_outcome() {
    // Re-running a battle simulation from the same seed repeats it exactly.
    let mut rng_one = DiceRng::seeded(12345);
    let wins_one = simulate_battle(5, 5, 2000, &mut rng_one);
    let mut rng_two = DiceRng::seeded(12345);
    let wins_two = simulate_battle(5, 5, 2000, &mut rng_two);
    assert_eq!(wins_one, wins_two);
    assert_eq!(
        percent_hundredths(wins_one as u64, 2000),
        percent_hundredths(wins_two as u64, 2000)
    );
}

#[test]
fn empty_attacker_always_loses() {
    // No deadlock and no win: the side starting at zero has already lost.
    let mut rng = DiceRng::seeded(7);
    let r = battle_trial(0, 5, &mut rng);
    assert_eq!(r, (0, 5));
    let wins = simulate_battle(0, 5, 1000, &mut rng);
    assert_eq!(wins, 0);
}

#[test]
fn empty_defender_always_loses() {
    let mut rng = DiceRng::seeded(8);
    let r = battle_trial(5, 0, &mut rng);
    assert_eq!(r, (5, 0));
    let wins = simulate_battle(5, 0, 1000, &mut rng);
    assert_eq!(wins, 1000);
}

#[test]
fn battle_always_wipes_out_exactly_one_side() {
    let mut rng = DiceRng::seeded(9);
    for _ in 0..50 {
        let r = battle_trial(20, 20, &mut rng);
        assert!((r.0 == 0) != (r.1 == 0));
        assert!(r.0 <= 20 && r.1 <= 20);
    }
}

#[test]
fn replayed_battle_exact_outcomes() {
    // 1 vs 1, rolls [6, 3]: the attacker's 6 beats 3; defenders are wiped out.
    assert_eq!(battle_trial_from_rolls(1, 1, &vec![6, 3]), Some((1, 0)));
    // 1 vs 1, rolls [4, 4]: the tie fells the attacker.
    assert_eq!(battle_trial_from_rolls(1, 1, &vec![4, 4]), Some((0, 1)));
    // 2 vs 2 takes four rolls; [6, 6, 1, 1] wipes the defenders out at once.
    assert_eq!(battle_trial_from_rolls(2, 2, &vec![6, 6, 1, 1]), Some((2, 0)));
    // 2 vs 1: [1, 1] loses to [6], then [5] beats [2].
    assert_eq!(battle_trial_from_rolls(2, 1, &vec![1, 1, 6, 5, 2]), Some((1, 0)));
    // Settled before any roll is needed.
    assert_eq!(battle_trial_from_rolls(0, 5, &vec![]), Some((0, 5)));
}

#[test]
fn replayed_battle_runs_out_of_rolls() {
    assert_eq!(battle_trial_from_rolls(1, 1, &vec![5]), None);
    assert_eq!(battle_trial_from_rolls(2, 2, &vec![6, 6, 1]), None);
}

#[test]
fn replayed_battle_is_deterministic() {
    // The replay is a function of the armies and the rolls alone.
    let mut rng = DiceRng::seeded(11);
    let rolls = roll_pool(400, &mut rng);
    let one = battle_trial_from_rolls(8, 8, &rolls);
    let two = battle_trial_from_rolls(8, 8, &rolls);
    assert_eq!(one, two);
}

#[test]
fn lone_attacker_cannot_beat_many_defenders_often() {
    // 1 soldier against 20: the attacker must win about twenty rounds in a
    // row without losing one; wins should be rare.
    let mut rng = DiceRng::seeded(10);
    let wins = simulate_battle(1, 20, 2000, &mut rng);
    assert!(wins < 100);
}
