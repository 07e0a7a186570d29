use vstd::prelude::*;

use crate::battle::simulate_battle;
use crate::rng::DiceRng;
use crate::round::{contested, simulate_single_round_parallel};
use vstd::arithmetic::div_mod::{
    lemma_div_is_ordered, lemma_div_multiples_vanish, lemma_fundamental_div_mod_converse,
};
use vstd::arithmetic::mul::lemma_mul_inequality;

verus! {

/// Trials per configuration of the single-round sweep.
pub const SINGLE_ROUND_TRIALS: usize = 10_000_000;

/// Trials per configuration of the battle sweep.
pub const BATTLE_TRIALS: usize = 100_000;

/// One row of a result table: the swept configuration together with the
/// counts its win percentage is computed from.
#[derive(PartialEq, Eq, Structural, Clone, Copy, Debug)]
pub struct SweepRow {
    /// Attacker dice (single-round sweep) or attacker soldiers (battle sweep).
    pub attacker: usize,
    /// Defender dice (single-round sweep) or defender soldiers (battle sweep).
    pub defender: usize,
    /// Attacker-won positions (single-round) or attacker victories (battle).
    pub wins: usize,
    /// The row's fixed denominator: `trials * defender` dice positions for
    /// the single-round sweep, `trials` battles for the battle sweep.
    pub total: usize,
}

/// The win percentage in hundredths of a percent, truncated: `4166` stands
/// for `41.66%`. Exactly `(wins * 10000) / total`.
pub fn percent_hundredths(wins: u64, total: u64) -> (p: u64)
    requires
        total > 0,
        wins <= total,
    ensures
        p == wins as int * 10000 / total as int,
        p <= 10000,
{
    let p128 = (wins as u128 * 10000) / (total as u128);
    proof {
        lemma_mul_inequality(wins as int, total as int, 10000);
        lemma_div_is_ordered(wins as int * 10000, total as int * 10000, total as int);
        lemma_div_multiples_vanish(10000, total as int);
    }
    p128 as u64
}

/// The single-round sweep: every configuration of the dice-count grid,
/// attacker dice in {3, 2, 1} by descending attacker, defender dice in
/// {2, 1} by descending defender — six rows, one per configuration, each
/// holding exactly the configuration it was swept with, its attacker-won
/// position count, and the denominator `trials * defender`.
pub fn sweep_single_round(trials: usize) -> (rows: Vec<SweepRow>)
    requires
        trials * 2 <= usize::MAX,
    ensures
        rows@.len() == 6,
        forall|i: int| 0 <= i < 6 ==> (#[trigger] rows@[i]).attacker == 3 - i / 2,
        forall|i: int| 0 <= i < 6 ==> (#[trigger] rows@[i]).defender == 2 - i % 2,
        forall|i: int|
            0 <= i < 6 ==> (#[trigger] rows@[i]).total == trials * rows@[i].defender as int,
        forall|i: int| 0 <= i < 6 ==> (#[trigger] rows@[i]).wins <= rows@[i].total,
{
    let mut rows: Vec<SweepRow> = Vec::new();
    let mut a: usize = 3;
    while a >= 1
        invariant
            a <= 3,
            trials * 2 <= usize::MAX,
            rows@.len() == (3 - a) * 2,
            forall|i: int| 0 <= i < rows@.len() ==> (#[trigger] rows@[i]).attacker == 3 - i / 2,
            forall|i: int| 0 <= i < rows@.len() ==> (#[trigger] rows@[i]).defender == 2 - i % 2,
            forall|i: int|
                0 <= i < rows@.len() ==> (#[trigger] rows@[i]).total == trials * rows@[i].defender
                    as int,
            forall|i: int| 0 <= i < rows@.len() ==> (#[trigger] rows@[i]).wins <= rows@[i].total,
        decreases a,
    {
        let mut d: usize = 2;
        while d >= 1
            invariant
                1 <= a <= 3,
                d <= 2,
                trials * 2 <= usize::MAX,
                rows@.len() == (3 - a) * 2 + (2 - d),
                forall|i: int| 0 <= i < rows@.len() ==> (#[trigger] rows@[i]).attacker == 3 - i / 2,
                forall|i: int| 0 <= i < rows@.len() ==> (#[trigger] rows@[i]).defender == 2 - i % 2,
                forall|i: int|
                    0 <= i < rows@.len() ==> (#[trigger] rows@[i]).total == trials
                        * rows@[i].defender as int,
                forall|i: int| 0 <= i < rows@.len() ==> (#[trigger] rows@[i]).wins <= rows@[i].total,
            decreases d,
        {
            proof {
                assert(trials * contested(a, d) <= trials * 2) by (nonlinear_arith)
                    requires
                        contested(a, d) <= 2,
                        trials >= 0,
                ;
                assert(trials * d <= trials * 2) by (nonlinear_arith)
                    requires
                        d <= 2,
                        trials >= 0,
                ;
            }
            let wins = simulate_single_round_parallel(a, d, trials);
            let total = trials * d;
            proof {
                assert(trials * contested(a, d) <= trials * d) by (nonlinear_arith)
                    requires
                        contested(a, d) <= d,
                        trials >= 0,
                ;
            }
            let ghost k: int = rows@.len() as int;
            rows.push(SweepRow { attacker: a, defender: d, wins, total });
            proof {
                lemma_fundamental_div_mod_converse(k, 2, 3 - a, 2 - d);
            }
            d = d - 1;
        }
        a = a - 1;
    }
    rows
}

/// The battle sweep: every configuration of the soldier-count grid, both
/// army sizes in {20, ..., 1}, by descending attacker and then descending
/// defender — four hundred rows, one per configuration, each holding
/// exactly the configuration it was swept with, its attacker-victory count,
/// and the denominator `trials`.
pub fn sweep_battle(trials: usize, rng: &mut DiceRng) -> (rows: Vec<SweepRow>)
    ensures
        rows@.len() == 400,
        forall|i: int| 0 <= i < 400 ==> (#[trigger] rows@[i]).attacker == 20 - i / 20,
        forall|i: int| 0 <= i < 400 ==> (#[trigger] rows@[i]).defender == 20 - i % 20,
        forall|i: int| 0 <= i < 400 ==> (#[trigger] rows@[i]).total == trials,
        forall|i: int| 0 <= i < 400 ==> (#[trigger] rows@[i]).wins <= trials,
{
    let mut rows: Vec<SweepRow> = Vec::new();
    let mut a: usize = 20;
    while a >= 1
        invariant
            a <= 20,
            rows@.len() == (20 - a) * 20,
            forall|i: int| 0 <= i < rows@.len() ==> (#[trigger] rows@[i]).attacker == 20 - i / 20,
            forall|i: int| 0 <= i < rows@.len() ==> (#[trigger] rows@[i]).defender == 20 - i % 20,
            forall|i: int| 0 <= i < rows@.len() ==> (#[trigger] rows@[i]).total == trials,
            forall|i: int| 0 <= i < rows@.len() ==> (#[trigger] rows@[i]).wins <= trials,
        decreases a,
    {
        let mut d: usize = 20;
        while d >= 1
            invariant
                1 <= a <= 20,
                d <= 20,
                rows@.len() == (20 - a) * 20 + (20 - d),
                forall|i: int|
                    0 <= i < rows@.len() ==> (#[trigger] rows@[i]).attacker == 20 - i / 20,
                forall|i: int|
                    0 <= i < rows@.len() ==> (#[trigger] rows@[i]).defender == 20 - i % 20,
                forall|i: int| 0 <= i < rows@.len() ==> (#[trigger] rows@[i]).total == trials,
                forall|i: int| 0 <= i < rows@.len() ==> (#[trigger] rows@[i]).wins <= trials,
            decreases d,
        {
            let wins = simulate_battle(a, d, trials, rng);
            let ghost k: int = rows@.len() as int;
            rows.push(SweepRow { attacker: a, defender: d, wins, total: trials });
            proof {
                lemma_fundamental_div_mod_converse(k, 20, 20 - a, 20 - d);
            }
            d = d - 1;
        }
        a = a - 1;
    }
    rows
}

} // verus!
