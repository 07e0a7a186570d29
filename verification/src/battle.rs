use vstd::prelude::*;

use crate::rng::DiceRng;
use crate::round::{
    attacker_round_wins, defender_round_wins, lemma_round_conservation, paired, resolve_round,
    roll_pool,
};

verus! {

/// The game caps the attacker's pool at three dice per step.
pub open spec fn attacker_pool_size(soldiers: usize) -> usize {
    if soldiers <= 3 {
        soldiers
    } else {
        3
    }
}

/// The game caps the defender's pool at two dice per step.
pub open spec fn defender_pool_size(soldiers: usize) -> usize {
    if soldiers <= 2 {
        soldiers
    } else {
        2
    }
}

/// Applies one resolved step to the army state: the defender loses one
/// soldier per attacker-won position, the attacker loses one per
/// defender-won position.
pub fn apply_losses(
    attacker: usize,
    defender: usize,
    attacker_wins: usize,
    defender_wins: usize,
) -> (r: (usize, usize))
    requires
        defender_wins <= attacker,
        attacker_wins <= defender,
    ensures
        r.0 == attacker - defender_wins,
        r.1 == defender - attacker_wins,
{
    (attacker - defender_wins, defender - attacker_wins)
}

/// One battle step from a state where both armies still stand: each side
/// rolls its capped pool, and each paired position a side loses costs it
/// one soldier. Whatever faces come up: no army grows, at least one soldier
/// falls, and a single step never wipes out both armies.
pub fn battle_step(attacker: usize, defender: usize, rng: &mut DiceRng) -> (r: (usize, usize))
    requires
        attacker > 0,
        defender > 0,
    ensures
        r.0 <= attacker,
        r.1 <= defender,
        r.0 + r.1 < attacker + defender,
        !(r.0 == 0 && r.1 == 0),
        attacker - r.0 <= attacker_pool_size(attacker),
        attacker - r.0 <= defender_pool_size(defender),
        defender - r.1 <= attacker_pool_size(attacker),
        defender - r.1 <= defender_pool_size(defender),
{
    let a_dice = if attacker < 3 {
        attacker
    } else {
        3
    };
    let d_dice = if defender < 2 {
        defender
    } else {
        2
    };
    let a = roll_pool(a_dice, rng);
    let d = roll_pool(d_dice, rng);
    let ghost a0: Seq<u8> = a@;
    let ghost d0: Seq<u8> = d@;
    let r = resolve_round(a, d);
    proof {
        lemma_round_conservation(a0, d0);
    }
    apply_losses(attacker, defender, r.0, r.1)
}

/// One full battle: resolve steps until a side is wiped out. The loop
/// always terminates, because every step fells at least one soldier; a
/// start with an already-empty army is settled without any step. Returns
/// the final `(attacker, defender)` counts, of which at least one is zero
/// — and, when both armies started non-empty, exactly one.
pub fn battle_trial(attacker: usize, defender: usize, rng: &mut DiceRng) -> (r: (usize, usize))
    ensures
        r.0 <= attacker,
        r.1 <= defender,
        r.0 == 0 || r.1 == 0,
        attacker == 0 ==> r.0 == 0 && r.1 == defender,
        defender == 0 ==> r.1 == 0 && r.0 == attacker,
        attacker > 0 && defender > 0 ==> !(r.0 == 0 && r.1 == 0),
{
    let mut a = attacker;
    let mut d = defender;
    while a > 0 && d > 0
        invariant
            a <= attacker,
            d <= defender,
            attacker == 0 ==> a == 0 && d == defender,
            defender == 0 ==> d == 0 && a == attacker,
            a == 0 && d == 0 ==> attacker == 0 && defender == 0,
        decreases a + d,
    {
        let r = battle_step(a, d, rng);
        a = r.0;
        d = r.1;
    }
    (a, d)
}

/// The state a battle reaches when replayed from a fixed sequence of
/// rolls: each step takes the attacker's capped pool and then the
/// defender's from the front of the sequence, resolves them, and applies
/// the losses, until a side is wiped out. `None` when the sequence runs
/// out before that.
pub open spec fn battle_from_rolls(attacker: nat, defender: nat, rolls: Seq<u8>) -> Option<
    (nat, nat),
>
    decreases attacker + defender,
    via battle_from_rolls_decreases
{
    if attacker == 0 || defender == 0 {
        Some((attacker, defender))
    } else {
        let ap: nat = if attacker <= 3 {
            attacker
        } else {
            3
        };
        let dp: nat = if defender <= 2 {
            defender
        } else {
            2
        };
        if rolls.len() < ap + dp {
            None
        } else {
            let apool = rolls.subrange(0, ap as int);
            let dpool = rolls.subrange(ap as int, (ap + dp) as int);
            let aw = attacker_round_wins(apool, dpool);
            let dw = defender_round_wins(apool, dpool);
            battle_from_rolls(
                (attacker - dw) as nat,
                (defender - aw) as nat,
                rolls.skip((ap + dp) as int),
            )
        }
    }
}

#[via_fn]
proof fn battle_from_rolls_decreases(attacker: nat, defender: nat, rolls: Seq<u8>) {
    if attacker > 0 && defender > 0 {
        let ap: nat = if attacker <= 3 {
            attacker
        } else {
            3
        };
        let dp: nat = if defender <= 2 {
            defender
        } else {
            2
        };
        if rolls.len() >= ap + dp {
            let apool = rolls.subrange(0, ap as int);
            let dpool = rolls.subrange(ap as int, (ap + dp) as int);
            lemma_round_conservation(apool, dpool);
            assert(paired(apool, dpool) >= 1);
        }
    }
}

/// Copies `count` rolls starting at `start` into a fresh pool.
fn copy_pool(rolls: &Vec<u8>, start: usize, count: usize) -> (v: Vec<u8>)
    requires
        start + count <= rolls@.len(),
    ensures
        v@ == rolls@.subrange(start as int, (start + count) as int),
{
    let n = rolls.len();
    let mut v: Vec<u8> = Vec::new();
    let mut k: usize = 0;
    while k < count
        invariant
            k <= count,
            start + count <= n == rolls@.len(),
            v@.len() == k,
            forall|i: int| 0 <= i < k ==> v@[i] == rolls@[start + i],
        decreases count - k,
    {
        v.push(rolls[start + k]);
        k = k + 1;
    }
    proof {
        assert(v@ =~= rolls@.subrange(start as int, (start + count) as int));
    }
    v
}

/// Replays one battle from a pre-drawn sequence of rolls, consuming it
/// from the front, and returns the final armies — or `None` if the rolls
/// run out before a side is wiped out. The outcome equals
/// `battle_from_rolls` on the inputs, so it is a function of the initial
/// armies and the rolls alone: two replays of the same rolls end the same
/// way.
pub fn battle_trial_from_rolls(attacker: usize, defender: usize, rolls: &Vec<u8>) -> (r: Option<
    (usize, usize),
>)
    ensures
        (match r {
            Some(x) => battle_from_rolls(attacker as nat, defender as nat, rolls@) == Some(
                ((x.0 as nat), (x.1 as nat)),
            ),
            None => battle_from_rolls(attacker as nat, defender as nat, rolls@) is None,
        }),
{
    let mut a = attacker;
    let mut d = defender;
    let mut cur: usize = 0;
    proof {
        assert(rolls@.skip(0) =~= rolls@);
    }
    while a > 0 && d > 0
        invariant
            a <= attacker,
            d <= defender,
            cur <= rolls@.len(),
            battle_from_rolls(attacker as nat, defender as nat, rolls@) == battle_from_rolls(
                a as nat,
                d as nat,
                rolls@.skip(cur as int),
            ),
        decreases a + d,
    {
        let ap = if a < 3 {
            a
        } else {
            3
        };
        let dp = if d < 2 {
            d
        } else {
            2
        };
        let ghost tail: Seq<u8> = rolls@.skip(cur as int);
        if rolls.len() - cur < ap + dp {
            return None;
        }
        let apool = copy_pool(rolls, cur, ap);
        let dpool = copy_pool(rolls, cur + ap, dp);
        proof {
            assert(apool@ =~= tail.subrange(0, ap as int));
            assert(dpool@ =~= tail.subrange(ap as int, (ap + dp) as int));
        }
        let ghost a0: Seq<u8> = apool@;
        let ghost d0: Seq<u8> = dpool@;
        let rr = resolve_round(apool, dpool);
        proof {
            lemma_round_conservation(a0, d0);
        }
        let next = apply_losses(a, d, rr.0, rr.1);
        proof {
            assert(tail.skip((ap + dp) as int) =~= rolls@.skip((cur + ap + dp) as int));
        }
        a = next.0;
        d = next.1;
        cur = cur + ap + dp;
    }
    Some((a, d))
}

/// Runs `trials` independent battles from the same initial configuration
/// and counts attacker victories: battles after which attackers remain
/// standing. An empty attacking army never wins; a non-empty attacker
/// facing an already-empty defence wins every trial.
pub fn simulate_battle(
    attacker: usize,
    defender: usize,
    trials: usize,
    rng: &mut DiceRng,
) -> (wins: usize)
    ensures
        wins <= trials,
        attacker == 0 ==> wins == 0,
        attacker > 0 && defender == 0 ==> wins == trials,
{
    let mut wins: usize = 0;
    let mut t: usize = 0;
    while t < trials
        invariant
            t <= trials,
            wins <= t,
            attacker == 0 ==> wins == 0,
            attacker > 0 && defender == 0 ==> wins == t,
        decreases trials - t,
    {
        let r = battle_trial(attacker, defender, rng);
        if r.0 > 0 {
            wins = wins + 1;
        }
        t = t + 1;
    }
    wins
}

} // verus!
