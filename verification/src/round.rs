use vstd::prelude::*;

use crate::rng::{thread_roll, DiceRng};
use crate::valid_die;
use rayon::iter::{IntoParallelIterator, ParallelIterator};
use vstd::relations::{sorted_by, total_ordering};
use vstd::seq_lib::lemma_sorted_unique;

verus! {

/// Descending order on die faces, phrased as the `leq` relation that puts
/// `x` before `y` when `x >= y`.
pub open spec fn dsc() -> spec_fn(u8, u8) -> bool {
    |x: u8, y: u8| x >= y
}

pub proof fn lemma_dsc_total_ordering()
    ensures
        total_ordering(dsc()),
{
    assert forall|x: u8| #[trigger] dsc()(x, x) by {}
}

/// A dice pool rearranged into descending order.
pub open spec fn sort_dsc(s: Seq<u8>) -> Seq<u8> {
    s.sort_by(dsc())
}

pub proof fn lemma_sort_dsc_ensures(s: Seq<u8>)
    ensures
        sort_dsc(s).len() == s.len(),
        sort_dsc(s).to_multiset() == s.to_multiset(),
        sorted_by(sort_dsc(s), dsc()),
{
    lemma_dsc_total_ordering();
    s.lemma_sort_by_ensures(dsc());
    broadcast use vstd::seq_lib::group_to_multiset_ensures;

    assert(s.to_multiset() =~= sort_dsc(s).to_multiset());
    assert(s.to_multiset().len() == s.len());
    assert(sort_dsc(s).to_multiset().len() == sort_dsc(s).len());
}

/// The number of paired positions when pools of these lengths meet:
/// one position per die of the smaller pool.
pub open spec fn paired(a: Seq<u8>, d: Seq<u8>) -> nat {
    if a.len() <= d.len() {
        a.len()
    } else {
        d.len()
    }
}

/// How many of the first `n` paired positions go to the attacker:
/// position `i` is an attacker win exactly when `a[i] > d[i]`
/// (a tie goes to the defender).
pub open spec fn wins_upto(a: Seq<u8>, d: Seq<u8>, n: int) -> nat
    decreases n,
{
    if n <= 0 {
        0
    } else {
        wins_upto(a, d, n - 1) + (if a[n - 1] > d[n - 1] {
            1nat
        } else {
            0nat
        })
    }
}

pub proof fn lemma_wins_upto_le(a: Seq<u8>, d: Seq<u8>, n: int)
    requires
        n >= 0,
    ensures
        wins_upto(a, d, n) <= n,
    decreases n,
{
    if n > 0 {
        lemma_wins_upto_le(a, d, n - 1);
    }
}

/// Positions the attacker takes in one resolution step: both pools are
/// sorted descending, then compared pairwise over the paired positions.
pub open spec fn attacker_round_wins(a: Seq<u8>, d: Seq<u8>) -> nat {
    wins_upto(sort_dsc(a), sort_dsc(d), paired(a, d) as int)
}

/// Positions the defender takes in the same step: every paired position the
/// attacker did not take.
pub open spec fn defender_round_wins(a: Seq<u8>, d: Seq<u8>) -> nat {
    (paired(a, d) - attacker_round_wins(a, d)) as nat
}

/// Law: every paired position is resolved exactly once. The two sides'
/// wins always sum to `min(a.len(), d.len())`, and neither side alone can
/// exceed that bound.
pub proof fn lemma_round_conservation(a: Seq<u8>, d: Seq<u8>)
    ensures
        attacker_round_wins(a, d) + defender_round_wins(a, d) == paired(a, d),
        attacker_round_wins(a, d) <= paired(a, d),
        defender_round_wins(a, d) <= paired(a, d),
{
    lemma_wins_upto_le(sort_dsc(a), sort_dsc(d), paired(a, d) as int);
}

/// Sorts a dice pool into descending order (insertion sort).
pub fn sort_pool(v: &mut Vec<u8>)
    ensures
        final(v)@ == sort_dsc(old(v)@),
{
    broadcast use vstd::seq_lib::to_multiset_update;

    let ghost orig: Seq<u8> = v@;
    let mut i: usize = 1;
    while i < v.len()
        invariant
            1 <= i,
            v@.len() == orig.len(),
            v@.to_multiset() == orig.to_multiset(),
            forall|k: int, l: int| 0 <= k < l < i && l < v@.len() ==> v@[k] >= v@[l],
        decreases v@.len() - i,
    {
        let mut j: usize = i;
        while j > 0 && v[j - 1] < v[j]
            invariant
                j <= i < v@.len(),
                v@.len() == orig.len(),
                v@.to_multiset() == orig.to_multiset(),
                forall|k: int, l: int| 0 <= k < l <= i && l != j ==> v@[k] >= v@[l],
            decreases j,
        {
            let ghost before: Seq<u8> = v@;
            let x = v[j - 1];
            let y = v[j];
            v.set(j - 1, y);
            v.set(j, x);
            proof {
                broadcast use vstd::multiset::group_multiset_axioms;
                broadcast use vstd::seq_lib::group_to_multiset_ensures;

                let b = before;
                let ji = j as int;
                let u = b.update(ji - 1, b[ji]);
                assert(v@ == u.update(ji, b[ji - 1]));
                assert(u.to_multiset() == b.to_multiset().insert(b[ji]).remove(b[ji - 1]));
                assert(v@.to_multiset() == u.to_multiset().insert(b[ji - 1]).remove(u[ji]));
                assert(b.contains(b[ji - 1])) by {
                    assert(0 <= ji - 1 < b.len());
                }
                assert(b.to_multiset().count(b[ji - 1]) > 0);
                assert(v@.to_multiset() =~= b.to_multiset());
            }
            j = j - 1;
        }
        i = i + 1;
    }
    proof {
        assert(sorted_by(v@, dsc()));
        lemma_sort_dsc_ensures(orig);
        lemma_dsc_total_ordering();
        lemma_sorted_unique(v@, sort_dsc(orig), dsc());
        assert(v@ =~= sort_dsc(orig));
    }
}

/// Counts the paired positions where the attacker's die strictly beats the
/// defender's.
pub fn count_attacker_wins(a: &Vec<u8>, d: &Vec<u8>) -> (w: usize)
    ensures
        w == wins_upto(a@, d@, paired(a@, d@) as int),
        w <= paired(a@, d@),
{
    let n = if a.len() <= d.len() {
        a.len()
    } else {
        d.len()
    };
    let mut w: usize = 0;
    let mut i: usize = 0;
    while i < n
        invariant
            n == paired(a@, d@),
            n <= a@.len(),
            n <= d@.len(),
            i <= n,
            w == wins_upto(a@, d@, i as int),
            w <= i,
        decreases n - i,
    {
        if a[i] > d[i] {
            w = w + 1;
        }
        i = i + 1;
    }
    w
}

/// One combat resolution step on two freshly rolled pools: sort both
/// descending, then award each paired position to the strictly higher die,
/// ties to the defender. Returns `(attacker wins, defender wins)`.
pub fn resolve_round(attacker: Vec<u8>, defender: Vec<u8>) -> (r: (usize, usize))
    ensures
        r.0 == attacker_round_wins(attacker@, defender@),
        r.1 == defender_round_wins(attacker@, defender@),
        r.0 + r.1 == paired(attacker@, defender@),
{
    let mut a = attacker;
    let mut d = defender;
    let ghost a0: Seq<u8> = a@;
    let ghost d0: Seq<u8> = d@;
    proof {
        lemma_sort_dsc_ensures(a0);
        lemma_sort_dsc_ensures(d0);
    }
    sort_pool(&mut a);
    sort_pool(&mut d);
    let w = count_attacker_wins(&a, &d);
    let n = if a.len() <= d.len() {
        a.len()
    } else {
        d.len()
    };
    proof {
        lemma_round_conservation(a0, d0);
    }
    (w, n - w)
}

/// The number of contested positions when pools of these sizes meet.
pub open spec fn contested(a: usize, d: usize) -> usize {
    if a <= d {
        a
    } else {
        d
    }
}

/// A pool of `n` freshly rolled dice, drawn from the given source.
pub fn roll_pool(n: usize, rng: &mut DiceRng) -> (v: Vec<u8>)
    ensures
        v@.len() == n,
        forall|i: int| 0 <= i < n ==> valid_die(#[trigger] v@[i]),
{
    let mut v: Vec<u8> = Vec::new();
    let mut k: usize = 0;
    while k < n
        invariant
            k <= n,
            v@.len() == k,
            forall|i: int| 0 <= i < k ==> valid_die(#[trigger] v@[i]),
        decreases n - k,
    {
        let x = rng.roll();
        v.push(x);
        k = k + 1;
    }
    v
}

/// A pool of `n` freshly rolled dice, drawn from the calling thread's own
/// source.
pub fn roll_pool_thread(n: usize) -> (v: Vec<u8>)
    ensures
        v@.len() == n,
        forall|i: int| 0 <= i < n ==> valid_die(#[trigger] v@[i]),
{
    let mut v: Vec<u8> = Vec::new();
    let mut k: usize = 0;
    while k < n
        invariant
            k <= n,
            v@.len() == k,
            forall|i: int| 0 <= i < k ==> valid_die(#[trigger] v@[i]),
        decreases n - k,
    {
        let x = thread_roll();
        v.push(x);
        k = k + 1;
    }
    v
}

/// One single-round trial: roll both pools from the calling thread's own
/// source and count the attacker's positions. Whatever faces come up, the
/// count never exceeds the number of contested positions.
pub fn single_round_trial(attacker_dice: usize, defender_dice: usize) -> (w: usize)
    ensures
        w <= contested(attacker_dice, defender_dice),
{
    let a = roll_pool_thread(attacker_dice);
    let d = roll_pool_thread(defender_dice);
    let ghost a0: Seq<u8> = a@;
    let ghost d0: Seq<u8> = d@;
    let r = resolve_round(a, d);
    proof {
        lemma_round_conservation(a0, d0);
    }
    r.0
}

/// Runs `trials` independent single-round trials, drawing from the given
/// source, and sums the attacker's position wins over all trials.
pub fn simulate_single_round(
    attacker_dice: usize,
    defender_dice: usize,
    trials: usize,
    rng: &mut DiceRng,
) -> (wins: usize)
    requires
        trials * contested(attacker_dice, defender_dice) <= usize::MAX,
    ensures
        wins <= trials * contested(attacker_dice, defender_dice),
{
    let ghost c: int = contested(attacker_dice, defender_dice) as int;
    let mut wins: usize = 0;
    let mut t: usize = 0;
    while t < trials
        invariant
            t <= trials,
            trials * c <= usize::MAX,
            c == contested(attacker_dice, defender_dice) as int,
            wins <= t * c,
        decreases trials - t,
    {
        let a = roll_pool(attacker_dice, rng);
        let d = roll_pool(defender_dice, rng);
        let ghost a0: Seq<u8> = a@;
        let ghost d0: Seq<u8> = d@;
        let r = resolve_round(a, d);
        proof {
            lemma_round_conservation(a0, d0);
            assert((t + 1) * c == t * c + c) by (nonlinear_arith);
            vstd::arithmetic::mul::lemma_mul_inequality(t as int + 1, trials as int, c);
        }
        wins = wins + r.0;
        t = t + 1;
    }
    wins
}

/// Relies on rayon's parallel iterator: `map` runs `single_round_trial`
/// once per trial and `sum` adds the outcomes, each counted exactly once,
/// so the total obeys the per-trial bound `trials` times over.
#[verifier::external_body]
fn sum_trials_parallel(attacker_dice: usize, defender_dice: usize, trials: usize) -> (wins: usize)
    requires
        trials * contested(attacker_dice, defender_dice) <= usize::MAX,
    ensures
        wins <= trials * contested(attacker_dice, defender_dice),
{
    (0..trials).into_par_iter().map(|_| single_round_trial(attacker_dice, defender_dice)).sum()
}

/// Runs `trials` independent single-round trials across a thread pool, each
/// trial drawing from its own thread's source, and sums the attacker's
/// position wins over all trials.
pub fn simulate_single_round_parallel(
    attacker_dice: usize,
    defender_dice: usize,
    trials: usize,
) -> (wins: usize)
    requires
        trials * contested(attacker_dice, defender_dice) <= usize::MAX,
    ensures
        wins <= trials * contested(attacker_dice, defender_dice),
{
    sum_trials_parallel(attacker_dice, defender_dice, trials)
}

} // verus!
