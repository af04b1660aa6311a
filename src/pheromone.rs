use vstd::prelude::*;

use crate::ant::DishCount;
use crate::fitness::FITNESS_SCALE;

verus! {

/// Pheromone weights are fixed-point numbers: a weight of `w` is stored as
/// `w * PHEROMONE_UNIT`. Every weight starts at one unit.
pub const PHEROMONE_UNIT: u64 = 1_000_000;

/// `1 / fitness` in pheromone units, for a fitness in fixed point.
pub const DEPOSIT_NUMERATOR: u64 = PHEROMONE_UNIT * FITNESS_SCALE;

/// The weight `w` after evaporation: `w * num / den`, rounded down.
pub open spec fn evaporated(w: u64, num: u64, den: u64) -> int {
    (w as int) * (num as int) / (den as int)
}

/// `x` capped at `u64::MAX`.
pub open spec fn capped(x: int) -> int {
    if x > u64::MAX { u64::MAX as int } else { x }
}

/// The path has an entry for dish `d`.
pub open spec fn on_path(path: Seq<DishCount>, d: int) -> bool {
    exists|k: int| 0 <= k < path.len() && (#[trigger] path[k]).dish == d
}

/// No dish has two entries in the path.
pub open spec fn distinct_dishes(path: Seq<DishCount>) -> bool {
    forall|k: int, l: int|
        #![trigger path[k], path[l]]
        0 <= k < path.len() && 0 <= l < path.len() && k != l ==> path[k].dish != path[l].dish
}

/// Multiplies every weight by the retention factor `num / den`.
pub fn evaporate(weights: &mut Vec<u64>, num: u64, den: u64)
    requires
        den > 0,
        num <= den,
    ensures
        final(weights)@.len() == old(weights)@.len(),
        forall|i: int| 0 <= i < old(weights)@.len()
            ==> #[trigger] final(weights)@[i] == evaporated(old(weights)@[i], num, den),
{
    let ghost before = weights@;
    let mut i: usize = 0;
    while i < weights.len()
        invariant
            den > 0,
            num <= den,
            weights@.len() == before.len(),
            i <= weights@.len(),
            forall|j: int| 0 <= j < i ==> #[trigger] weights@[j] == evaporated(before[j], num, den),
            forall|j: int| i <= j < weights@.len() ==> #[trigger] weights@[j] == before[j],
        decreases weights@.len() - i,
    {
        let w = weights[i];
        assert(w as int * num as int <= u64::MAX as int * u64::MAX as int) by (nonlinear_arith)
            requires w <= u64::MAX, num <= u64::MAX;
        let product = w as u128 * num as u128;
        proof {
            assert(w as int * num as int <= w as int * den as int) by (nonlinear_arith)
                requires num <= den;
            vstd::arithmetic::div_mod::lemma_div_is_ordered(w as int * num as int, w as int * den as int, den as int);
            vstd::arithmetic::div_mod::lemma_div_multiples_vanish(w as int, den as int);
            assert(w as int * den as int == den as int * w as int) by (nonlinear_arith);
            vstd::arithmetic::div_mod::lemma_div_pos_is_pos(w as int * num as int, den as int);
        }
        weights[i] = (product / den as u128) as u64;
        i += 1;
    }
}

/// The pheromone that one diet of positive fitness `cost` lays on each of its
/// dishes: `1 / fitness`, in pheromone units.
pub fn deposit_amount(cost: i128) -> (r: u64)
    requires
        cost > 0,
    ensures
        r == DEPOSIT_NUMERATOR as int / cost as int,
{
    proof {
        vstd::arithmetic::div_mod::lemma_div_is_ordered_by_denominator(DEPOSIT_NUMERATOR as int, 1, cost as int);
        vstd::arithmetic::div_mod::lemma_div_pos_is_pos(DEPOSIT_NUMERATOR as int, cost as int);
    }
    (DEPOSIT_NUMERATOR as i128 / cost) as u64
}

/// Adds `amount` to the weight of each dish of `path`, once per dish whatever
/// its servings, saturating at `u64::MAX`.
pub fn lay(weights: &mut Vec<u64>, path: &Vec<DishCount>, amount: u64)
    requires
        distinct_dishes(path@),
        forall|k: int| 0 <= k < path@.len() ==> (#[trigger] path@[k]).dish < old(weights)@.len(),
    ensures
        final(weights)@.len() == old(weights)@.len(),
        forall|i: int| 0 <= i < old(weights)@.len() ==> #[trigger] final(weights)@[i] == if on_path(path@, i) {
            capped(old(weights)@[i] + amount)
        } else {
            old(weights)@[i] as int
        },
{
    let ghost before = weights@;
    let mut k: usize = 0;
    while k < path.len()
        invariant
            distinct_dishes(path@),
            forall|j: int| 0 <= j < path@.len() ==> (#[trigger] path@[j]).dish < before.len(),
            weights@.len() == before.len(),
            k <= path@.len(),
            forall|i: int| 0 <= i < before.len() ==> #[trigger] weights@[i] == if on_path(path@.take(k as int), i) {
                capped(before[i] + amount)
            } else {
                before[i] as int
            },
        decreases path@.len() - k,
    {
        let d = path[k].dish;
        proof {
            assert(!on_path(path@.take(k as int), d as int)) by {
                if on_path(path@.take(k as int), d as int) {
                    let j = choose|j: int| 0 <= j < k && (#[trigger] path@.take(k as int)[j]).dish == d;
                    assert(path@[j] == path@.take(k as int)[j]);
                    assert(path@[k as int].dish != path@[j].dish);
                }
            }
        }
        weights[d] = weights[d].saturating_add(amount);
        proof {
            let t1 = path@.take(k as int + 1);
            let t0 = path@.take(k as int);
            assert forall|i: int| 0 <= i < before.len() implies #[trigger] weights@[i] == if on_path(t1, i) {
                capped(before[i] + amount)
            } else {
                before[i] as int
            } by {
                if i == d {
                    assert(t1[k as int] == path@[k as int]);
                } else {
                    if on_path(t1, i) {
                        let j = choose|j: int| 0 <= j < t1.len() && (#[trigger] t1[j]).dish == i;
                        assert(t0[j] == t1[j]);
                    }
                    if on_path(t0, i) {
                        let j = choose|j: int| 0 <= j < t0.len() && (#[trigger] t0[j]).dish == i;
                        assert(t0[j] == t1[j]);
                    }
                }
            }
        }
        k += 1;
    }
    assert(path@.take(path@.len() as int) =~= path@);
}

} // verus!
