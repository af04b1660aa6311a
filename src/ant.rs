use rand::rngs::StdRng;
use vstd::prelude::*;

use crate::dish::Dish;
use crate::fitness::{fitness, score, Settings, Totals};
use crate::random::{draw_below, seeded};

verus! {

/// So many servings of the dish at position `dish` of the catalog.
#[derive(Debug, Clone, Copy, PartialEq, Eq)]
pub struct DishCount {
    pub dish: usize,
    pub count: usize,
}

/// The sum over the entries of a path of `count * f(dish)`.
pub open spec fn path_sum(path: Seq<DishCount>, f: spec_fn(int) -> int) -> int
    decreases path.len(),
{
    if path.len() == 0 {
        0
    } else {
        path_sum(path.drop_last(), f) + path.last().count as int * f(path.last().dish as int)
    }
}

pub open spec fn unit() -> spec_fn(int) -> int {
    |d: int| 1int
}

pub open spec fn indicator(e: int) -> spec_fn(int) -> int {
    |d: int| if d == e { 1int } else { 0int }
}

pub open spec fn prices(c: Seq<Dish>) -> spec_fn(int) -> int {
    |d: int| c[d].price as int
}

pub open spec fn calories(c: Seq<Dish>) -> spec_fn(int) -> int {
    |d: int| c[d].calories as int
}

pub open spec fn carbs(c: Seq<Dish>) -> spec_fn(int) -> int {
    |d: int| c[d].carbs as int
}

pub open spec fn fats(c: Seq<Dish>) -> spec_fn(int) -> int {
    |d: int| c[d].fats as int
}

pub open spec fn proteins(c: Seq<Dish>) -> spec_fn(int) -> int {
    |d: int| c[d].proteins as int
}

/// How many servings of dish `d` a path holds.
pub open spec fn servings(path: Seq<DishCount>, d: int) -> int {
    path_sum(path, indicator(d))
}

/// How many selections made a path: the servings of all dishes together.
pub open spec fn step_count(path: Seq<DishCount>) -> int {
    path_sum(path, unit())
}

/// `t` holds the price and nutrition of the servings of `path`.
pub open spec fn totals_of(t: Totals, path: Seq<DishCount>, c: Seq<Dish>) -> bool {
    &&& t.price == path_sum(path, prices(c))
    &&& t.calories == path_sum(path, calories(c))
    &&& t.carbs == path_sum(path, carbs(c))
    &&& t.fats == path_sum(path, fats(c))
    &&& t.proteins == path_sum(path, proteins(c))
}

/// Dish `d` may be chosen once more: it has fewer than `cap` servings.
pub open spec fn eligible(path: Seq<DishCount>, d: int, cap: int) -> bool {
    servings(path, d) < cap
}

/// Each entry names a dish of a catalog of `n` dishes, with between one and
/// `cap` servings, and no dish has two entries.
pub open spec fn path_ok(path: Seq<DishCount>, n: int, cap: int) -> bool {
    &&& forall|k: int| 0 <= k < path.len() ==> (#[trigger] path[k]).dish < n && 1 <= path[k].count <= cap
    &&& forall|k: int, l: int|
        #![trigger path[k], path[l]]
        0 <= k < path.len() && 0 <= l < path.len() && k != l ==> path[k].dish != path[l].dish
}

/// A catalog and settings under which ants can build diets.
pub open spec fn setup_ok(c: Seq<Dish>, s: Settings) -> bool {
    &&& s.valid()
    &&& c.len() > 0
    &&& c.len() * s.max_servings <= u32::MAX
}

pub proof fn lemma_path_sum_push(path: Seq<DishCount>, e: DishCount, f: spec_fn(int) -> int)
    ensures
        path_sum(path.push(e), f) == path_sum(path, f) + e.count as int * f(e.dish as int),
{
    assert(path.push(e).drop_last() =~= path);
}

pub proof fn lemma_path_sum_update(path: Seq<DishCount>, k: int, e: DishCount, f: spec_fn(int) -> int)
    requires
        0 <= k < path.len(),
    ensures
        path_sum(path.update(k, e), f) == path_sum(path, f) - path[k].count as int * f(path[k].dish as int)
            + e.count as int * f(e.dish as int),
    decreases path.len(),
{
    let u = path.update(k, e);
    if k == path.len() - 1 {
        assert(u.drop_last() =~= path.drop_last());
    } else {
        assert(u.drop_last() =~= path.drop_last().update(k, e));
        lemma_path_sum_update(path.drop_last(), k, e, f);
    }
}

/// One more serving of the dish of entry `k` adds that dish's value once.
pub proof fn lemma_path_sum_increment(path: Seq<DishCount>, k: int, f: spec_fn(int) -> int)
    requires
        0 <= k < path.len(),
        path[k].count < usize::MAX,
    ensures
        path_sum(path.update(k, DishCount { dish: path[k].dish, count: (path[k].count + 1) as usize }), f)
            == path_sum(path, f) + f(path[k].dish as int),
{
    let e = DishCount { dish: path[k].dish, count: (path[k].count + 1) as usize };
    lemma_path_sum_update(path, k, e, f);
    let c = path[k].count as int;
    let v = f(path[k].dish as int);
    assert((c + 1) * v == c * v + v) by (nonlinear_arith);
}

pub proof fn lemma_servings_absent(path: Seq<DishCount>, d: int)
    requires
        forall|k: int| 0 <= k < path.len() ==> (#[trigger] path[k]).dish != d,
    ensures
        servings(path, d) == 0,
    decreases path.len(),
{
    if path.len() > 0 {
        let p = path.drop_last();
        assert forall|k: int| 0 <= k < p.len() implies (#[trigger] p[k]).dish != d by {
            assert(p[k] == path[k]);
        }
        lemma_servings_absent(p, d);
        assert(path.last() == path[path.len() - 1]);
        assert(indicator(d)(path.last().dish as int) == 0);
    }
}

pub proof fn lemma_servings_at(path: Seq<DishCount>, n: int, cap: int, k: int)
    requires
        path_ok(path, n, cap),
        0 <= k < path.len(),
    ensures
        servings(path, path[k].dish as int) == path[k].count,
    decreases path.len(),
{
    let d = path[k].dish as int;
    let p = path.drop_last();
    assert(path.last() == path[path.len() - 1]);
    assert(servings(path, d) == servings(p, d) + path.last().count * indicator(d)(path.last().dish as int));
    if k == path.len() - 1 {
        assert forall|j: int| 0 <= j < p.len() implies (#[trigger] p[j]).dish != d by {
            assert(p[j] == path[j]);
        }
        lemma_servings_absent(p, d);
        assert(indicator(d)(d) == 1);
    } else {
        assert(path_ok(p, n, cap)) by {
            assert forall|j: int| 0 <= j < p.len() implies #[trigger] p[j] == path[j] by {}
        }
        assert(p[k] == path[k]);
        lemma_servings_at(p, n, cap, k);
        assert(path[path.len() - 1].dish != path[k].dish);
        assert(indicator(d)(path.last().dish as int) == 0);
        let c = path.last().count as int;
        let v = indicator(d)(path.last().dish as int);
        assert(c * v == 0) by (nonlinear_arith)
            requires v == 0;
    }
}

/// Under a bound `m` on `f`, the sum over a path is at most `m` per selection.
pub proof fn lemma_path_sum_bounded(path: Seq<DishCount>, f: spec_fn(int) -> int, m: int)
    requires
        forall|d: int| 0 <= #[trigger] f(d) <= m,
    ensures
        0 <= path_sum(path, f) <= m * step_count(path),
    decreases path.len(),
{
    if path.len() > 0 {
        let p = path.drop_last();
        lemma_path_sum_bounded(p, f, m);
        let c = path.last().count as int;
        let v = f(path.last().dish as int);
        assert(0 <= c * v <= c * m) by (nonlinear_arith)
            requires 0 <= c, 0 <= v <= m;
        assert(m * step_count(path) == m * step_count(p) + c * m) by (nonlinear_arith)
            requires step_count(path) == step_count(p) + c * 1;
    }
}

/// The servings of the dishes below `m`, added up.
pub open spec fn dish_sum(path: Seq<DishCount>, m: int) -> int
    decreases m,
{
    if m <= 0 {
        0
    } else {
        dish_sum(path, m - 1) + servings(path, m - 1)
    }
}

proof fn lemma_dish_sum_split(path: Seq<DishCount>, m: int)
    requires
        path.len() > 0,
        m >= 0,
    ensures
        dish_sum(path, m) == dish_sum(path.drop_last(), m) + (if path.last().dish < m {
            path.last().count as int
        } else {
            0
        }),
    decreases m,
{
    if m > 0 {
        lemma_dish_sum_split(path, m - 1);
    }
}

proof fn lemma_dish_sum_empty(path: Seq<DishCount>, m: int)
    requires
        path.len() == 0,
    ensures
        dish_sum(path, m) == 0,
    decreases m,
{
    if m > 0 {
        lemma_dish_sum_empty(path, m - 1);
    }
}

proof fn lemma_dish_sum_total(path: Seq<DishCount>, n: int)
    requires
        n >= 0,
        forall|k: int| 0 <= k < path.len() ==> (#[trigger] path[k]).dish < n,
    ensures
        dish_sum(path, n) == step_count(path),
    decreases path.len(),
{
    if path.len() > 0 {
        let p = path.drop_last();
        assert forall|k: int| 0 <= k < p.len() implies (#[trigger] p[k]).dish < n by {
            assert(p[k] == path[k]);
        }
        lemma_dish_sum_total(p, n);
        lemma_dish_sum_split(path, n);
        assert(path.last() == path[path.len() - 1]);
        assert(unit()(path.last().dish as int) == 1);
    } else {
        lemma_dish_sum_empty(path, n);
    }
}

proof fn lemma_dish_sum_lower(path: Seq<DishCount>, m: int, cap: int)
    requires
        m >= 0,
        forall|d: int| 0 <= d < m ==> #[trigger] servings(path, d) >= cap,
    ensures
        dish_sum(path, m) >= m * cap,
    decreases m,
{
    if m > 0 {
        lemma_dish_sum_lower(path, m - 1, cap);
        assert(servings(path, m - 1) >= cap);
        assert(dish_sum(path, m) == dish_sum(path, m - 1) + servings(path, m - 1));
        assert(m * cap == (m - 1) * cap + cap) by (nonlinear_arith);
    } else {
        assert(dish_sum(path, m) == 0);
        assert(m * cap == 0);
    }
}

/// While fewer than `n * cap` selections were made, some dish is eligible.
pub proof fn lemma_some_eligible(path: Seq<DishCount>, n: int, cap: int)
    requires
        n >= 0,
        path_ok(path, n, cap),
        step_count(path) < n * cap,
    ensures
        exists|d: int| 0 <= d < n && #[trigger] eligible(path, d, cap),
{
    if forall|d: int| 0 <= d < n ==> !#[trigger] eligible(path, d, cap) {
        assert forall|d: int| 0 <= d < n implies #[trigger] servings(path, d) >= cap by {
            assert(!eligible(path, d, cap));
        }
        lemma_dish_sum_lower(path, n, cap);
        lemma_dish_sum_total(path, n);
    }
}

/// The position of the entry for dish `d`, if the path has one.
fn find_entry(path: &Vec<DishCount>, d: usize) -> (r: Option<usize>)
    ensures
        r matches Some(k) ==> k < path@.len() && path@[k as int].dish == d,
        r is None ==> forall|k: int| 0 <= k < path@.len() ==> (#[trigger] path@[k]).dish != d,
{
    let mut k: usize = 0;
    while k < path.len()
        invariant
            k <= path@.len(),
            forall|j: int| 0 <= j < k ==> (#[trigger] path@[j]).dish != d,
        decreases path@.len() - k,
    {
        if path[k].dish == d {
            return Some(k);
        }
        k += 1;
    }
    None
}

/// The servings of dish `d` in `path`.
fn servings_in(path: &Vec<DishCount>, d: usize, n: Ghost<int>, cap: Ghost<int>) -> (r: usize)
    requires
        path_ok(path@, n@, cap@),
    ensures
        r == servings(path@, d as int),
{
    match find_entry(path, d) {
        Some(k) => {
            proof {
                lemma_servings_at(path@, n@, cap@, k as int);
            }
            path[k].count
        },
        None => {
            proof {
                lemma_servings_absent(path@, d as int);
            }
            0
        },
    }
}

/// The pheromone weight of the eligible dishes below `i`.
pub open spec fn eligible_weight(path: Seq<DishCount>, w: Seq<u64>, cap: int, i: int) -> int
    decreases i,
{
    if i <= 0 {
        0
    } else {
        eligible_weight(path, w, cap, i - 1) + (if eligible(path, i - 1, cap) {
            w[i - 1] as int
        } else {
            0
        })
    }
}

/// How many dishes below `i` are eligible.
pub open spec fn eligible_count(path: Seq<DishCount>, cap: int, i: int) -> int
    decreases i,
{
    if i <= 0 {
        0
    } else {
        eligible_count(path, cap, i - 1) + (if eligible(path, i - 1, cap) {
            1int
        } else {
            0
        })
    }
}

proof fn lemma_eligible_weight_monotone(path: Seq<DishCount>, w: Seq<u64>, cap: int, i: int, j: int)
    requires
        0 <= i <= j,
    ensures
        eligible_weight(path, w, cap, i) <= eligible_weight(path, w, cap, j),
    decreases j - i,
{
    if i < j {
        lemma_eligible_weight_monotone(path, w, cap, i, j - 1);
    }
}

proof fn lemma_eligible_count_monotone(path: Seq<DishCount>, cap: int, i: int, j: int)
    requires
        0 <= i <= j,
    ensures
        eligible_count(path, cap, i) <= eligible_count(path, cap, j),
    decreases j - i,
{
    if i < j {
        lemma_eligible_count_monotone(path, cap, i, j - 1);
    }
}

/// The draw that `pick_dish` needs: below the eligible weight, or, where that
/// is zero, below the number of eligible dishes.
pub open spec fn draw_ok(path: Seq<DishCount>, w: Seq<u64>, cap: int, draw: int) -> bool {
    let n = w.len() as int;
    if eligible_weight(path, w, cap, n) > 0 {
        draw < eligible_weight(path, w, cap, n)
    } else {
        draw < eligible_count(path, cap, n)
    }
}

/// The dish that a draw selects. With positive eligible weight it is the
/// roulette-wheel choice: the eligible dish whose slice of the wheel holds the
/// draw. With none, every eligible dish has the same chance: it is the
/// eligible dish with `draw` eligible dishes before it.
pub open spec fn picked(path: Seq<DishCount>, w: Seq<u64>, cap: int, draw: int, d: int) -> bool {
    let n = w.len() as int;
    &&& 0 <= d < n
    &&& eligible(path, d, cap)
    &&& eligible_weight(path, w, cap, n) > 0 ==> eligible_weight(path, w, cap, d) <= draw
        < eligible_weight(path, w, cap, d + 1)
    &&& eligible_weight(path, w, cap, n) == 0 ==> eligible_count(path, cap, d) == draw
}

/// No two dishes are picked by one draw.
pub proof fn lemma_picked_unique(path: Seq<DishCount>, w: Seq<u64>, cap: int, draw: int, d: int, e: int)
    requires
        picked(path, w, cap, draw, d),
        picked(path, w, cap, draw, e),
    ensures
        d == e,
{
    let n = w.len() as int;
    if d != e {
        let (lo, hi) = if d < e { (d, e) } else { (e, d) };
        lemma_eligible_weight_monotone(path, w, cap, 0, n);
        if eligible_weight(path, w, cap, n) > 0 {
            lemma_eligible_weight_monotone(path, w, cap, lo + 1, hi);
        } else {
            lemma_eligible_count_monotone(path, cap, lo + 1, hi);
            assert(eligible_count(path, cap, lo + 1) == eligible_count(path, cap, lo) + 1);
        }
    }
}

/// Where every weight is zero, a draw picks the eligible dish with `draw`
/// eligible dishes before it: each eligible dish has the same chance.
pub proof fn lemma_zero_weights_uniform(path: Seq<DishCount>, w: Seq<u64>, cap: int, draw: int, d: int)
    requires
        forall|i: int| 0 <= i < w.len() ==> #[trigger] w[i] == 0,
        picked(path, w, cap, draw, d),
    ensures
        eligible_count(path, cap, d) == draw,
{
    lemma_eligible_weight_zero(path, w, cap, w.len() as int);
}

proof fn lemma_eligible_weight_zero(path: Seq<DishCount>, w: Seq<u64>, cap: int, i: int)
    requires
        forall|j: int| 0 <= j < w.len() ==> #[trigger] w[j] == 0,
        i <= w.len(),
    ensures
        eligible_weight(path, w, cap, i) == 0,
    decreases i,
{
    if i > 0 {
        lemma_eligible_weight_zero(path, w, cap, i - 1);
    }
}

/// The total weight of the eligible dishes.
fn eligible_total(path: &Vec<DishCount>, weights: &Vec<u64>, cap: usize, n: Ghost<int>) -> (r: u128)
    requires
        path_ok(path@, n@, cap as int),
        weights@.len() <= u32::MAX,
    ensures
        r == eligible_weight(path@, weights@, cap as int, weights@.len() as int),
{
    let mut total: u128 = 0;
    let mut i: usize = 0;
    while i < weights.len()
        invariant
            path_ok(path@, n@, cap as int),
            weights@.len() <= u32::MAX,
            i <= weights@.len(),
            total == eligible_weight(path@, weights@, cap as int, i as int),
            total <= i * 0xffff_ffff_ffff_ffffu128,
        decreases weights@.len() - i,
    {
        if servings_in(path, i, n, Ghost(cap as int)) < cap {
            assert((i + 1) * 0xffff_ffff_ffff_ffffu128 == i * 0xffff_ffff_ffff_ffffu128 + 0xffff_ffff_ffff_ffffu128) by (nonlinear_arith);
            assert(i * 0xffff_ffff_ffff_ffffu128 <= 0xffff_ffff * 0xffff_ffff_ffff_ffffu128) by (nonlinear_arith)
                requires i < 0xffff_ffff;
            total = total + weights[i] as u128;
        }
        assert((i + 1) * 0xffff_ffff_ffff_ffffu128 >= i * 0xffff_ffff_ffff_ffffu128) by (nonlinear_arith);
        i += 1;
    }
    total
}

/// How many dishes are eligible.
fn eligible_number(path: &Vec<DishCount>, n: usize, cap: usize) -> (r: usize)
    requires
        path_ok(path@, n as int, cap as int),
    ensures
        r == eligible_count(path@, cap as int, n as int),
{
    let mut count: usize = 0;
    let mut i: usize = 0;
    while i < n
        invariant
            path_ok(path@, n as int, cap as int),
            i <= n,
            count == eligible_count(path@, cap as int, i as int),
            count <= i,
        decreases n - i,
    {
        if servings_in(path, i, Ghost(n as int), Ghost(cap as int)) < cap {
            count += 1;
        }
        i += 1;
    }
    count
}

/// The dish that `draw` selects among the eligible dishes of `path`, under the
/// pheromone `weights` (see `picked`).
pub fn pick_dish(path: &Vec<DishCount>, weights: &Vec<u64>, cap: usize, draw: u128) -> (r: usize)
    requires
        path_ok(path@, weights@.len() as int, cap as int),
        weights@.len() <= u32::MAX,
        draw_ok(path@, weights@, cap as int, draw as int),
    ensures
        picked(path@, weights@, cap as int, draw as int, r as int),
{
    let ghost n = weights@.len() as int;
    let total = eligible_total(path, weights, cap, Ghost(n));
    let mut acc: u128 = 0;
    let mut seen: u128 = 0;
    let mut i: usize = 0;
    while i < weights.len()
        invariant
            path_ok(path@, n, cap as int),
            n == weights@.len(),
            draw_ok(path@, weights@, cap as int, draw as int),
            total == eligible_weight(path@, weights@, cap as int, n),
            weights@.len() <= u32::MAX,
            i <= n,
            acc == eligible_weight(path@, weights@, cap as int, i as int),
            seen == eligible_count(path@, cap as int, i as int),
            seen <= i,
            total > 0 ==> acc <= draw,
            total == 0 ==> seen <= draw,
        decreases n - i,
    {
        if servings_in(path, i, Ghost(n), Ghost(cap as int)) < cap {
            proof {
                lemma_eligible_weight_monotone(path@, weights@, cap as int, i as int + 1, n);
                lemma_eligible_count_monotone(path@, cap as int, i as int + 1, n);
            }
            acc = acc + weights[i] as u128;
            if total > 0 {
                if draw < acc {
                    return i;
                }
            } else if draw == seen {
                return i;
            }
            seen = seen + 1;
        }
        i += 1;
    }
    proof {
        assert(false);
    }
    0
}

proof fn lemma_eligible_count_positive(path: Seq<DishCount>, cap: int, d: int, i: int)
    requires
        0 <= d < i,
        eligible(path, d, cap),
    ensures
        eligible_count(path, cap, i) >= 1,
{
    lemma_eligible_count_monotone(path, cap, 0, d);
    lemma_eligible_count_monotone(path, cap, d + 1, i);
}

/// One agent of the colony: the diet it is building, with its running totals
/// and its fitness.
#[derive(Debug, Clone)]
pub struct Ant {
    /// The chosen dishes in the order of their first choice, one entry each.
    pub path: Vec<DishCount>,
    pub totals: Totals,
    /// How many selections were made: the servings of all entries together.
    pub steps: usize,
    /// The fitness of the totals, once a dish was chosen; zero before.
    pub path_cost: i128,
}

impl Ant {
    /// The fields agree: the path is sound for the catalog `c`, and the step
    /// count, the totals and the fitness are those of the path.
    pub open spec fn wf(self, c: Seq<Dish>, s: Settings) -> bool {
        &&& path_ok(self.path@, c.len() as int, s.max_servings as int)
        &&& self.steps == step_count(self.path@)
        &&& totals_of(self.totals, self.path@, c)
        &&& self.steps > 0 ==> self.path_cost == fitness(self.totals, s)
        &&& self.steps == 0 ==> self.path_cost == 0
    }

    /// An ant that has chosen nothing yet.
    pub open spec fn is_fresh(self) -> bool {
        &&& self.path@.len() == 0
        &&& self.steps == 0
        &&& self.totals == (Totals { price: 0, calories: 0, carbs: 0, fats: 0, proteins: 0 })
        &&& self.path_cost == 0
    }

    /// A diet that construction has completed: at least one selection and at
    /// most `catalog size * cap` of them; it ended on the step bound or on a
    /// price over the limit, and the price is over the limit by at most the
    /// price of one dish.
    pub open spec fn finished(self, c: Seq<Dish>, s: Settings) -> bool {
        &&& self.wf(c, s)
        &&& 1 <= self.steps <= c.len() * s.max_servings
        &&& self.steps == c.len() * s.max_servings || self.totals.price > s.price_limit
        &&& exists|d: int| 0 <= d < c.len() && self.totals.price <= s.price_limit + (#[trigger] c[d]).price
    }

    pub fn new() -> (r: Ant)
        ensures
            r.is_fresh(),
    {
        Ant { path: Vec::new(), totals: Totals::zero(), steps: 0, path_cost: 0 }
    }

    /// Chooses the next dish at random among the eligible ones: by roulette
    /// wheel over their pheromone weights, or uniformly where those weights
    /// add up to zero.
    pub fn select_next_dish(&self, pheromone: &Vec<u64>, cap: usize, rng: &mut StdRng) -> (r: usize)
        requires
            path_ok(self.path@, pheromone@.len() as int, cap as int),
            pheromone@.len() <= u32::MAX,
            step_count(self.path@) < pheromone@.len() * cap,
        ensures
            r < pheromone@.len(),
            eligible(self.path@, r as int, cap as int),
            exists|draw: int| picked(self.path@, pheromone@, cap as int, draw, r as int),
    {
        let ghost n = pheromone@.len() as int;
        let total = eligible_total(&self.path, pheromone, cap, Ghost(n));
        let draw = if total > 0 {
            draw_below(rng, total)
        } else {
            proof {
                lemma_some_eligible(self.path@, n, cap as int);
                let d = choose|d: int| 0 <= d < n && #[trigger] eligible(self.path@, d, cap as int);
                lemma_eligible_count_positive(self.path@, cap as int, d, n);
            }
            let m = eligible_number(&self.path, pheromone.len(), cap);
            draw_below(rng, m as u128)
        };
        pick_dish(&self.path, pheromone, cap, draw)
    }

    /// Builds a diet from scratch: selects dish after dish while fewer than
    /// `catalog size * cap` selections were made and the price is within the
    /// limit, and rescores the diet after each selection.
    pub fn construct_path(&mut self, dishes: &Vec<Dish>, pheromone: &Vec<u64>, s: &Settings, rng: &mut StdRng)
        requires
            old(self).is_fresh(),
            setup_ok(dishes@, *s),
            pheromone@.len() == dishes@.len(),
        ensures
            final(self).finished(dishes@, *s),
    {
        let ghost c = dishes@;
        let ghost n = dishes@.len() as int;
        let ghost cap = s.max_servings as int;
        let limit = dishes.len() * s.max_servings;
        let ghost mut last: int = 0;
        assert(n <= u32::MAX && limit >= 1) by (nonlinear_arith)
            requires n >= 1, cap >= 1, n * cap <= u32::MAX, limit == n * cap;
        while self.steps < limit && self.totals.price <= s.price_limit
            invariant
                setup_ok(c, *s),
                c == dishes@,
                n == c.len(),
                cap == s.max_servings,
                pheromone@.len() == n,
                limit == n * cap,
                self.wf(c, *s),
                self.steps <= limit,
                n <= u32::MAX,
                limit >= 1,
                self.steps == 0 ==> self.totals.price == 0,
                self.steps > 0 ==> 0 <= last < n && self.totals.price <= s.price_limit + c[last].price,
            decreases limit - self.steps,
        {
            let next = self.select_next_dish(pheromone, s.max_servings, rng);
            let ghost prev = self.path@;
            proof {
                assert(unit()(next as int) == 1);
                assert(prices(c)(next as int) == c[next as int].price as int);
                assert(calories(c)(next as int) == c[next as int].calories as int);
                assert(carbs(c)(next as int) == c[next as int].carbs as int);
                assert(fats(c)(next as int) == c[next as int].fats as int);
                assert(proteins(c)(next as int) == c[next as int].proteins as int);
                lemma_path_sum_bounded(prev, prices(c), u32::MAX as int);
                lemma_path_sum_bounded(prev, calories(c), u32::MAX as int);
                lemma_path_sum_bounded(prev, carbs(c), u32::MAX as int);
                lemma_path_sum_bounded(prev, fats(c), u32::MAX as int);
                lemma_path_sum_bounded(prev, proteins(c), u32::MAX as int);
                assert(u32::MAX as int * self.steps <= u32::MAX as int * u32::MAX as int) by (nonlinear_arith)
                    requires self.steps <= u32::MAX;
            }
            let e = DishCount { dish: next, count: 1 };
            match find_entry(&self.path, next) {
                Some(k) => {
                    proof {
                        lemma_servings_at(prev, n, cap, k as int);
                    }
                    let count = self.path[k].count + 1;
                    self.path[k] = DishCount { dish: next, count };
                    proof {
                        let e2 = DishCount { dish: next, count };
                        assert(self.path@ == prev.update(k as int, e2));
                        lemma_path_sum_increment(prev, k as int, unit());
                        lemma_path_sum_increment(prev, k as int, prices(c));
                        lemma_path_sum_increment(prev, k as int, calories(c));
                        lemma_path_sum_increment(prev, k as int, carbs(c));
                        lemma_path_sum_increment(prev, k as int, fats(c));
                        lemma_path_sum_increment(prev, k as int, proteins(c));
                        assert(path_ok(self.path@, n, cap)) by {
                            assert forall|j: int| 0 <= j < self.path@.len() && j != k implies #[trigger] self.path@[j] == prev[j] by {}
                        }
                    }
                },
                None => {
                    self.path.push(e);
                    proof {
                        lemma_path_sum_push(prev, e, unit());
                        lemma_path_sum_push(prev, e, prices(c));
                        lemma_path_sum_push(prev, e, calories(c));
                        lemma_path_sum_push(prev, e, carbs(c));
                        lemma_path_sum_push(prev, e, fats(c));
                        lemma_path_sum_push(prev, e, proteins(c));
                        assert(path_ok(self.path@, n, cap)) by {
                            assert forall|j: int| 0 <= j < prev.len() implies #[trigger] self.path@[j] == prev[j] by {}
                        }
                    }
                },
            }
            let d = &dishes[next];
            self.steps = self.steps + 1;
            self.totals = Totals {
                price: self.totals.price + d.price as u64,
                calories: self.totals.calories + d.calories as u64,
                carbs: self.totals.carbs + d.carbs as u64,
                fats: self.totals.fats + d.fats as u64,
                proteins: self.totals.proteins + d.proteins as u64,
            };
            self.path_cost = score(&self.totals, s);
            proof {
                last = next as int;
            }
        }
        assert(self.totals.price <= s.price_limit + c[last].price);
    }

    /// Starts over and builds a diet with a generator seeded by `seed`.
    pub fn build(&mut self, dishes: &Vec<Dish>, pheromone: &Vec<u64>, s: &Settings, seed: u64)
        requires
            setup_ok(dishes@, *s),
            pheromone@.len() == dishes@.len(),
        ensures
            final(self).finished(dishes@, *s),
    {
        *self = Ant::new();
        let mut rng = seeded(seed);
        self.construct_path(dishes, pheromone, s, &mut rng);
    }
}

} // verus!
