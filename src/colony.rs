use rand::rngs::StdRng;
use rayon::prelude::{IndexedParallelIterator, IntoParallelRefIterator, IntoParallelRefMutIterator, ParallelIterator};
use vstd::prelude::*;

use crate::ant::{setup_ok, totals_of, Ant, DishCount};
use crate::dish::Dish;
use crate::fitness::{ConfigError, Settings, Totals};
use crate::pheromone::{capped, deposit_amount, distinct_dishes, evaporate, evaporated, lay, on_path, DEPOSIT_NUMERATOR, PHEROMONE_UNIT};
use crate::random::{draw_below, next_seed, seeded};

verus! {

/// The first error of a search over `n` dishes with `num_ants` ants, if any.
pub open spec fn config_error(n: int, num_ants: int, s: Settings) -> Option<ConfigError> {
    if n == 0 {
        Some(ConfigError::EmptyCatalog)
    } else if num_ants == 0 {
        Some(ConfigError::NoAnts)
    } else if s.error() is Some {
        s.error()
    } else if n * s.max_servings > u32::MAX {
        Some(ConfigError::TooManySteps)
    } else {
        None
    }
}

/// The colony: the catalog, the pheromone field, the ants of the current
/// iteration and the best diet found so far.
pub struct AntColony {
    pub dishes: Vec<Dish>,
    pub settings: Settings,
    /// One weight per dish, in pheromone units.
    pub pheromone: Vec<u64>,
    pub ants: Vec<Ant>,
    /// The path of the best ant so far.
    pub best_path: Vec<DishCount>,
    /// A copy of the best ant so far, kept apart from the ants of later
    /// iterations.
    pub best_ant: Option<Ant>,
    pub rng: StdRng,
}

/// The index of the first ant of greatest fitness among the first `k`.
pub open spec fn first_max(ants: Seq<Ant>, k: int) -> int
    decreases k,
{
    if k <= 1 {
        0
    } else {
        let b = first_max(ants, k - 1);
        if ants[k - 1].path_cost > ants[b].path_cost {
            k - 1
        } else {
            b
        }
    }
}

/// Ant `a` lays pheromone under draw `draw`: its fitness is positive and the
/// draw falls below it.
pub open spec fn lays(a: Ant, draw: u128) -> bool {
    a.path_cost > 0 && (draw as int) < a.path_cost
}

/// The pheromone that the first `k` ants lay on dish `d` under `draws`: each
/// ant that lays and has an entry for `d` adds `1 / fitness`, whatever its
/// servings of `d`.
pub open spec fn deposited(ants: Seq<Ant>, draws: Seq<u128>, d: int, k: int) -> int
    decreases k,
{
    if k <= 0 {
        0
    } else {
        deposited(ants, draws, d, k - 1) + if lays(ants[k - 1], draws[k - 1]) && on_path(ants[k - 1].path@, d) {
            DEPOSIT_NUMERATOR as int / ants[k - 1].path_cost as int
        } else {
            0
        }
    }
}

/// Nothing is laid on a dish that no ant has an entry for.
pub proof fn lemma_deposited_unvisited(ants: Seq<Ant>, draws: Seq<u128>, d: int, k: int)
    requires
        forall|a: int| 0 <= a < k ==> !on_path((#[trigger] ants[a]).path@, d),
    ensures
        deposited(ants, draws, d, k) == 0,
    decreases k,
{
    if k > 0 {
        lemma_deposited_unvisited(ants, draws, d, k - 1);
    }
}

/// A dish that no ant has an entry for keeps exactly its evaporated weight
/// through the pheromone update.
pub proof fn lemma_unvisited_weight_evaporates(w: u64, num: u64, den: u64, ants: Seq<Ant>, draws: Seq<u128>, d: int)
    requires
        den > 0,
        num <= den,
        forall|a: int| 0 <= a < ants.len() ==> !on_path((#[trigger] ants[a]).path@, d),
    ensures
        capped(evaporated(w, num, den) + deposited(ants, draws, d, ants.len() as int)) == evaporated(w, num, den),
{
    lemma_deposited_unvisited(ants, draws, d, ants.len() as int);
    assert(w as int * num as int <= w as int * den as int) by (nonlinear_arith)
        requires num <= den;
    vstd::arithmetic::div_mod::lemma_div_is_ordered(w as int * num as int, w as int * den as int, den as int);
    vstd::arithmetic::div_mod::lemma_div_multiples_vanish(w as int, den as int);
    assert(w as int * den as int == den as int * w as int) by (nonlinear_arith);
}

/// What is laid depends on the ants' fitness and on which dishes their paths
/// hold, not on the servings.
pub proof fn lemma_deposited_ignores_servings(ants: Seq<Ant>, others: Seq<Ant>, draws: Seq<u128>, d: int, k: int)
    requires
        k <= ants.len(),
        k <= others.len(),
        forall|a: int| 0 <= a < k ==> (#[trigger] ants[a]).path_cost == others[a].path_cost,
        forall|a: int| 0 <= a < k ==> on_path((#[trigger] ants[a]).path@, d) == on_path(others[a].path@, d),
    ensures
        deposited(ants, draws, d, k) == deposited(others, draws, d, k),
    decreases k,
{
    if k > 0 {
        lemma_deposited_ignores_servings(ants, others, draws, d, k - 1);
        assert(ants[k - 1].path_cost == others[k - 1].path_cost);
        assert(on_path(ants[k - 1].path@, d) == on_path(others[k - 1].path@, d));
    }
}

/// Lets each ant that lays under its draw, in ant order, add `1 / fitness` to
/// the weight of each dish of its path, saturating at `u64::MAX`.
pub fn deposit(weights: &mut Vec<u64>, ants: &Vec<Ant>, draws: &Vec<u128>)
    requires
        draws@.len() == ants@.len(),
        forall|a: int| 0 <= a < ants@.len() ==> distinct_dishes((#[trigger] ants@[a]).path@),
        forall|a: int, k: int| 0 <= a < ants@.len() && 0 <= k < ants@[a].path@.len()
            ==> (#[trigger] ants@[a].path@[k]).dish < old(weights)@.len(),
    ensures
        final(weights)@.len() == old(weights)@.len(),
        forall|i: int| 0 <= i < old(weights)@.len() ==> #[trigger] final(weights)@[i]
            == capped(old(weights)@[i] + deposited(ants@, draws@, i, ants@.len() as int)),
{
    let ghost before = weights@;
    let mut a: usize = 0;
    while a < ants.len()
        invariant
            draws@.len() == ants@.len(),
            forall|j: int| 0 <= j < ants@.len() ==> distinct_dishes((#[trigger] ants@[j]).path@),
            forall|j: int, k: int| 0 <= j < ants@.len() && 0 <= k < ants@[j].path@.len()
                ==> (#[trigger] ants@[j].path@[k]).dish < before.len(),
            a <= ants@.len(),
            weights@.len() == before.len(),
            forall|i: int| 0 <= i < before.len() ==> #[trigger] weights@[i]
                == capped(before[i] + deposited(ants@, draws@, i, a as int)),
        decreases ants@.len() - a,
    {
        let cost = ants[a].path_cost;
        if cost > 0 && draws[a] < cost as u128 {
            let amount = deposit_amount(cost);
            let ghost w0 = weights@;
            proof {
                assert forall|k: int| 0 <= k < ants@[a as int].path@.len() implies (#[trigger] ants@[a as int].path@[k]).dish < w0.len() by {
                    assert(ants@[a as int].path@[k].dish < before.len());
                }
            }
            lay(weights, &ants[a].path, amount);
        }
        a += 1;
    }
}

/// The index of the first ant of greatest fitness.
pub fn best_index(ants: &Vec<Ant>) -> (r: usize)
    requires
        ants@.len() > 0,
    ensures
        r < ants@.len(),
        forall|j: int| 0 <= j < ants@.len() ==> (#[trigger] ants@[j]).path_cost <= ants@[r as int].path_cost,
        forall|j: int| 0 <= j < r ==> (#[trigger] ants@[j]).path_cost < ants@[r as int].path_cost,
        r == first_max(ants@, ants@.len() as int),
{
    let mut best: usize = 0;
    let mut i: usize = 1;
    while i < ants.len()
        invariant
            ants@.len() > 0,
            best < i <= ants@.len(),
            forall|j: int| 0 <= j < i ==> (#[trigger] ants@[j]).path_cost <= ants@[best as int].path_cost,
            forall|j: int| 0 <= j < best ==> (#[trigger] ants@[j]).path_cost < ants@[best as int].path_cost,
            best == first_max(ants@, i as int),
        decreases ants@.len() - i,
    {
        if ants[i].path_cost > ants[best].path_cost {
            best = i;
        }
        i += 1;
    }
    best
}

/// A copy of a path.
fn copy_path(path: &Vec<DishCount>) -> (r: Vec<DishCount>)
    ensures
        r@ == path@,
{
    let mut r: Vec<DishCount> = Vec::new();
    let mut i: usize = 0;
    while i < path.len()
        invariant
            i <= path@.len(),
            r@ == path@.take(i as int),
        decreases path@.len() - i,
    {
        r.push(path[i]);
        assert(r@ =~= path@.take(i as int + 1));
        i += 1;
    }
    assert(path@.take(path@.len() as int) =~= path@);
    r
}

/// A copy of an ant.
fn copy_ant(a: &Ant) -> (r: Ant)
    ensures
        r.path@ == a.path@,
        r.totals == a.totals,
        r.steps == a.steps,
        r.path_cost == a.path_cost,
{
    Ant { path: copy_path(&a.path), totals: a.totals, steps: a.steps, path_cost: a.path_cost }
}

/// Relies on rayon's `par_iter_mut`, `zip` and `for_each`: the closure runs
/// once on each ant, paired with the seed at the same index, and every run
/// has ended when the call returns.
#[verifier::external_body]
fn build_all(ants: &mut Vec<Ant>, seeds: &Vec<u64>, dishes: &Vec<Dish>, pheromone: &Vec<u64>, s: &Settings)
    requires
        old(ants)@.len() == seeds@.len(),
        setup_ok(dishes@, *s),
        pheromone@.len() == dishes@.len(),
    ensures
        final(ants)@.len() == old(ants)@.len(),
        forall|i: int| 0 <= i < final(ants)@.len() ==> (#[trigger] final(ants)@[i]).finished(dishes@, *s),
{
    ants.par_iter_mut().zip(seeds.par_iter()).for_each(|(ant, seed)| ant.build(dishes, pheromone, s, *seed));
}

/// What the colony keeps of an ant: its path, totals, steps and fitness.
pub type AntRecord = (Seq<DishCount>, Totals, usize, i128);

pub open spec fn record(a: Ant) -> AntRecord {
    (a.path@, a.totals, a.steps, a.path_cost)
}

pub open spec fn record_of(best: Option<Ant>) -> Option<AntRecord> {
    match best {
        Some(a) => Some(record(a)),
        None => None,
    }
}

/// The best so far after one more iteration with these ants: the first ant
/// of greatest fitness, where there is no best yet or it is strictly fitter;
/// else the best so far unchanged.
pub open spec fn kept(prev: Option<AntRecord>, ants: Seq<Ant>) -> Option<AntRecord> {
    let a = record(ants[first_max(ants, ants.len() as int)]);
    if prev is None || a.3 > prev->Some_0.3 {
        Some(a)
    } else {
        prev
    }
}

/// The best so far after iterations with the ant populations `pops`, one
/// after the other, starting from `prev`.
pub open spec fn best_after(prev: Option<AntRecord>, pops: Seq<Seq<Ant>>) -> Option<AntRecord>
    decreases pops.len(),
{
    if pops.len() == 0 {
        prev
    } else {
        kept(best_after(prev, pops.drop_last()), pops.last())
    }
}

/// The best fitness so far after the first `k + 1` populations of `pops`.
pub open spec fn best_fitness_after(prev: Option<AntRecord>, pops: Seq<Seq<Ant>>, k: int) -> i128 {
    match best_after(prev, pops.take(k + 1)) {
        Some(b) => b.3,
        None => 0,
    }
}

impl AntColony {
    /// A new colony over `dishes` with `num_ants` fresh ants, every pheromone
    /// weight at one unit and no best diet yet; the configuration is sound.
    pub open spec fn starts(self, dishes: Seq<Dish>, num_ants: int, settings: Settings) -> bool {
        &&& config_error(dishes.len() as int, num_ants, settings) is None
        &&& self.wf()
        &&& self.dishes@ == dishes
        &&& self.settings == settings
        &&& self.ants@.len() == num_ants
        &&& forall|i: int| 0 <= i < self.ants@.len() ==> (#[trigger] self.ants@[i]).is_fresh()
        &&& forall|i: int| 0 <= i < self.pheromone@.len() ==> #[trigger] self.pheromone@[i] == PHEROMONE_UNIT
        &&& self.best_ant is None
    }

    pub open spec fn wf(self) -> bool {
        &&& setup_ok(self.dishes@, self.settings)
        &&& self.pheromone@.len() == self.dishes@.len()
        &&& self.ants@.len() > 0
        &&& self.best_ant matches Some(b) ==> b.finished(self.dishes@, self.settings) && self.best_path@ == b.path@
        &&& self.best_ant is None ==> self.best_path@.len() == 0
    }

    /// A colony of `num_ants` ants over `dishes` with the standard settings,
    /// its random choices drawn from a generator seeded by `seed`.
    pub fn new(dishes: Vec<Dish>, num_ants: usize, seed: u64) -> (r: Result<AntColony, ConfigError>)
        ensures
            match r {
                Ok(c) => c.starts(dishes@, num_ants as int, Settings::standard_spec()),
                Err(e) => config_error(dishes@.len() as int, num_ants as int, Settings::standard_spec()) == Some(e),
            },
    {
        AntColony::with_settings(dishes, num_ants, Settings::standard(), seed)
    }

    /// A colony of `num_ants` ants over `dishes`, every pheromone weight at one
    /// unit and no best diet yet; or the first configuration error.
    pub fn with_settings(dishes: Vec<Dish>, num_ants: usize, settings: Settings, seed: u64) -> (r: Result<AntColony, ConfigError>)
        ensures
            match r {
                Ok(c) => c.starts(dishes@, num_ants as int, settings),
                Err(e) => config_error(dishes@.len() as int, num_ants as int, settings) == Some(e),
            },
    {
        if dishes.len() == 0 {
            return Err(ConfigError::EmptyCatalog);
        }
        if num_ants == 0 {
            return Err(ConfigError::NoAnts);
        }
        if let Err(e) = settings.check() {
            return Err(e);
        }
        assert(dishes@.len() * settings.max_servings <= u64::MAX as int * u64::MAX as int) by (nonlinear_arith)
            requires dishes@.len() <= u64::MAX, settings.max_servings <= u64::MAX;
        if dishes.len() as u128 * settings.max_servings as u128 > u32::MAX as u128 {
            return Err(ConfigError::TooManySteps);
        }
        let mut pheromone: Vec<u64> = Vec::new();
        let mut i: usize = 0;
        while i < dishes.len()
            invariant
                i <= dishes@.len(),
                pheromone@.len() == i,
                forall|j: int| 0 <= j < i ==> #[trigger] pheromone@[j] == PHEROMONE_UNIT,
            decreases dishes@.len() - i,
        {
            pheromone.push(PHEROMONE_UNIT);
            i += 1;
        }
        let mut ants: Vec<Ant> = Vec::new();
        let mut i: usize = 0;
        while i < num_ants
            invariant
                i <= num_ants,
                ants@.len() == i,
                forall|j: int| 0 <= j < i ==> (#[trigger] ants@[j]).is_fresh(),
            decreases num_ants - i,
        {
            ants.push(Ant::new());
            i += 1;
        }
        Ok(AntColony { dishes, settings, pheromone, ants, best_path: Vec::new(), best_ant: None, rng: seeded(seed) })
    }

    /// Puts every ant back to an empty diet.
    pub fn reset_ants(&mut self)
        ensures
            final(self).ants@.len() == old(self).ants@.len(),
            forall|i: int| 0 <= i < final(self).ants@.len() ==> (#[trigger] final(self).ants@[i]).is_fresh(),
            final(self).dishes == old(self).dishes,
            final(self).settings == old(self).settings,
            final(self).pheromone == old(self).pheromone,
            final(self).best_path == old(self).best_path,
            final(self).best_ant == old(self).best_ant,
    {
        let mut i: usize = 0;
        while i < self.ants.len()
            invariant
                i <= self.ants@.len(),
                self.ants@.len() == old(self).ants@.len(),
                forall|j: int| 0 <= j < i ==> (#[trigger] self.ants@[j]).is_fresh(),
                self.dishes == old(self).dishes,
                self.settings == old(self).settings,
                self.pheromone == old(self).pheromone,
                self.best_path == old(self).best_path,
                self.best_ant == old(self).best_ant,
            decreases self.ants@.len() - i,
        {
            self.ants[i] = Ant::new();
            i += 1;
        }
    }

    /// Evaporates all pheromone, then draws one number per ant, in ant order,
    /// below the best fitness of the iteration, and deposits: each ant of
    /// positive fitness whose draw falls below its fitness (chance
    /// `fitness / best fitness`) adds `1 / fitness` to each dish of its path.
    /// Where the best fitness is not positive no ant lays and nothing is drawn,
    /// so no weight falls below its evaporated value.
    pub fn update_pheromones(&mut self)
        requires
            old(self).wf(),
            forall|i: int| 0 <= i < old(self).ants@.len() ==> (#[trigger] old(self).ants@[i]).wf(old(self).dishes@, old(self).settings),
        ensures
            final(self).wf(),
            final(self).dishes == old(self).dishes,
            final(self).settings == old(self).settings,
            final(self).ants == old(self).ants,
            final(self).best_path == old(self).best_path,
            final(self).best_ant == old(self).best_ant,
            final(self).pheromone@.len() == old(self).pheromone@.len(),
            exists|draws: Seq<u128>| #[trigger] draws.len() == old(self).ants@.len() && {
                let ants = old(self).ants@;
                let best = ants[first_max(ants, ants.len() as int)].path_cost;
                &&& forall|a: int| 0 <= a < ants.len() && best > 0 ==> (#[trigger] draws[a]) < best
                &&& forall|i: int| 0 <= i < old(self).pheromone@.len() ==> #[trigger] final(self).pheromone@[i] == capped(
                    evaporated(old(self).pheromone@[i], old(self).settings.retention_num, old(self).settings.retention_den)
                        + deposited(ants, draws, i, ants.len() as int))
            },
    {
        let ghost before = self.pheromone@;
        evaporate(&mut self.pheromone, self.settings.retention_num, self.settings.retention_den);
        let b = best_index(&self.ants);
        let best = self.ants[b].path_cost;
        let mut draws: Vec<u128> = Vec::new();
        let mut a: usize = 0;
        while a < self.ants.len()
            invariant
                self.wf(),
                self.dishes == old(self).dishes,
                self.settings == old(self).settings,
                self.ants == old(self).ants,
                self.best_path == old(self).best_path,
                self.best_ant == old(self).best_ant,
                self.pheromone@.len() == before.len(),
                forall|i: int| 0 <= i < before.len() ==> #[trigger] self.pheromone@[i]
                    == evaporated(before[i], self.settings.retention_num, self.settings.retention_den),
                a <= self.ants@.len(),
                draws@.len() == a,
                forall|j: int| 0 <= j < a && best > 0 ==> (#[trigger] draws@[j]) < best,
            decreases self.ants@.len() - a,
        {
            if best > 0 {
                draws.push(draw_below(&mut self.rng, best as u128));
            } else {
                draws.push(0);
            }
            a += 1;
        }
        let ghost evap = self.pheromone@;
        proof {
            assert forall|x: int, k: int| 0 <= x < self.ants@.len() && 0 <= k < self.ants@[x].path@.len()
                implies (#[trigger] self.ants@[x].path@[k]).dish < evap.len() by {
                assert(self.ants@[x].wf(self.dishes@, self.settings));
                assert(self.ants@[x].path@[k] == self.ants@[x].path@[k]);
            }
        }
        deposit(&mut self.pheromone, &self.ants, &draws);
        proof {
            assert(draws@.len() == old(self).ants@.len());
        }
    }

    /// Takes the first ant of greatest fitness of this iteration as the best
    /// so far where there is none yet or it is strictly fitter.
    pub fn update_best(&mut self)
        requires
            old(self).wf(),
            forall|i: int| 0 <= i < old(self).ants@.len() ==> (#[trigger] old(self).ants@[i]).finished(old(self).dishes@, old(self).settings),
        ensures
            final(self).wf(),
            final(self).dishes == old(self).dishes,
            final(self).settings == old(self).settings,
            final(self).ants == old(self).ants,
            final(self).pheromone == old(self).pheromone,
            record_of(final(self).best_ant) == kept(record_of(old(self).best_ant), old(self).ants@),
            forall|i: int| 0 <= i < old(self).ants@.len() ==> (final(self).best_ant matches Some(g)
                && (#[trigger] old(self).ants@[i]).path_cost <= g.path_cost),
    {
        let b = best_index(&self.ants);
        let replace = match &self.best_ant {
            None => true,
            Some(g) => self.ants[b].path_cost > g.path_cost,
        };
        if replace {
            let a = copy_ant(&self.ants[b]);
            self.best_path = copy_path(&self.ants[b].path);
            self.best_ant = Some(a);
        }
    }

    /// Runs `iterations` iterations: every ant builds a diet, in parallel and
    /// from its own seed, the pheromone is updated, and the best so far is
    /// updated. Returns the best fitness so far after each iteration.
    pub fn run(&mut self, iterations: usize) -> (r: Result<Vec<i128>, ConfigError>)
        requires
            old(self).wf(),
        ensures
            final(self).wf(),
            final(self).dishes == old(self).dishes,
            final(self).settings == old(self).settings,
            final(self).ants@.len() == old(self).ants@.len(),
            r is Err <==> iterations == 0,
            r matches Err(e) ==> e == ConfigError::NoIterations && *final(self) == *old(self),
            r matches Ok(v) ==> {
                &&& v@.len() == iterations
                &&& forall|i: int, j: int| 0 <= i <= j < v@.len() ==> #[trigger] v@[i] <= #[trigger] v@[j]
                &&& final(self).best_ant matches Some(b) && v@.last() == b.path_cost
                &&& old(self).best_ant matches Some(o) ==> o.path_cost <= v@[0]
                &&& forall|i: int| 0 <= i < final(self).ants@.len() ==> (#[trigger] final(self).ants@[i]).finished(final(self).dishes@, final(self).settings)
                &&& forall|i: int| 0 <= i < final(self).ants@.len() ==> (final(self).best_ant matches Some(b)
                    && (#[trigger] final(self).ants@[i]).path_cost <= b.path_cost)
                &&& exists|pops: Seq<Seq<Ant>>| #[trigger] pops.len() == iterations && {
                    &&& forall|k: int| 0 <= k < pops.len() ==> (#[trigger] pops[k]).len() == old(self).ants@.len()
                    &&& forall|k: int, i: int| 0 <= k < pops.len() && 0 <= i < pops[k].len()
                        ==> (#[trigger] pops[k][i]).finished(old(self).dishes@, old(self).settings)
                    &&& forall|k: int| 0 <= k < v@.len() ==> #[trigger] v@[k] == best_fitness_after(record_of(old(self).best_ant), pops, k)
                    &&& record_of(final(self).best_ant) == best_after(record_of(old(self).best_ant), pops)
                    &&& pops.last() == final(self).ants@
                }
            },
    {
        if iterations == 0 {
            return Err(ConfigError::NoIterations);
        }
        let ghost prev = record_of(self.best_ant);
        let ghost mut pops: Seq<Seq<Ant>> = Seq::empty();
        let mut fitnesses: Vec<i128> = Vec::new();
        let mut it: usize = 0;
        while it < iterations
            invariant
                self.wf(),
                self.dishes == old(self).dishes,
                self.settings == old(self).settings,
                self.ants@.len() == old(self).ants@.len(),
                it <= iterations,
                fitnesses@.len() == it,
                forall|i: int, j: int| 0 <= i <= j < fitnesses@.len() ==> #[trigger] fitnesses@[i] <= #[trigger] fitnesses@[j],
                it > 0 ==> (self.best_ant matches Some(b) && fitnesses@.last() == b.path_cost),
                old(self).best_ant matches Some(o) ==> (self.best_ant matches Some(b) && o.path_cost <= b.path_cost),
                old(self).best_ant matches Some(o) ==> (it > 0 ==> o.path_cost <= fitnesses@[0]),
                it > 0 ==> forall|i: int| 0 <= i < self.ants@.len() ==> (#[trigger] self.ants@[i]).finished(self.dishes@, self.settings),
                it > 0 ==> forall|i: int| 0 <= i < self.ants@.len() ==> (self.best_ant matches Some(b)
                    && (#[trigger] self.ants@[i]).path_cost <= b.path_cost),
                prev == record_of(old(self).best_ant),
                pops.len() == it,
                forall|k: int| 0 <= k < pops.len() ==> (#[trigger] pops[k]).len() == old(self).ants@.len(),
                forall|k: int, i: int| 0 <= k < pops.len() && 0 <= i < pops[k].len()
                    ==> (#[trigger] pops[k][i]).finished(old(self).dishes@, old(self).settings),
                forall|k: int| 0 <= k < fitnesses@.len() ==> #[trigger] fitnesses@[k] == best_fitness_after(prev, pops, k),
                record_of(self.best_ant) == best_after(prev, pops),
                it > 0 ==> pops.last() == self.ants@,
            decreases iterations - it,
        {
            self.reset_ants();
            let mut seeds: Vec<u64> = Vec::new();
            let mut i: usize = 0;
            while i < self.ants.len()
                invariant
                    i <= self.ants@.len(),
                    seeds@.len() == i,
                    self.wf(),
                    self.dishes == old(self).dishes,
                    self.settings == old(self).settings,
                    self.ants@.len() == old(self).ants@.len(),
                    old(self).best_ant matches Some(o) ==> (self.best_ant matches Some(b) && o.path_cost <= b.path_cost),
                    it > 0 ==> (self.best_ant matches Some(b) && fitnesses@.last() == b.path_cost),
                    record_of(self.best_ant) == best_after(prev, pops),
                decreases self.ants@.len() - i,
            {
                seeds.push(next_seed(&mut self.rng));
                i += 1;
            }
            build_all(&mut self.ants, &seeds, &self.dishes, &self.pheromone, &self.settings);
            self.update_pheromones();
            let ghost before = self.best_ant;
            self.update_best();
            let current = match &self.best_ant {
                Some(g) => g.path_cost,
                None => 0,
            };
            proof {
                let old_pops = pops;
                pops = pops.push(self.ants@);
                assert(pops.drop_last() =~= old_pops);
                assert(pops.take(it as int + 1) =~= pops);
                assert forall|k: int| 0 <= k < it implies #[trigger] pops.take(k + 1) == old_pops.take(k + 1) by {
                    assert(pops.take(k + 1) =~= old_pops.take(k + 1));
                }
                assert forall|k: int| 0 <= k < pops.len() implies (#[trigger] pops[k]).len() == old(self).ants@.len() by {
                    if k < it {
                        assert(pops[k] == old_pops[k]);
                    }
                }
                assert forall|k: int, i: int| 0 <= k < pops.len() && 0 <= i < pops[k].len()
                    implies (#[trigger] pops[k][i]).finished(old(self).dishes@, old(self).settings) by {
                    if k < it {
                        assert(pops[k] == old_pops[k]);
                    }
                }
                assert forall|k: int| 0 <= k < it implies #[trigger] fitnesses@[k] == best_fitness_after(prev, pops, k) by {
                    assert(pops.take(k + 1) == old_pops.take(k + 1));
                }
            }
            fitnesses.push(current);
            it += 1;
        }
        Ok(fitnesses)
    }

    /// The fitness of the best diet so far.
    pub fn best_fitness(&self) -> (r: Option<i128>)
        ensures
            r == match self.best_ant {
                Some(b) => Some(b.path_cost),
                None => None::<i128>,
            },
    {
        match &self.best_ant {
            Some(b) => Some(b.path_cost),
            None => None,
        }
    }

    /// The totals of the best diet so far: price and nutrition of its
    /// servings.
    pub fn best_totals(&self) -> (r: Option<Totals>)
        requires
            self.wf(),
        ensures
            r matches Some(t) ==> self.best_ant matches Some(b) && t == b.totals && totals_of(t, self.best_path@, self.dishes@),
            r is None <==> self.best_ant is None,
    {
        match &self.best_ant {
            Some(b) => Some(b.totals),
            None => None,
        }
    }

    /// The best diet so far as the name and servings of each dish.
    pub fn best_diet(&self) -> (r: Vec<(String, usize)>)
        requires
            self.wf(),
        ensures
            r@.len() == self.best_path@.len(),
            forall|k: int| 0 <= k < r@.len() ==> (#[trigger] r@[k]).0 == self.dishes@[self.best_path@[k].dish as int].name
                && r@[k].1 == self.best_path@[k].count,
    {
        let mut r: Vec<(String, usize)> = Vec::new();
        let mut k: usize = 0;
        while k < self.best_path.len()
            invariant
                self.wf(),
                k <= self.best_path@.len(),
                r@.len() == k,
                forall|j: int| 0 <= j < k ==> (#[trigger] r@[j]).0 == self.dishes@[self.best_path@[j].dish as int].name
                    && r@[j].1 == self.best_path@[j].count,
            decreases self.best_path@.len() - k,
        {
            let e = self.best_path[k];
            proof {
                if self.best_ant is Some {
                    let b = self.best_ant->Some_0;
                    assert(self.best_path@[k as int] == b.path@[k as int]);
                }
            }
            r.push((self.dishes[e.dish].name.clone(), e.count));
            k += 1;
        }
        r
    }
}

} // verus!
