use vstd::prelude::*;

use crate::dish::Dish;

verus! {

/// A genome of the genetic formulation: the servings of each dish, by
/// catalog position.
pub type Selection = Vec<u32>;

/// The diet that a genome stands for: each dish with a positive count, with
/// the totals of the diet.
#[derive(Debug)]
pub struct Diet {
    pub dishes: Vec<(Dish, u32)>,
    pub total_calories: u64,
    pub total_carbs: u64,
    pub total_fats: u64,
    pub total_proteins: u64,
    pub price: u64,
}

/// The targets of the genetic formulation, over a catalog.
#[derive(Debug, Clone)]
pub struct Problem<'a> {
    pub all_dishes: &'a Vec<Dish>,
    pub target_calories: u64,
    pub target_carbs: u64,
    pub target_fats: u64,
    pub target_proteins: u64,
}

/// The five numbers of a dish that a total adds up.
pub enum Nutrient {
    Calories,
    Carbs,
    Fats,
    Proteins,
    Price,
}

pub open spec fn amount(d: Dish, n: Nutrient) -> int {
    match n {
        Nutrient::Calories => d.calories as int,
        Nutrient::Carbs => d.carbs as int,
        Nutrient::Fats => d.fats as int,
        Nutrient::Proteins => d.proteins as int,
        Nutrient::Price => d.price as int,
    }
}

/// The total of nutrient `n` over the first `i` genes of `sel`.
pub open spec fn selection_total(sel: Seq<u32>, c: Seq<Dish>, n: Nutrient, i: int) -> int
    decreases i,
{
    if i <= 0 {
        0
    } else {
        selection_total(sel, c, n, i - 1) + amount(c[i - 1], n) * sel[i - 1] as int
    }
}

/// A genome that the formulation can read without overflow: no longer than
/// the catalog, and each dish's numbers times its count fit in a `u32`.
pub open spec fn selection_ok(sel: Seq<u32>, c: Seq<Dish>) -> bool {
    &&& sel.len() <= c.len()
    &&& sel.len() <= u32::MAX
    &&& forall|i: int, n: Nutrient| 0 <= i < sel.len() ==> #[trigger] amount(c[i], n) * (#[trigger] sel[i]) as int <= u32::MAX
}

/// The penalty that a total off its target by more than `band` earns.
pub open spec fn miss(total: int, target: int, band: int) -> int {
    if (if total < target { target - total } else { total - target }) > band {
        -99999
    } else {
        0
    }
}

/// The fitness of a genome: a large constant, a penalty for each nutrient
/// off its band, less the squared price, plus the four nutrient totals.
pub open spec fn selection_fitness(sel: Seq<u32>, p: Problem) -> int {
    let c = p.all_dishes@;
    let l = sel.len() as int;
    let cal = selection_total(sel, c, Nutrient::Calories, l);
    let carbs = selection_total(sel, c, Nutrient::Carbs, l);
    let fats = selection_total(sel, c, Nutrient::Fats, l);
    let proteins = selection_total(sel, c, Nutrient::Proteins, l);
    let price = selection_total(sel, c, Nutrient::Price, l);
    9999999 + miss(cal, p.target_calories as int, 200) + miss(carbs, p.target_carbs as int, 25)
        + miss(fats, p.target_fats as int, 10) + miss(proteins, p.target_proteins as int, 20)
        - price * price + cal + carbs + fats + proteins
}

proof fn lemma_selection_total_bounded(sel: Seq<u32>, c: Seq<Dish>, n: Nutrient, i: int)
    requires
        selection_ok(sel, c),
        0 <= i <= sel.len(),
    ensures
        0 <= selection_total(sel, c, n, i) <= i * u32::MAX,
    decreases i,
{
    if i > 0 {
        lemma_selection_total_bounded(sel, c, n, i - 1);
        assert(amount(c[i - 1], n) * sel[i - 1] as int <= u32::MAX);
        assert(0 <= amount(c[i - 1], n) * sel[i - 1] as int) by (nonlinear_arith)
            requires 0 <= amount(c[i - 1], n), 0 <= sel[i - 1];
        assert(i * u32::MAX == (i - 1) * u32::MAX + u32::MAX) by (nonlinear_arith);
    }
}

/// The total of nutrient `n` over a genome.
fn total_of(sel: &Vec<u32>, c: &Vec<Dish>, n: Nutrient) -> (r: u64)
    requires
        selection_ok(sel@, c@),
    ensures
        r == selection_total(sel@, c@, n, sel@.len() as int),
{
    let mut total: u64 = 0;
    let mut i: usize = 0;
    while i < sel.len()
        invariant
            selection_ok(sel@, c@),
            i <= sel@.len(),
            total == selection_total(sel@, c@, n, i as int),
        decreases sel@.len() - i,
    {
        proof {
            lemma_selection_total_bounded(sel@, c@, n, i as int + 1);
            assert((i + 1) * u32::MAX <= u32::MAX * u32::MAX) by (nonlinear_arith)
                requires i < u32::MAX;
        }
        let d = &c[i];
        let a: u32 = match n {
            Nutrient::Calories => d.calories,
            Nutrient::Carbs => d.carbs,
            Nutrient::Fats => d.fats,
            Nutrient::Proteins => d.proteins,
            Nutrient::Price => d.price,
        };
        assert(amount(c@[i as int], n) * sel@[i as int] as int <= u32::MAX);
        total = total + (a * sel[i]) as u64;
        i += 1;
    }
    total
}

/// How far apart two totals are.
fn distance(a: u64, b: u64) -> (r: u64)
    ensures
        r == if a < b { b - a } else { a - b },
{
    if a < b { b - a } else { a - b }
}

impl<'a> Problem<'a> {
    pub fn new(target_calories: u64, target_carbs: u64, target_fats: u64, target_proteins: u64, all_dishes: &'a Vec<Dish>) -> (r: Problem<'a>)
        ensures
            r.all_dishes == all_dishes,
            r.target_calories == target_calories,
            r.target_carbs == target_carbs,
            r.target_fats == target_fats,
            r.target_proteins == target_proteins,
    {
        Problem { all_dishes, target_calories, target_carbs, target_fats, target_proteins }
    }

    /// The fitness of a genome (see `selection_fitness`).
    pub fn fitness_of(&self, selection: &Selection) -> (r: i64)
        requires
            selection_ok(selection@, self.all_dishes@),
            i64::MIN <= selection_fitness(selection@, *self) <= i64::MAX,
        ensures
            r == selection_fitness(selection@, *self),
    {
        match self.checked_fitness_of(selection) {
            Some(f) => f,
            None => {
                proof {
                    assert(false);
                }
                0
            },
        }
    }

    /// The fitness of a genome, where it fits in an `i64`.
    pub fn checked_fitness_of(&self, selection: &Selection) -> (r: Option<i64>)
        requires
            selection_ok(selection@, self.all_dishes@),
        ensures
            r == if i64::MIN <= selection_fitness(selection@, *self) <= i64::MAX {
                Some(selection_fitness(selection@, *self) as i64)
            } else {
                None::<i64>
            },
    {
        let c = self.all_dishes;
        let cal = total_of(selection, c, Nutrient::Calories);
        let carbs = total_of(selection, c, Nutrient::Carbs);
        let fats = total_of(selection, c, Nutrient::Fats);
        let proteins = total_of(selection, c, Nutrient::Proteins);
        let price = total_of(selection, c, Nutrient::Price);
        let nil: i128 = -99999;
        let mut sum: i128 = 9999999;
        if distance(cal, self.target_calories) > 200 {
            sum = sum + nil;
        }
        if distance(carbs, self.target_carbs) > 25 {
            sum = sum + nil;
        }
        if distance(fats, self.target_fats) > 10 {
            sum = sum + nil;
        }
        if distance(proteins, self.target_proteins) > 20 {
            sum = sum + nil;
        }
        let nutrients = cal as i128 + carbs as i128 + fats as i128 + proteins as i128;
        if price >= 0x4_0000_0000 {
            assert(price as int * price as int >= 0x10_0000_0000_0000_0000) by (nonlinear_arith)
                requires price >= 0x4_0000_0000;
            return None;
        }
        let price = price as i128;
        assert(price * price < 0x10_0000_0000_0000_0000) by (nonlinear_arith)
            requires 0 <= price < 0x4_0000_0000;
        let r = sum - price * price + nutrients;
        if r < i64::MIN as i128 || r > i64::MAX as i128 {
            None
        } else {
            Some(r as i64)
        }
    }
}

/// The positions below `i` whose gene is positive, in order.
pub open spec fn kept(sel: Seq<u32>, i: int) -> Seq<int>
    decreases i,
{
    if i <= 0 {
        Seq::empty()
    } else if sel[i - 1] > 0 {
        kept(sel, i - 1).push(i - 1)
    } else {
        kept(sel, i - 1)
    }
}

proof fn lemma_kept_bounded(sel: Seq<u32>, i: int)
    requires
        0 <= i,
    ensures
        kept(sel, i).len() <= i,
        forall|k: int| 0 <= k < kept(sel, i).len() ==> 0 <= #[trigger] kept(sel, i)[k] < i,
    decreases i,
{
    if i > 0 {
        lemma_kept_bounded(sel, i - 1);
    }
}

/// The diet of a genome: each dish of positive count, in catalog order, with
/// its count, and the totals of the diet.
pub fn as_diet(selection: &Selection, all_dishes: &Vec<Dish>) -> (r: Diet)
    requires
        selection_ok(selection@, all_dishes@),
    ensures
        r.dishes@.len() == kept(selection@, selection@.len() as int).len(),
        forall|k: int| 0 <= k < r.dishes@.len() ==> {
            let j = #[trigger] kept(selection@, selection@.len() as int)[k];
            r.dishes@[k].0 == all_dishes@[j] && r.dishes@[k].1 == selection@[j]
        },
        r.total_calories == selection_total(selection@, all_dishes@, Nutrient::Calories, selection@.len() as int),
        r.total_carbs == selection_total(selection@, all_dishes@, Nutrient::Carbs, selection@.len() as int),
        r.total_fats == selection_total(selection@, all_dishes@, Nutrient::Fats, selection@.len() as int),
        r.total_proteins == selection_total(selection@, all_dishes@, Nutrient::Proteins, selection@.len() as int),
        r.price == selection_total(selection@, all_dishes@, Nutrient::Price, selection@.len() as int),
{
    let mut dishes: Vec<(Dish, u32)> = Vec::new();
    let mut i: usize = 0;
    while i < selection.len()
        invariant
            selection_ok(selection@, all_dishes@),
            i <= selection@.len(),
            dishes@.len() == kept(selection@, i as int).len(),
            forall|k: int| 0 <= k < dishes@.len() ==> {
                let j = #[trigger] kept(selection@, i as int)[k];
                dishes@[k].0 == all_dishes@[j] && dishes@[k].1 == selection@[j]
            },
        decreases selection@.len() - i,
    {
        if selection[i] > 0 {
            dishes.push((all_dishes[i].copy(), selection[i]));
        }
        proof {
            let before = kept(selection@, i as int);
            let after = kept(selection@, i as int + 1);
            assert forall|k: int| 0 <= k < dishes@.len() implies {
                let j = #[trigger] after[k];
                dishes@[k].0 == all_dishes@[j] && dishes@[k].1 == selection@[j]
            } by {
                if k < before.len() {
                    assert(after[k] == before[k]);
                }
            }
        }
        i += 1;
    }
    Diet {
        dishes,
        total_calories: total_of(selection, all_dishes, Nutrient::Calories),
        total_carbs: total_of(selection, all_dishes, Nutrient::Carbs),
        total_fats: total_of(selection, all_dishes, Nutrient::Fats),
        total_proteins: total_of(selection, all_dishes, Nutrient::Proteins),
        price: total_of(selection, all_dishes, Nutrient::Price),
    }
}

/// The genome with the genes from `lo` to `hi`, both included, in reverse
/// order.
pub fn invert(genome: &Selection, lo: usize, hi: usize) -> (r: Selection)
    requires
        lo <= hi < genome@.len(),
    ensures
        r@.len() == genome@.len(),
        forall|i: int| 0 <= i < genome@.len() ==> #[trigger] r@[i] == if lo <= i <= hi {
            genome@[lo + hi - i]
        } else {
            genome@[i]
        },
{
    let mut r: Vec<u32> = Vec::new();
    let mut i: usize = 0;
    while i < genome.len()
        invariant
            lo <= hi < genome@.len(),
            i <= genome@.len(),
            r@.len() == i,
            forall|j: int| 0 <= j < i ==> #[trigger] r@[j] == if lo <= j <= hi {
                genome@[lo + hi - j]
            } else {
                genome@[j]
            },
        decreases genome@.len() - i,
    {
        if lo <= i && i <= hi {
            r.push(genome[hi - (i - lo)]);
        } else {
            r.push(genome[i]);
        }
        i += 1;
    }
    r
}

} // verus!
