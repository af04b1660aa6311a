use vstd::prelude::*;

verus! {

/// Fitness values are fixed-point numbers: a fitness of `f` is stored as
/// `f * FITNESS_SCALE`, each normalised ratio rounded down.
pub const FITNESS_SCALE: u64 = 1_000_000;

/// The tunable parameters of a search.
#[derive(Debug, Clone, Copy, PartialEq, Eq)]
pub struct Settings {
    /// Budget of one diet; a diet stops growing once its price exceeds it.
    pub price_limit: u64,
    /// How many servings of one dish a diet may hold.
    pub max_servings: usize,
    /// Pheromone kept at each evaporation, as the fraction
    /// `retention_num / retention_den`.
    pub retention_num: u64,
    pub retention_den: u64,
    pub target_calories: u64,
    pub calories_band: u64,
    pub target_carbs: u64,
    pub carbs_band: u64,
    pub target_fats: u64,
    pub fats_band: u64,
    pub target_proteins: u64,
    pub proteins_band: u64,
}

/// Why a search cannot start.
#[derive(Debug, Clone, Copy, PartialEq, Eq)]
pub enum ConfigError {
    EmptyCatalog,
    NoAnts,
    NoIterations,
    ZeroPriceLimit,
    ZeroTarget,
    ZeroServingCap,
    BadRetention,
    /// The catalog size times the serving cap exceeds `u32::MAX`.
    TooManySteps,
}

/// Running totals of a diet.
#[derive(Debug, Clone, Copy, PartialEq, Eq)]
pub struct Totals {
    pub price: u64,
    pub calories: u64,
    pub carbs: u64,
    pub fats: u64,
    pub proteins: u64,
}

impl Totals {
    pub fn zero() -> (r: Totals)
        ensures
            r == (Totals { price: 0, calories: 0, carbs: 0, fats: 0, proteins: 0 }),
    {
        Totals { price: 0, calories: 0, carbs: 0, fats: 0, proteins: 0 }
    }
}

impl Settings {
    /// The default search: a budget of 200, ten servings per dish, 90% of the
    /// pheromone kept, and targets of 2250 ± 200 kcal, 275 ± 25 g carbs,
    /// 50 ± 10 g fats and 120 ± 20 g proteins.
    pub open spec fn standard_spec() -> Settings {
        Settings {
            price_limit: 200,
            max_servings: 10,
            retention_num: 9,
            retention_den: 10,
            target_calories: 2250,
            calories_band: 200,
            target_carbs: 275,
            carbs_band: 25,
            target_fats: 50,
            fats_band: 10,
            target_proteins: 120,
            proteins_band: 20,
        }
    }

    #[verifier::when_used_as_spec(standard_spec)]
    pub fn standard() -> (r: Settings)
        ensures
            r == Settings::standard_spec(),
    {
        Settings {
            price_limit: 200,
            max_servings: 10,
            retention_num: 9,
            retention_den: 10,
            target_calories: 2250,
            calories_band: 200,
            target_carbs: 275,
            carbs_band: 25,
            target_fats: 50,
            fats_band: 10,
            target_proteins: 120,
            proteins_band: 20,
        }
    }

    /// The settings on their own admit a search.
    pub open spec fn valid(self) -> bool {
        &&& self.price_limit > 0
        &&& self.max_servings > 0
        &&& self.retention_den > 0
        &&& self.retention_num <= self.retention_den
        &&& self.target_calories > 0
        &&& self.target_carbs > 0
        &&& self.target_fats > 0
        &&& self.target_proteins > 0
    }

    /// The first error that these settings give on their own, if any.
    pub open spec fn error(self) -> Option<ConfigError> {
        if self.price_limit == 0 {
            Some(ConfigError::ZeroPriceLimit)
        } else if self.max_servings == 0 {
            Some(ConfigError::ZeroServingCap)
        } else if self.retention_den == 0 || self.retention_num > self.retention_den {
            Some(ConfigError::BadRetention)
        } else if self.target_calories == 0 || self.target_carbs == 0 || self.target_fats == 0
            || self.target_proteins == 0 {
            Some(ConfigError::ZeroTarget)
        } else {
            None
        }
    }

    pub fn check(&self) -> (r: Result<(), ConfigError>)
        ensures
            r.is_ok() <==> self.valid(),
            self.error() is None <==> self.valid(),
            r is Err ==> self.error() == Some(r->Err_0),
    {
        if self.price_limit == 0 {
            Err(ConfigError::ZeroPriceLimit)
        } else if self.max_servings == 0 {
            Err(ConfigError::ZeroServingCap)
        } else if self.retention_den == 0 || self.retention_num > self.retention_den {
            Err(ConfigError::BadRetention)
        } else if self.target_calories == 0 || self.target_carbs == 0 || self.target_fats == 0
            || self.target_proteins == 0 {
            Err(ConfigError::ZeroTarget)
        } else {
            Ok(())
        }
    }
}

/// `total / target` as a fixed-point number, rounded down.
pub open spec fn ratio(total: u64, target: u64) -> int {
    (total as int) * (FITNESS_SCALE as int) / (target as int)
}

/// The penalty for a total outside the band `target ± band`: the raw
/// distance from the target (not normalised), in fixed point. Inside the band
/// there is no penalty at all.
pub open spec fn penalty(total: u64, target: u64, band: u64) -> int {
    let d = total as int - target as int;
    if d < -(band as int) || d > band as int {
        (if d < 0 { -d } else { d }) * (FITNESS_SCALE as int)
    } else {
        0
    }
}

/// The sum of the four nutrient ratios, less the price ratio.
pub open spec fn base_score(t: Totals, s: Settings) -> int {
    ratio(t.calories, s.target_calories) + ratio(t.carbs, s.target_carbs) + ratio(t.fats, s.target_fats)
        + ratio(t.proteins, s.target_proteins) - ratio(t.price, s.price_limit)
}

/// The sum of the four nutrient penalties.
pub open spec fn penalties(t: Totals, s: Settings) -> int {
    penalty(t.calories, s.target_calories, s.calories_band) + penalty(t.carbs, s.target_carbs, s.carbs_band)
        + penalty(t.fats, s.target_fats, s.fats_band) + penalty(t.proteins, s.target_proteins, s.proteins_band)
}

/// The fitness of a diet with these totals.
pub open spec fn fitness(t: Totals, s: Settings) -> int {
    base_score(t, s) - penalties(t, s)
}

fn ratio_of(total: u64, target: u64) -> (r: i128)
    requires
        target > 0,
    ensures
        r == ratio(total, target),
        0 <= r <= (total as int) * (FITNESS_SCALE as int),
{
    assert(total as int * 1_000_000 <= 0xffff_ffff_ffff_ffff * 1_000_000) by (nonlinear_arith)
        requires total <= 0xffff_ffff_ffff_ffff;
    let scaled = total as u128 * FITNESS_SCALE as u128;
    proof {
        vstd::arithmetic::div_mod::lemma_div_is_ordered_by_denominator(scaled as int, 1, target as int);
        vstd::arithmetic::div_mod::lemma_div_pos_is_pos(scaled as int, target as int);
    }
    let q = scaled / target as u128;
    q as i128
}

fn penalty_of(total: u64, target: u64, band: u64) -> (r: i128)
    ensures
        r == penalty(total, target, band),
        0 <= r < 0x1_0000_0000_0000_0000 * (FITNESS_SCALE as int),
{
    let d = total as i128 - target as i128;
    if d < -(band as i128) || d > band as i128 {
        let a = if d < 0 { -d } else { d };
        assert(a * 1_000_000 < 0x1_0000_0000_0000_0000 * 1_000_000) by (nonlinear_arith)
            requires 0 <= a < 0x1_0000_0000_0000_0000;
        a * FITNESS_SCALE as i128
    } else {
        0
    }
}

/// The fitness of a diet with totals `t`: the normalised nutrient ratios less
/// the normalised price, less a raw-unit penalty for each nutrient outside
/// its band.
pub fn score(t: &Totals, s: &Settings) -> (r: i128)
    requires
        s.valid(),
    ensures
        r == fitness(*t, *s),
{
    let base = ratio_of(t.calories, s.target_calories) + ratio_of(t.carbs, s.target_carbs)
        + ratio_of(t.fats, s.target_fats) + ratio_of(t.proteins, s.target_proteins)
        - ratio_of(t.price, s.price_limit);
    let pen = penalty_of(t.calories, s.target_calories, s.calories_band)
        + penalty_of(t.carbs, s.target_carbs, s.carbs_band)
        + penalty_of(t.fats, s.target_fats, s.fats_band)
        + penalty_of(t.proteins, s.target_proteins, s.proteins_band);
    base - pen
}

} // verus!
