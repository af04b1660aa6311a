use diet_planning::{score, ConfigError, Settings, Totals, FITNESS_SCALE};

fn totals(price: u64, calories: u64, carbs: u64, fats: u64, proteins: u64) -> Totals {
    Totals { price, calories, carbs, fats, proteins }
}

#[test]
fn score_on_target_is_base_score_without_penalty() {
    let s = Settings::standard();
    // four ratios of exactly one, less 1/200 for the price
    assert_eq!(score(&totals(1, 2250, 275, 50, 120), &s), 4 * FITNESS_SCALE as i128 - 5_000);
}

#[test]
fn score_of_empty_diet_pays_raw_unit_penalties() {
    let s = Settings::standard();
    let expected = -((2250 + 275 + 50 + 120) as i128) * FITNESS_SCALE as i128;
    assert_eq!(score(&totals(0, 0, 0, 0, 0), &s), expected);
}

#[test]
fn score_penalty_starts_at_band_edge() {
    let s = Settings::standard();
    let inside = score(&totals(0, 2050, 275, 50, 120), &s);
    let outside = score(&totals(0, 2049, 275, 50, 120), &s);
    // 2050 / 2250 and 2049 / 2250 in fixed point, rounded down
    assert_eq!(inside, 911_111 + 3 * 1_000_000);
    assert_eq!(outside, 910_666 + 3 * 1_000_000 - 201 * 1_000_000);
}

#[test]
fn score_normalises_price_by_limit() {
    let s = Settings::standard();
    let cheap = score(&totals(100, 2250, 275, 50, 120), &s);
    assert_eq!(cheap, 4_000_000 - 500_000);
}

#[test]
fn settings_standard_values() {
    let s = Settings::standard();
    assert_eq!(s.price_limit, 200);
    assert_eq!(s.max_servings, 10);
    assert_eq!((s.retention_num, s.retention_den), (9, 10));
    assert_eq!((s.target_calories, s.calories_band), (2250, 200));
    assert_eq!((s.target_carbs, s.carbs_band), (275, 25));
    assert_eq!((s.target_fats, s.fats_band), (50, 10));
    assert_eq!((s.target_proteins, s.proteins_band), (120, 20));
    assert_eq!(s.check(), Ok(()));
}

#[test]
fn settings_errors() {
    let mut s = Settings::standard();
    s.price_limit = 0;
    assert_eq!(s.check(), Err(ConfigError::ZeroPriceLimit));
    let mut s = Settings::standard();
    s.max_servings = 0;
    assert_eq!(s.check(), Err(ConfigError::ZeroServingCap));
    let mut s = Settings::standard();
    s.retention_num = 11;
    assert_eq!(s.check(), Err(ConfigError::BadRetention));
    let mut s = Settings::standard();
    s.retention_den = 0;
    assert_eq!(s.check(), Err(ConfigError::BadRetention));
    let mut s = Settings::standard();
    s.target_fats = 0;
    assert_eq!(s.check(), Err(ConfigError::ZeroTarget));
}
