use diet_planning::{deposit_amount, evaporate, lay, DishCount, PHEROMONE_UNIT};

#[test]
fn evaporation_multiplies_each_weight_by_retention() {
    let mut w = vec![PHEROMONE_UNIT, 7, 0, u64::MAX];
    evaporate(&mut w, 9, 10);
    let expected_max = ((u64::MAX as u128) * 9 / 10) as u64;
    assert_eq!(w, vec![900_000, 6, 0, expected_max]);
}

#[test]
fn evaporation_with_full_retention_keeps_weights() {
    let mut w = vec![3, 5, 8];
    evaporate(&mut w, 4, 4);
    assert_eq!(w, vec![3, 5, 8]);
}

#[test]
fn deposit_is_inverse_fitness() {
    assert_eq!(deposit_amount(1_000_000), 1_000_000);
    assert_eq!(deposit_amount(4_000_000), 250_000);
    assert_eq!(deposit_amount(1), 1_000_000_000_000);
}

#[test]
fn lay_adds_once_per_dish_regardless_of_servings() {
    let mut w = vec![10, 20, 30];
    let path = vec![DishCount { dish: 2, count: 3 }, DishCount { dish: 0, count: 1 }];
    lay(&mut w, &path, 5);
    assert_eq!(w, vec![15, 20, 35]);
}

#[test]
fn lay_saturates() {
    let mut w = vec![u64::MAX - 1];
    lay(&mut w, &vec![DishCount { dish: 0, count: 2 }], 5);
    assert_eq!(w, vec![u64::MAX]);
}
