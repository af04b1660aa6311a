use diet_planning::colony::deposit;
use diet_planning::DishCount;
use diet_planning::{best_index, get_dishes, Ant, AntColony, ConfigError, Dish, Settings, Totals};

fn non_decreasing(v: &[i128]) -> bool {
    v.windows(2).all(|p| p[0] <= p[1])
}

fn exact_dish() -> Vec<Dish> {
    vec![Dish { name: "complete meal".to_string(), calories: 2250, price: 1, carbs: 275, fats: 50, proteins: 120 }]
}

#[test]
fn configuration_errors_are_reported_before_running() {
    assert_eq!(AntColony::new(vec![], 10, 0).err(), Some(ConfigError::EmptyCatalog));
    assert_eq!(AntColony::new(get_dishes(), 0, 0).err(), Some(ConfigError::NoAnts));
    let mut s = Settings::standard();
    s.price_limit = 0;
    assert_eq!(AntColony::with_settings(get_dishes(), 10, s, 0).err(), Some(ConfigError::ZeroPriceLimit));
    let mut s = Settings::standard();
    s.max_servings = 1usize << 32;
    assert_eq!(AntColony::with_settings(exact_dish(), 10, s, 0).err(), Some(ConfigError::TooManySteps));
    let mut colony = AntColony::new(get_dishes(), 3, 0).unwrap();
    assert_eq!(colony.run(0), Err(ConfigError::NoIterations));
}

#[test]
fn new_colony_starts_with_unit_pheromone() {
    let colony = AntColony::new(get_dishes(), 4, 9).unwrap();
    assert_eq!(colony.pheromone, vec![1_000_000u64; 15]);
    assert_eq!(colony.ants.len(), 4);
    assert!(colony.best_ant.is_none());
    assert!(colony.best_path.is_empty());
    assert_eq!(colony.best_fitness(), None);
}

#[test]
fn best_fitness_sequence_never_decreases() {
    let mut colony = AntColony::new(get_dishes(), 20, 42).unwrap();
    let fitnesses = colony.run(30).unwrap();
    assert_eq!(fitnesses.len(), 30);
    assert!(non_decreasing(&fitnesses));
    assert_eq!(colony.best_fitness(), Some(fitnesses[29]));
    let more = colony.run(10).unwrap();
    assert!(more[0] >= fitnesses[29]);
    assert!(non_decreasing(&more));
}

#[test]
fn standard_catalog_run_gives_sound_best_diet() {
    let mut colony = AntColony::new(get_dishes(), 1000, 2024).unwrap();
    let fitnesses = colony.run(3).unwrap();
    assert_eq!(fitnesses.len(), 3);
    let diet = colony.best_diet();
    assert!(!diet.is_empty());
    let totals = colony.best_totals().unwrap();
    assert!(totals.price <= 200 + 65);
    let mut price = 0u64;
    for (k, e) in colony.best_path.iter().enumerate() {
        assert_eq!(diet[k].0, colony.dishes[e.dish].name);
        assert_eq!(diet[k].1, e.count);
        price += colony.dishes[e.dish].price as u64 * e.count as u64;
    }
    assert_eq!(price, totals.price);
    assert_eq!(colony.best_fitness(), Some(diet_planning::score(&totals, &colony.settings)));
}

#[test]
fn single_exact_dish_reaches_base_score() {
    let mut s = Settings::standard();
    s.max_servings = 1;
    let mut colony = AntColony::with_settings(exact_dish(), 5, s, 11).unwrap();
    let fitnesses = colony.run(7).unwrap();
    assert!(fitnesses.iter().all(|&f| f == 4_000_000 - 5_000));
    assert_eq!(
        colony.best_totals(),
        Some(Totals { price: 1, calories: 2250, carbs: 275, fats: 50, proteins: 120 })
    );
}

#[test]
fn same_seed_gives_same_run() {
    let mut a = AntColony::new(get_dishes(), 30, 77).unwrap();
    let mut b = AntColony::new(get_dishes(), 30, 77).unwrap();
    let fa = a.run(15).unwrap();
    let fb = b.run(15).unwrap();
    assert_eq!(fa, fb);
    assert_eq!(a.best_path, b.best_path);
    assert_eq!(a.pheromone, b.pheromone);
}

#[test]
fn pheromone_update_evaporates_unused_dishes() {
    let mut colony = AntColony::new(get_dishes(), 5, 5).unwrap();
    colony.run(1).unwrap();
    let used: Vec<bool> = (0..15)
        .map(|d| colony.ants.iter().any(|a| a.path_cost > 0 && a.path.iter().any(|e| e.dish == d)))
        .collect();
    let before = colony.pheromone.clone();
    colony.update_pheromones();
    for d in 0..15 {
        let evaporated = before[d] * 9 / 10;
        assert!(colony.pheromone[d] >= evaporated);
        if !used[d] {
            assert_eq!(colony.pheromone[d], evaporated);
        }
    }
}

#[test]
fn best_index_takes_first_maximum() {
    let costs = [1i128, 5, 5, 2];
    let ants: Vec<Ant> = costs
        .iter()
        .map(|&c| {
            let mut a = Ant::new();
            a.path_cost = c;
            a
        })
        .collect();
    assert_eq!(best_index(&ants), 1);
}

fn ant_with(path: Vec<diet_planning::DishCount>, cost: i128) -> Ant {
    let mut a = Ant::new();
    a.steps = path.iter().map(|e| e.count).sum();
    a.path = path;
    a.path_cost = cost;
    a
}

#[test]
fn deposit_lays_inverse_fitness_for_ants_under_their_draw() {
    let ants = vec![
        ant_with(vec![DishCount { dish: 0, count: 3 }, DishCount { dish: 2, count: 1 }], 2_000_000),
        ant_with(vec![DishCount { dish: 1, count: 1 }], 4_000_000),
        ant_with(vec![DishCount { dish: 2, count: 5 }], 1_000_000),
        ant_with(vec![DishCount { dish: 1, count: 2 }], -5),
    ];
    let mut w = vec![100, 100, 100];
    // the third ant draws above its fitness and lays nothing; the last has negative fitness
    deposit(&mut w, &ants, &vec![1_999_999, 0, 1_000_000, 0]);
    assert_eq!(w, vec![100 + 500_000, 100 + 250_000, 100 + 500_000]);
}

#[test]
fn fresh_colony_update_only_evaporates() {
    let mut colony = AntColony::new(get_dishes(), 3, 1).unwrap();
    colony.update_pheromones();
    assert_eq!(colony.pheromone, vec![900_000u64; 15]);
}

#[test]
fn best_is_replaced_only_on_strict_improvement() {
    let dishes = vec![
        Dish { name: "a".to_string(), calories: 1, price: 300, carbs: 0, fats: 0, proteins: 0 },
        Dish { name: "b".to_string(), calories: 1, price: 300, carbs: 0, fats: 0, proteins: 0 },
    ];
    let s = Settings::standard();
    let mut colony = AntColony::with_settings(dishes, 2, s, 0).unwrap();
    let build = |d: usize| {
        let mut a = Ant::new();
        a.path = vec![DishCount { dish: d, count: 1 }];
        a.steps = 1;
        a.totals = Totals { price: 300, calories: 1, carbs: 0, fats: 0, proteins: 0 };
        a.path_cost = diet_planning::score(&a.totals, &s);
        a
    };
    colony.ants = vec![build(0), build(1)];
    colony.update_best();
    assert_eq!(colony.best_path, vec![DishCount { dish: 0, count: 1 }]);
    colony.ants = vec![build(1), build(1)];
    colony.update_best();
    assert_eq!(colony.best_path, vec![DishCount { dish: 0, count: 1 }]);
}
