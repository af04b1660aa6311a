use diet_planning::{get_dishes, pick_dish, Ant, Dish, DishCount, Settings};
use rand::rngs::StdRng;
use rand::SeedableRng;

fn one_dish(calories: u32, price: u32, carbs: u32, fats: u32, proteins: u32) -> Vec<Dish> {
    vec![Dish { name: "only".to_string(), calories, price, carbs, fats, proteins }]
}

#[test]
fn catalog_has_fifteen_dishes() {
    let d = get_dishes();
    assert_eq!(d.len(), 15);
    assert_eq!(d[0].name, "potatoes, 100g");
    assert_eq!((d[0].calories, d[0].price, d[0].carbs, d[0].fats, d[0].proteins), (66, 2, 15, 0, 2));
    assert_eq!(d[14].name, "apple");
    assert_eq!((d[14].calories, d[14].price, d[14].carbs, d[14].fats, d[14].proteins), (52, 12, 14, 0, 0));
    assert_eq!(d[3].price, 65);
}

#[test]
fn roulette_pick_follows_cumulative_weights() {
    let w = vec![1, 2, 3];
    let empty: Vec<DishCount> = vec![];
    assert_eq!(pick_dish(&empty, &w, 10, 0), 0);
    assert_eq!(pick_dish(&empty, &w, 10, 1), 1);
    assert_eq!(pick_dish(&empty, &w, 10, 2), 1);
    assert_eq!(pick_dish(&empty, &w, 10, 3), 2);
    assert_eq!(pick_dish(&empty, &w, 10, 5), 2);
}

#[test]
fn roulette_pick_skips_full_dishes() {
    let w = vec![1, 2, 3];
    let path = vec![DishCount { dish: 1, count: 10 }];
    assert_eq!(pick_dish(&path, &w, 10, 0), 0);
    assert_eq!(pick_dish(&path, &w, 10, 1), 2);
    assert_eq!(pick_dish(&path, &w, 10, 3), 2);
}

#[test]
fn roulette_pick_never_takes_zero_weight() {
    let w = vec![0, 4, 0, 1];
    let empty: Vec<DishCount> = vec![];
    assert_eq!(pick_dish(&empty, &w, 10, 0), 1);
    assert_eq!(pick_dish(&empty, &w, 10, 3), 1);
    assert_eq!(pick_dish(&empty, &w, 10, 4), 3);
}

#[test]
fn zero_weights_pick_uniformly_among_eligible() {
    let w = vec![0, 0, 0];
    let path = vec![DishCount { dish: 0, count: 2 }];
    assert_eq!(pick_dish(&path, &w, 2, 0), 1);
    assert_eq!(pick_dish(&path, &w, 2, 1), 2);
    let empty: Vec<DishCount> = vec![];
    assert_eq!(pick_dish(&empty, &w, 2, 0), 0);
}

#[test]
fn single_dish_zero_pheromone_selection_does_not_fail() {
    let dishes = one_dish(100, 10, 10, 10, 10);
    let weights = vec![0];
    let mut rng = StdRng::seed_from_u64(1);
    let ant = Ant::new();
    assert_eq!(ant.select_next_dish(&weights, 10, &mut rng), 0);
    let mut ant = Ant::new();
    ant.construct_path(&dishes, &weights, &Settings::standard(), &mut rng);
    assert_eq!(ant.path, vec![DishCount { dish: 0, count: 10 }]);
    assert_eq!(ant.steps, 10);
}

#[test]
fn constructed_path_respects_caps_and_budget() {
    let dishes = get_dishes();
    let s = Settings::standard();
    let weights = vec![1_000_000u64; dishes.len()];
    for seed in 0..50u64 {
        let mut rng = StdRng::seed_from_u64(seed);
        let mut ant = Ant::new();
        ant.construct_path(&dishes, &weights, &s, &mut rng);
        assert!(!ant.path.is_empty());
        assert!(ant.steps <= dishes.len() * 10);
        let mut seen = vec![false; dishes.len()];
        let mut steps = 0;
        let mut price = 0u64;
        for e in &ant.path {
            assert!(e.count >= 1 && e.count <= 10);
            assert!(!seen[e.dish]);
            seen[e.dish] = true;
            steps += e.count;
            price += dishes[e.dish].price as u64 * e.count as u64;
        }
        assert_eq!(steps, ant.steps);
        assert_eq!(price, ant.totals.price);
        assert!(ant.totals.price > 200);
        assert!(ant.totals.price <= 200 + 65);
        assert_eq!(ant.path_cost, diet_planning::score(&ant.totals, &s));
    }
}

#[test]
fn free_dishes_stop_at_step_bound() {
    let dishes = vec![
        Dish { name: "water".to_string(), calories: 0, price: 0, carbs: 0, fats: 0, proteins: 0 },
        Dish { name: "salt".to_string(), calories: 0, price: 0, carbs: 0, fats: 0, proteins: 0 },
    ];
    let mut rng = StdRng::seed_from_u64(3);
    let mut ant = Ant::new();
    ant.construct_path(&dishes, &vec![5, 1], &Settings::standard(), &mut rng);
    assert_eq!(ant.steps, 20);
    let mut counts: Vec<usize> = ant.path.iter().map(|e| e.count).collect();
    counts.sort();
    assert_eq!(counts, vec![10, 10]);
}

#[test]
fn catalog_names_are_distinct() {
    let d = get_dishes();
    for i in 0..d.len() {
        for j in 0..i {
            assert_ne!(d[i].name, d[j].name);
        }
    }
    assert_eq!(d[1].name, "brown rice, 100g");
}
