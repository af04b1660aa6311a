use diet_planning::{as_diet, get_dishes, invert, Problem};

#[test]
fn fitness_of_empty_genome() {
    let dishes = get_dishes();
    let problem = Problem::new(2250, 275, 50, 120, &dishes);
    assert_eq!(problem.fitness_of(&vec![0; 15]), 9_999_999 - 4 * 99_999);
}

#[test]
fn fitness_of_one_potato() {
    let dishes = get_dishes();
    let problem = Problem::new(2250, 275, 50, 120, &dishes);
    let mut genome = vec![0u32; 15];
    genome[0] = 1;
    // price 2 squared is subtracted; 66 + 15 + 0 + 2 added
    assert_eq!(problem.fitness_of(&genome), 9_999_999 - 4 * 99_999 - 4 + 83);
}

#[test]
fn fitness_within_bands_has_no_penalty() {
    let dishes = get_dishes();
    let problem = Problem::new(66, 15, 0, 2, &dishes);
    let mut genome = vec![0u32; 15];
    genome[0] = 1;
    assert_eq!(problem.fitness_of(&genome), 9_999_999 - 4 + 83);
}

#[test]
fn genome_as_diet() {
    let dishes = get_dishes();
    let diet = as_diet(&vec![2, 0, 1], &dishes);
    assert_eq!(diet.dishes.len(), 2);
    assert_eq!(diet.dishes[0].0.name, "potatoes, 100g");
    assert_eq!(diet.dishes[0].1, 2);
    assert_eq!(diet.dishes[1].0.name, "chicken breast, 100g");
    assert_eq!(diet.dishes[1].1, 1);
    assert_eq!(diet.total_calories, 2 * 66 + 165);
    assert_eq!(diet.price, 2 * 2 + 35);
    assert_eq!(diet.total_carbs, 30);
    assert_eq!(diet.total_fats, 3);
    assert_eq!(diet.total_proteins, 4 + 31);
}

#[test]
fn inversion_reverses_segment() {
    assert_eq!(invert(&vec![1, 2, 3, 4, 5], 1, 3), vec![1, 4, 3, 2, 5]);
    assert_eq!(invert(&vec![1, 2, 3], 0, 2), vec![3, 2, 1]);
    assert_eq!(invert(&vec![7, 8], 1, 1), vec![7, 8]);
}

#[test]
fn checked_fitness_rejects_overflow() {
    let dishes = vec![diet_planning::Dish {
        name: "caviar".to_string(),
        calories: 1,
        price: 4_000_000_000,
        carbs: 0,
        fats: 0,
        proteins: 0,
    }];
    let problem = Problem::new(2250, 275, 50, 120, &dishes);
    assert_eq!(problem.checked_fitness_of(&vec![1]), None);
    assert_eq!(problem.checked_fitness_of(&vec![0]), Some(9_999_999 - 4 * 99_999));
}

#[test]
fn genome_as_diet_single_dish() {
    let dishes = get_dishes();
    let diet = as_diet(&vec![0, 2], &dishes);
    assert_eq!(diet.dishes.len(), 1);
    assert_eq!(diet.dishes[0].0.name, "brown rice, 100g");
    assert_eq!(diet.dishes[0].1, 2);
    assert_eq!((diet.total_calories, diet.price, diet.total_carbs, diet.total_fats, diet.total_proteins), (222, 10, 46, 2, 4));
}
