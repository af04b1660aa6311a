use vstd::prelude::*;

verus! {

/// One catalog entry: a dish with its price (in the smallest currency unit)
/// and its nutrition content.
#[derive(Debug, Clone)]
pub struct Dish {
    pub name: String,
    pub calories: u32,
    pub price: u32,
    pub carbs: u32,
    pub fats: u32,
    pub proteins: u32,
}

impl Dish {
    /// The numbers of a dish: `(calories, price, carbs, fats, proteins)`.
    pub open spec fn numbers(self) -> (u32, u32, u32, u32, u32) {
        (self.calories, self.price, self.carbs, self.fats, self.proteins)
    }
}

impl Dish {
    /// A copy of the dish.
    pub fn copy(&self) -> (r: Dish)
        ensures
            r == *self,
    {
        Dish {
            name: self.name.clone(),
            calories: self.calories,
            price: self.price,
            carbs: self.carbs,
            fats: self.fats,
            proteins: self.proteins,
        }
    }
}

/// The numbers of the standard catalog, by position:
/// `(calories, price, carbs, fats, proteins)`.
pub open spec fn standard_numbers(i: int) -> (u32, u32, u32, u32, u32) {
    if i == 0 { (66, 2, 15, 0, 2) }
    else if i == 1 { (111, 5, 23, 1, 2) }
    else if i == 2 { (165, 35, 0, 3, 31) }
    else if i == 3 { (206, 65, 0, 13, 22) }
    else if i == 4 { (23, 5, 3, 0, 3) }
    else if i == 5 { (34, 5, 7, 0, 3) }
    else if i == 6 { (41, 3, 10, 0, 1) }
    else if i == 7 { (86, 4, 20, 0, 1) }
    else if i == 8 { (68, 4, 12, 1, 2) }
    else if i == 9 { (78, 3, 0, 5, 6) }
    else if i == 10 { (232, 25, 8, 10, 28) }
    else if i == 11 { (120, 12, 16, 2, 6) }
    else if i == 12 { (150, 45, 0, 2, 33) }
    else if i == 13 { (360, 25, 60, 6, 20) }
    else { (52, 12, 14, 0, 0) }
}

/// The names of the standard catalog, by position.
pub open spec fn standard_name(i: int) -> Seq<char> {
    if i == 0 { "potatoes, 100g"@ }
    else if i == 1 { "brown rice, 100g"@ }
    else if i == 2 { "chicken breast, 100g"@ }
    else if i == 3 { "salmon fillet, 100g"@ }
    else if i == 4 { "spinach, 100g"@ }
    else if i == 5 { "broccoli, 100g"@ }
    else if i == 6 { "carrots, 100g"@ }
    else if i == 7 { "sweet potato, 100g"@ }
    else if i == 8 { "oatmeal, per serving (40g)"@ }
    else if i == 9 { "eggs, per piece"@ }
    else if i == 10 { "cottage cheese, per serving (200g)"@ }
    else if i == 11 { "yogurt, per serving (200g)"@ }
    else if i == 12 { "tuna can, drained (150g)"@ }
    else if i == 13 { "chickpeas can, drained (240g)"@ }
    else { "apple"@ }
}

/// No two dishes of the standard catalog share a name.
pub proof fn lemma_standard_names_distinct()
    ensures
        forall|i: int, j: int| 0 <= i < 15 && 0 <= j < 15 && i != j ==> #[trigger] standard_name(i) != #[trigger] standard_name(j),
{
    reveal_strlit("potatoes, 100g");
    reveal_strlit("brown rice, 100g");
    reveal_strlit("chicken breast, 100g");
    reveal_strlit("salmon fillet, 100g");
    reveal_strlit("spinach, 100g");
    reveal_strlit("broccoli, 100g");
    reveal_strlit("carrots, 100g");
    reveal_strlit("sweet potato, 100g");
    reveal_strlit("oatmeal, per serving (40g)");
    reveal_strlit("eggs, per piece");
    reveal_strlit("cottage cheese, per serving (200g)");
    reveal_strlit("yogurt, per serving (200g)");
    reveal_strlit("tuna can, drained (150g)");
    reveal_strlit("chickpeas can, drained (240g)");
    reveal_strlit("apple");
    assert forall|i: int, j: int| 0 <= i < 15 && 0 <= j < 15 && i != j implies #[trigger] standard_name(i) != #[trigger] standard_name(j) by {
        assert(standard_name(i).len() != standard_name(j).len() || standard_name(i)[0] != standard_name(j)[0]
            || standard_name(i)[1] != standard_name(j)[1] || standard_name(i)[2] != standard_name(j)[2]
            || standard_name(i)[3] != standard_name(j)[3]);
    }
}

fn dish(name: &str, calories: u32, price: u32, carbs: u32, fats: u32, proteins: u32) -> (r: Dish)
    ensures
        r.numbers() == (calories, price, carbs, fats, proteins),
        r.name@ == name@,
{
    Dish { name: name.to_owned(), calories, price, carbs, fats, proteins }
}

/// The standard catalog of fifteen dishes; prices are in tenths of a zloty.
pub fn get_dishes() -> (r: Vec<Dish>)
    ensures
        r@.len() == 15,
        forall|i: int| 0 <= i < 15 ==> #[trigger] r@[i].numbers() == standard_numbers(i),
        forall|i: int| 0 <= i < 15 ==> #[trigger] r@[i].name@ == standard_name(i),
{
    let r = vec![
        dish("potatoes, 100g", 66, 2, 15, 0, 2),
        dish("brown rice, 100g", 111, 5, 23, 1, 2),
        dish("chicken breast, 100g", 165, 35, 0, 3, 31),
        dish("salmon fillet, 100g", 206, 65, 0, 13, 22),
        dish("spinach, 100g", 23, 5, 3, 0, 3),
        dish("broccoli, 100g", 34, 5, 7, 0, 3),
        dish("carrots, 100g", 41, 3, 10, 0, 1),
        dish("sweet potato, 100g", 86, 4, 20, 0, 1),
        dish("oatmeal, per serving (40g)", 68, 4, 12, 1, 2),
        dish("eggs, per piece", 78, 3, 0, 5, 6),
        dish("cottage cheese, per serving (200g)", 232, 25, 8, 10, 28),
        dish("yogurt, per serving (200g)", 120, 12, 16, 2, 6),
        dish("tuna can, drained (150g)", 150, 45, 0, 2, 33),
        dish("chickpeas can, drained (240g)", 360, 25, 60, 6, 20),
        dish("apple", 52, 12, 14, 0, 0),
    ];
    proof {
        assert forall|i: int| 0 <= i < 15 implies #[trigger] r@[i].numbers() == standard_numbers(i) by {
        }
        assert forall|i: int| 0 <= i < 15 implies #[trigger] r@[i].name@ == standard_name(i) by {
        }
    }
    r
}

} // verus!
