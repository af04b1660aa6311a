//! Diet planning by ant colony optimisation: a catalog of dishes, a scoring
//! function over accumulated nutrition totals, ants that build candidate diets
//! guided by pheromone weights, and a colony that reinforces good diets. A
//! genetic formulation of the same problem contributes its fitness, its
//! phenotype and its inversion operator.
//!
//! All quantities are integers. Fitness values are fixed-point numbers in
//! units of `1 / FITNESS_SCALE`, pheromone weights in units of
//! `1 / PHEROMONE_UNIT`.

mod random;

pub mod ant;
pub mod colony;
pub mod diet;
pub mod dish;
pub mod fitness;
pub mod pheromone;

pub use ant::{pick_dish, Ant, DishCount};
pub use colony::{best_index, AntColony};
pub use diet::{as_diet, invert, Diet, Problem, Selection};
pub use dish::{get_dishes, Dish};
pub use fitness::{score, ConfigError, Settings, Totals, FITNESS_SCALE};
pub use pheromone::{deposit_amount, evaporate, lay, PHEROMONE_UNIT};
