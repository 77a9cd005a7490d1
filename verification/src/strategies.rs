pub mod full_search_strategy;
pub mod random_strategy;
