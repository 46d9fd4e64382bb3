pub mod models;
pub mod repositories;
pub mod lookup;
