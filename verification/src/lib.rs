pub mod commands;
pub mod config;
pub mod constants;
pub mod db;
pub mod events;
pub mod maps;
pub mod text;
pub mod utils;
