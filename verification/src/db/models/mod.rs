pub mod account;
pub mod character;
pub mod guild_configuration;
pub mod roll;
pub mod serie;
