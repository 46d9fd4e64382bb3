//! The settings the bot starts with.
use vstd::prelude::*;

verus! {

#[derive(Debug)]
struct DatabaseConfig {
    url: String,
}

#[derive(Debug)]
struct BotConfig {
    token: String,
    default_prefix: String,
}

/// The bot's token and default prefix, and where its database lives.
#[derive(Debug)]
pub struct Config {
    bot: BotConfig,
    db: DatabaseConfig,
}

impl Config {
    /// The database URL.
    pub closed spec fn spec_db_url(&self) -> Seq<char> {
        self.db.url@
    }

    /// The Discord token.
    pub closed spec fn spec_token(&self) -> Seq<char> {
        self.bot.token@
    }

    /// The prefix of guilds that set none.
    pub closed spec fn spec_default_prefix(&self) -> Seq<char> {
        self.bot.default_prefix@
    }

    /// The settings made of the values read from the environment.
    pub fn new(token: String, default_prefix: String, db_url: String) -> (r: Config)
        ensures
            r.spec_token() == token@,
            r.spec_default_prefix() == default_prefix@,
            r.spec_db_url() == db_url@,
    {
        Config { bot: BotConfig { token, default_prefix }, db: DatabaseConfig { url: db_url } }
    }

    pub fn db_url(&self) -> (r: &str)
        ensures
            r@ == self.spec_db_url(),
    {
        self.db.url.as_str()
    }

    pub fn token(&self) -> (r: &str)
        ensures
            r@ == self.spec_token(),
    {
        self.bot.token.as_str()
    }

    pub fn default_prefix(&self) -> (r: &str)
        ensures
            r@ == self.spec_default_prefix(),
    {
        self.bot.default_prefix.as_str()
    }
}

} // verus!
