use vstd::prelude::*;

verus! {

/// A Discord account as the bot stores it.
pub struct Account {
    pub id: Option<u64>,
    pub discord_id: i64,
    pub username: String,
    pub discriminator: String,
    pub global_name: String,
}

/// An account as the bot reports it back.
pub struct AccountResponse {
    pub discord_id: i64,
    pub username: String,
    pub discriminator: String,
    pub global_name: String,
}

} // verus!
