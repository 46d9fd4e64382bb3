//! The decisions the bot takes on Discord events.
use vstd::prelude::*;

use crate::db::models::guild_configuration::GuildConfiguration;

verus! {

/// The bot's own user id.
pub const BOT_USER_ID: u64 = 1175543083799154708;

/// Whether a message is looked at: not when the bot wrote it itself, and
/// not when it was sent outside a guild.
pub fn should_handle_message(author_id: u64, guild_id: Option<u64>) -> (r: bool)
    ensures
        r == (author_id != BOT_USER_ID && guild_id is Some),
{
    author_id != BOT_USER_ID && guild_id.is_some()
}

/// The settings a guild gets when the bot first sees it: its name and id,
/// the default prefix, active, and no roll channel.
pub fn guild_configuration_for(name: &str, guild_id: u64, default_prefix: &str) -> (r: GuildConfiguration)
    ensures
        r.guild_id == guild_id as i64,
        r.roll_channel is None,
        r.name@ == name@,
        r.prefix@ == default_prefix@,
        r.is_active,
{
    GuildConfiguration::new(name, guild_id as i64).set_prefix(default_prefix)
}

/// What to do when the bot joins or sees a guild again.
#[derive(Debug, PartialEq, Eq, Structural)]
pub enum GuildSetup {
    /// The guild's settings exist and are active.
    Keep,
    /// The guild's settings exist but were deactivated: activate them.
    Activate,
    /// The guild has no settings: create them.
    Create,
}

/// The step to take given the stored settings of a guild, if any.
pub fn guild_setup_step(stored: &Option<GuildConfiguration>) -> (r: GuildSetup)
    ensures
        match stored {
            Some(config) => r == (if config.is_active {
                GuildSetup::Keep
            } else {
                GuildSetup::Activate
            }),
            None => r == GuildSetup::Create,
        },
{
    match stored {
        Some(config) => if config.is_active {
            GuildSetup::Keep
        } else {
            GuildSetup::Activate
        },
        None => GuildSetup::Create,
    }
}

/// The guild to deactivate when the bot leaves one: the full guild's id
/// where Discord sent it, otherwise the id of the unavailable guild.
pub fn deactivation_target(unavailable_id: u64, full_id: Option<u64>) -> (r: u64)
    ensures
        r == match full_id {
            Some(id) => id,
            None => unavailable_id,
        },
{
    match full_id {
        Some(id) => id,
        None => unavailable_id,
    }
}

} // verus!
