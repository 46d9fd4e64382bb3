use crown_bot::commands::mudae::roll_channel::{answer_for, get_answer, ChannelAnswer};
use crown_bot::config::Config;
use crown_bot::db::models::guild_configuration::GuildConfiguration;
use crown_bot::events::{
    deactivation_target, guild_configuration_for, guild_setup_step, should_handle_message,
    GuildSetup, BOT_USER_ID,
};

#[test]
fn messages_of_the_bot_and_outside_guilds_are_ignored() {
    assert!(!should_handle_message(BOT_USER_ID, Some(1)));
    assert!(!should_handle_message(42, None));
    assert!(should_handle_message(42, Some(1)));
}

#[test]
fn new_guild_gets_default_prefix() {
    let config = guild_configuration_for("Guild", 9_000_000_000_000_000_000, "$$");
    assert_eq!(config.guild_id, 9_000_000_000_000_000_000u64 as i64);
    assert_eq!(config.prefix, "$$");
    assert_eq!(config.name, "Guild");
    assert!(config.is_active);
    assert_eq!(config.roll_channel, None);
}

#[test]
fn guild_setup_steps() {
    assert_eq!(guild_setup_step(&None), GuildSetup::Create);
    let active = GuildConfiguration::new("g", 1);
    assert_eq!(guild_setup_step(&Some(active)), GuildSetup::Keep);
    let mut inactive = GuildConfiguration::new("g", 1);
    inactive.is_active = false;
    assert_eq!(guild_setup_step(&Some(inactive)), GuildSetup::Activate);
}

#[test]
fn deactivation_prefers_full_guild() {
    assert_eq!(deactivation_target(1, Some(2)), 2);
    assert_eq!(deactivation_target(1, None), 1);
}

#[test]
fn answers_are_read_case_insensitively() {
    assert_eq!(get_answer("Y", 5), ChannelAnswer::UseChannel(5));
    assert_eq!(get_answer("YES", 5), ChannelAnswer::UseChannel(5));
    assert_eq!(get_answer("No", 5), ChannelAnswer::Stop);
    assert_eq!(get_answer("n", 5), ChannelAnswer::Stop);
    assert_eq!(get_answer("yes please", 5), ChannelAnswer::Unrecognized);
    assert_eq!(answer_for("Y", 5), ChannelAnswer::Unrecognized);
    assert_eq!(answer_for("y", 5), ChannelAnswer::UseChannel(5));
}

#[test]
fn config_getters_return_what_it_was_made_with() {
    let config = Config::new("token".into(), "$$".into(), "sqlite://db".into());
    assert_eq!(config.token(), "token");
    assert_eq!(config.default_prefix(), "$$");
    assert_eq!(config.db_url(), "sqlite://db");
}
