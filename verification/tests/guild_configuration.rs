use crown_bot::db::models::guild_configuration::GuildConfiguration;
use crown_bot::db::models::roll::EmbedRoll;

#[test]
fn test_new() {
    let name = "TestGuild";
    let guild_id: i64 = 123;

    let config = GuildConfiguration::new(name, guild_id);

    assert_eq!(config.guild_id, guild_id);
    assert_eq!(config.roll_channel, None, "roll_channel should be None");
    assert_eq!(config.name, name.to_string(), "name should match");
    assert_eq!(config.prefix, String::default(), "prefix should be default");
    assert!(config.is_active, "is_active should be true");
}

#[test]
fn set_prefix_changes_only_the_prefix() {
    let config = GuildConfiguration::new("Guild", -5).set_prefix("$$");
    assert_eq!(config.prefix, "$$");
    assert_eq!(config.guild_id, -5);
    assert_eq!(config.name, "Guild");
    assert_eq!(config.roll_channel, None);
    assert!(config.is_active);
}

#[test]
fn embed_roll_new_keeps_fields() {
    let roll = EmbedRoll::new("Rem".into(), "Re:Zero".into(), "https://x".into());
    assert_eq!(roll.name, "Rem");
    assert_eq!(roll.serie, "Re:Zero");
    assert_eq!(roll.url, "https://x");
}
