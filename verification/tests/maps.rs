use crown_bot::db::models::guild_configuration::GuildConfiguration;
use crown_bot::maps::{
    dynamic_prefix, finish_roll_channel_update, is_roll_channel, prefixes_from_rows, record_guild_prefix, record_roll_channel,
    roll_channels_from_rows, PrefixRow, RollChannelRow,
};

#[test]
fn prefixes_load_with_later_rows_winning() {
    let rows = vec![
        PrefixRow { guild_id: 1, prefix: "!".into() },
        PrefixRow { guild_id: 2, prefix: "?".into() },
        PrefixRow { guild_id: 1, prefix: "$".into() },
    ];
    let map = prefixes_from_rows(&rows);
    assert_eq!(map.len(), 2);
    assert_eq!(dynamic_prefix(&map, "%", Some(1)), "$");
    assert_eq!(dynamic_prefix(&map, "%", Some(2)), "?");
    assert_eq!(dynamic_prefix(&map, "%", Some(3)), "%");
    assert_eq!(dynamic_prefix(&map, "%", None), "%");
}

#[test]
fn negative_guild_ids_load_as_u64() {
    let rows = vec![PrefixRow { guild_id: -1, prefix: "x".into() }];
    let map = prefixes_from_rows(&rows);
    assert_eq!(dynamic_prefix(&map, "%", Some(u64::MAX)), "x");
}

#[test]
fn recorded_prefix_is_read_back() {
    let mut map = prefixes_from_rows(&Vec::new());
    assert_eq!(dynamic_prefix(&map, "$$", Some(10)), "$$");
    record_guild_prefix(&mut map, GuildConfiguration::new("G", 10).set_prefix("!!"));
    assert_eq!(dynamic_prefix(&map, "$$", Some(10)), "!!");
    assert_eq!(dynamic_prefix(&map, "$$", Some(11)), "$$");
}

#[test]
fn roll_channels_skip_rows_without_channel() {
    let rows = vec![
        RollChannelRow { guild_id: 1, roll_channel: Some(100) },
        RollChannelRow { guild_id: 2, roll_channel: None },
        RollChannelRow { guild_id: 3, roll_channel: Some(300) },
    ];
    let map = roll_channels_from_rows(&rows);
    assert_eq!(map.len(), 2);
    assert!(is_roll_channel(&map, 1, 100));
    assert!(!is_roll_channel(&map, 1, 300));
    assert!(!is_roll_channel(&map, 2, 100));
    assert!(is_roll_channel(&map, 3, 300));
}

#[test]
fn recorded_roll_channel_replaces_old_one() {
    let mut map = roll_channels_from_rows(&vec![RollChannelRow { guild_id: 1, roll_channel: Some(5) }]);
    record_roll_channel(&mut map, 1, 6);
    assert!(is_roll_channel(&map, 1, 6));
    assert!(!is_roll_channel(&map, 1, 5));
    record_roll_channel(&mut map, 2, 7);
    assert!(is_roll_channel(&map, 2, 7));
    assert!(is_roll_channel(&map, 1, 6));
}

#[test]
fn roll_channel_is_remembered_only_when_saved() {
    let mut map = roll_channels_from_rows(&Vec::new());
    assert_eq!(finish_roll_channel_update(&mut map, false, 1, 9), "error saving");
    assert!(!is_roll_channel(&map, 1, 9));
    assert_eq!(finish_roll_channel_update(&mut map, true, 1, 9), "saved");
    assert!(is_roll_channel(&map, 1, 9));
}
