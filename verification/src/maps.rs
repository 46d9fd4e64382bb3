//! The per-guild command prefixes and roll channels the bot keeps in memory,
//! held in `DashMap`s keyed by guild id.
//!
//! A `DashMap` can be written through a shared reference. The contracts here
//! describe a map that only this module writes, through `&mut`; whoever shares
//! a map between threads keeps it behind a lock so that this stays true.
use dashmap::DashMap;
use vstd::prelude::*;

use crate::constants::{ROLL_CHANNEL_NOT_SAVED, ROLL_CHANNEL_SAVED};
use crate::db::models::guild_configuration::GuildConfiguration;

verus! {

#[verifier::external_type_specification]
#[verifier::external_body]
#[verifier::reject_recursive_types(K)]
#[verifier::reject_recursive_types(V)]
#[verifier::reject_recursive_types(S)]
pub struct ExDashMap<K, V, S>(DashMap<K, V, S>);

/// What a map of guild prefixes holds: guild id to prefix.
pub uninterp spec fn prefix_entries(m: DashMap<u64, String>) -> Map<u64, Seq<char>>;

/// What a map of roll channels holds: guild id to channel id.
pub uninterp spec fn channel_entries(m: DashMap<u64, u64>) -> Map<u64, u64>;

/// `DashMap::new`: a map that holds nothing.
#[verifier::external_body]
fn prefix_map_new() -> (map: DashMap<u64, String>)
    ensures
        prefix_entries(map).dom().is_empty(),
{
    DashMap::new()
}

/// `DashMap::insert`: afterwards `key` maps to `value` and every other key
/// keeps what it had. The write goes through `&mut`, so no other reference
/// sees the map while it changes.
#[verifier::external_body]
fn prefix_map_insert(m: &mut DashMap<u64, String>, key: u64, value: String)
    ensures
        prefix_entries(*final(m)) == prefix_entries(*old(m)).insert(key, value@),
{
    m.insert(key, value);
}

/// `DashMap::get`, with the value copied out: the prefix stored for `key`,
/// if any. The guard that `get` returns is dropped before this returns, so
/// the call holds no reference into the map that a later call could wait on.
#[verifier::external_body]
fn prefix_map_get(m: &DashMap<u64, String>, key: u64) -> (r: Option<String>)
    ensures
        match r {
            Some(v) => prefix_entries(*m).contains_key(key) && v@ == prefix_entries(*m)[key],
            None => !prefix_entries(*m).contains_key(key),
        },
{
    match m.get(&key) {
        Some(entry) => Some(entry.value().clone()),
        None => None,
    }
}

/// `DashMap::new`: a map that holds nothing.
#[verifier::external_body]
fn channel_map_new() -> (map: DashMap<u64, u64>)
    ensures
        channel_entries(map).dom().is_empty(),
{
    DashMap::new()
}

/// `DashMap::insert`: afterwards `key` maps to `value` and every other key
/// keeps what it had.
#[verifier::external_body]
fn channel_map_insert(m: &mut DashMap<u64, u64>, key: u64, value: u64)
    ensures
        channel_entries(*final(m)) == channel_entries(*old(m)).insert(key, value),
{
    m.insert(key, value);
}

/// `DashMap::get`, with the value copied out: the channel stored for `key`,
/// if any.
#[verifier::external_body]
fn channel_map_get(m: &DashMap<u64, u64>, key: u64) -> (r: Option<u64>)
    ensures
        match r {
            Some(v) => channel_entries(*m).contains_key(key) && v == channel_entries(*m)[key],
            None => !channel_entries(*m).contains_key(key),
        },
{
    match m.get(&key) {
        Some(entry) => Some(*entry.value()),
        None => None,
    }
}

/// A guild's prefix as the database stores it.
pub struct PrefixRow {
    pub guild_id: i64,
    pub prefix: String,
}

/// A guild's roll channel as the database stores it.
pub struct RollChannelRow {
    pub guild_id: i64,
    pub roll_channel: Option<i64>,
}

/// The prefixes that loading `rows` in order gives: a later row for a guild
/// replaces an earlier one.
pub open spec fn prefixes_of(rows: Seq<PrefixRow>) -> Map<u64, Seq<char>>
    decreases rows.len(),
{
    if rows.len() == 0 {
        Map::empty()
    } else {
        prefixes_of(rows.drop_last()).insert(rows.last().guild_id as u64, rows.last().prefix@)
    }
}

/// The roll channels that loading `rows` in order gives: rows without a
/// channel are passed over, and a later row for a guild replaces an earlier one.
pub open spec fn roll_channels_of(rows: Seq<RollChannelRow>) -> Map<u64, u64>
    decreases rows.len(),
{
    if rows.len() == 0 {
        Map::empty()
    } else {
        let rest = roll_channels_of(rows.drop_last());
        match rows.last().roll_channel {
            Some(c) => rest.insert(rows.last().guild_id as u64, c as u64),
            None => rest,
        }
    }
}

/// Loading prefixes keeps the latest row of each guild: a row that no later
/// row for the same guild follows gives that guild its prefix; and every
/// guild in the map has a row.
pub proof fn law_prefixes_keep_latest_row(rows: Seq<PrefixRow>, i: int)
    ensures
        0 <= i < rows.len() && (forall|j: int|
            i < j < rows.len() ==> (#[trigger] rows[j]).guild_id as u64 != rows[i].guild_id as u64)
            ==> prefixes_of(rows).contains_key(rows[i].guild_id as u64) && prefixes_of(rows)[rows[i].guild_id as u64]
            == rows[i].prefix@,
        forall|g: u64|
            #[trigger] prefixes_of(rows).contains_key(g) ==> exists|j: int|
                0 <= j < rows.len() && (#[trigger] rows[j]).guild_id as u64 == g,
    decreases rows.len(),
{
    if rows.len() > 0 {
        let prev = rows.drop_last();
        law_prefixes_keep_latest_row(prev, i);
        if 0 <= i < rows.len() - 1 && (forall|j: int|
            i < j < rows.len() ==> (#[trigger] rows[j]).guild_id as u64 != rows[i].guild_id as u64) {
            assert(rows[rows.len() - 1].guild_id as u64 != rows[i].guild_id as u64);
            assert(prev[i] == rows[i]);
            assert forall|j: int| i < j < prev.len() implies (#[trigger] prev[j]).guild_id as u64
                != prev[i].guild_id as u64 by {
                assert(prev[j] == rows[j]);
            }
        }
        assert forall|g: u64| #[trigger] prefixes_of(rows).contains_key(g) implies exists|j: int|
            0 <= j < rows.len() && (#[trigger] rows[j]).guild_id as u64 == g by {
            if g != rows.last().guild_id as u64 {
                assert(prefixes_of(prev).contains_key(g));
                let j = choose|j: int| 0 <= j < prev.len() && (#[trigger] prev[j]).guild_id as u64 == g;
                assert(rows[j] == prev[j]);
            } else {
                assert(rows[rows.len() - 1].guild_id as u64 == g);
            }
        }
    }
}

/// Loading roll channels keeps the latest channel of each guild, as the
/// full 64-bit id: a row with a channel that no later row with a channel for
/// the same guild follows sends its guild to that channel, so a message in
/// that channel counts as posted in the roll channel; and every guild in the
/// map has a row with the channel it is sent to.
pub proof fn law_roll_channels_keep_latest_row(rows: Seq<RollChannelRow>, i: int)
    ensures
        0 <= i < rows.len() && rows[i].roll_channel is Some && (forall|j: int|
            i < j < rows.len() && (#[trigger] rows[j]).roll_channel is Some ==> rows[j].guild_id as u64
                != rows[i].guild_id as u64) ==> {
            &&& roll_channels_of(rows).contains_key(rows[i].guild_id as u64)
            &&& roll_channels_of(rows)[rows[i].guild_id as u64] == rows[i].roll_channel->0 as u64
            &&& is_roll_channel_of(roll_channels_of(rows), rows[i].guild_id as u64, rows[i].roll_channel->0 as u64)
        },
        forall|g: u64|
            #[trigger] roll_channels_of(rows).contains_key(g) ==> exists|j: int|
                0 <= j < rows.len() && (#[trigger] rows[j]).guild_id as u64 == g && rows[j].roll_channel
                    == Some(roll_channels_of(rows)[g] as i64),
    decreases rows.len(),
{
    if rows.len() > 0 {
        let prev = rows.drop_last();
        let last = rows.last();
        law_roll_channels_keep_latest_row(prev, i);
        if 0 <= i < rows.len() - 1 && rows[i].roll_channel is Some && (forall|j: int|
            i < j < rows.len() && (#[trigger] rows[j]).roll_channel is Some ==> rows[j].guild_id as u64
                != rows[i].guild_id as u64) {
            assert(prev[i] == rows[i]);
            assert(rows[rows.len() - 1] == last);
            assert forall|j: int| i < j < prev.len() && (#[trigger] prev[j]).roll_channel is Some implies prev[j].guild_id as u64
                != prev[i].guild_id as u64 by {
                assert(prev[j] == rows[j]);
            }
        }
        assert forall|g: u64| #[trigger] roll_channels_of(rows).contains_key(g) implies exists|j: int|
            0 <= j < rows.len() && (#[trigger] rows[j]).guild_id as u64 == g && rows[j].roll_channel
                == Some(roll_channels_of(rows)[g] as i64) by {
            match last.roll_channel {
                Some(c) => {
                    if g == last.guild_id as u64 {
                        assert(rows[rows.len() - 1] == last);
                        assert((c as u64) as i64 == c) by (bit_vector);
                    } else {
                        assert(roll_channels_of(prev).contains_key(g));
                        let j = choose|j: int|
                            0 <= j < prev.len() && (#[trigger] prev[j]).guild_id as u64 == g && prev[j].roll_channel
                                == Some(roll_channels_of(prev)[g] as i64);
                        assert(rows[j] == prev[j]);
                    }
                },
                None => {
                    let j = choose|j: int|
                        0 <= j < prev.len() && (#[trigger] prev[j]).guild_id as u64 == g && prev[j].roll_channel
                            == Some(roll_channels_of(prev)[g] as i64);
                    assert(rows[j] == prev[j]);
                },
            }
        }
    }
}

/// The map of guild prefixes loaded from the stored rows.
pub fn prefixes_from_rows(rows: &Vec<PrefixRow>) -> (map: DashMap<u64, String>)
    requires
        forall|i: int| 0 <= i < rows.len() ==> #[trigger] rows[i].guild_id as u64 != 0,
    ensures
        prefix_entries(map) == prefixes_of(rows@),
{
    let mut map = prefix_map_new();
    assert(prefix_entries(map) =~= prefixes_of(rows@.take(0)));
    let mut i: usize = 0;
    while i < rows.len()
        invariant
            i <= rows.len(),
            prefix_entries(map) == prefixes_of(rows@.take(i as int)),
        decreases rows.len() - i,
    {
        assert(rows@.take(i + 1).drop_last() =~= rows@.take(i as int));
        let row = &rows[i];
        prefix_map_insert(&mut map, row.guild_id as u64, row.prefix.clone());
        i = i + 1;
    }
    assert(rows@.take(i as int) =~= rows@);
    map
}

/// The map of roll channels loaded from the stored rows of active guilds.
pub fn roll_channels_from_rows(rows: &Vec<RollChannelRow>) -> (map: DashMap<u64, u64>)
    requires
        forall|i: int|
            0 <= i < rows.len() ==> ((#[trigger] rows[i]).roll_channel matches Some(c) ==> {
                &&& rows[i].guild_id as u64 != 0
                &&& c as u64 != 0
            }),
    ensures
        channel_entries(map) == roll_channels_of(rows@),
{
    let mut map = channel_map_new();
    assert(channel_entries(map) =~= roll_channels_of(rows@.take(0)));
    let mut i: usize = 0;
    while i < rows.len()
        invariant
            i <= rows.len(),
            channel_entries(map) == roll_channels_of(rows@.take(i as int)),
        decreases rows.len() - i,
    {
        assert(rows@.take(i + 1).drop_last() =~= rows@.take(i as int));
        let row = &rows[i];
        if let Some(channel) = row.roll_channel {
            channel_map_insert(&mut map, row.guild_id as u64, channel as u64);
        }
        i = i + 1;
    }
    assert(rows@.take(i as int) =~= rows@);
    map
}

/// The prefix for a message from `guild`: the guild's own prefix if it has
/// one, otherwise the default; messages outside guilds get the default.
pub open spec fn prefix_for(prefixes: Map<u64, Seq<char>>, default_prefix: Seq<char>, guild: Option<u64>) -> Seq<char> {
    match guild {
        Some(g) => if prefixes.contains_key(g) {
            prefixes[g]
        } else {
            default_prefix
        },
        None => default_prefix,
    }
}

/// The command prefix that applies to a message from `guild_id`.
pub fn dynamic_prefix(prefixes: &DashMap<u64, String>, default_prefix: &str, guild_id: Option<u64>) -> (r: String)
    ensures
        r@ == prefix_for(prefix_entries(*prefixes), default_prefix@, guild_id),
{
    match guild_id {
        Some(guild) => match prefix_map_get(prefixes, guild) {
            Some(prefix) => prefix,
            None => default_prefix.to_owned(),
        },
        None => default_prefix.to_owned(),
    }
}

/// Remembers the prefix of a guild whose settings were just created.
pub fn record_guild_prefix(prefixes: &mut DashMap<u64, String>, config: GuildConfiguration)
    requires
        config.guild_id as u64 != 0,
    ensures
        prefix_entries(*final(prefixes)) == prefix_entries(*old(prefixes)).insert(
            config.guild_id as u64,
            config.prefix@,
        ),
{
    prefix_map_insert(prefixes, config.guild_id as u64, config.prefix);
}

/// The roll channel of `guild` is `channel`.
pub open spec fn is_roll_channel_of(channels: Map<u64, u64>, guild: u64, channel: u64) -> bool {
    channels.contains_key(guild) && channels[guild] == channel
}

/// Whether a message in `channel_id` of `guild_id` was posted in the
/// guild's roll channel; a guild without one has none.
pub fn is_roll_channel(channels: &DashMap<u64, u64>, guild_id: u64, channel_id: u64) -> (r: bool)
    ensures
        r == is_roll_channel_of(channel_entries(*channels), guild_id, channel_id),
{
    match channel_map_get(channels, guild_id) {
        Some(channel) => channel == channel_id,
        None => false,
    }
}

/// Remembers `channel_id` as the roll channel of `guild_id`, replacing any
/// earlier one.
pub fn record_roll_channel(channels: &mut DashMap<u64, u64>, guild_id: u64, channel_id: u64)
    ensures
        channel_entries(*final(channels)) == channel_entries(*old(channels)).insert(guild_id, channel_id),
{
    channel_map_insert(channels, guild_id, channel_id);
}

/// What follows the database update of a guild's roll channel: when it was
/// saved, the channel is remembered for the guild and the reply is
/// `ROLL_CHANNEL_SAVED`; when it failed, the map is left as it was and the
/// reply is `ROLL_CHANNEL_NOT_SAVED`.
pub fn finish_roll_channel_update(
    channels: &mut DashMap<u64, u64>,
    saved: bool,
    guild_id: u64,
    channel_id: u64,
) -> (reply: &'static str)
    ensures
        saved ==> channel_entries(*final(channels)) == channel_entries(*old(channels)).insert(
            guild_id,
            channel_id,
        ) && reply@ == ROLL_CHANNEL_SAVED@,
        !saved ==> channel_entries(*final(channels)) == channel_entries(*old(channels)) && reply@
            == ROLL_CHANNEL_NOT_SAVED@,
{
    if saved {
        record_roll_channel(channels, guild_id, channel_id);
        ROLL_CHANNEL_SAVED
    } else {
        ROLL_CHANNEL_NOT_SAVED
    }
}

/// Which prefix a message is read with: a message outside any guild gets
/// the default; a message from a guild with a prefix of its own gets that
/// prefix; a message from any other guild gets the default.
pub proof fn law_prefix_choice(prefixes: Map<u64, Seq<char>>, default_prefix: Seq<char>, guild: u64)
    ensures
        prefix_for(prefixes, default_prefix, None) == default_prefix,
        prefixes.contains_key(guild) ==> prefix_for(prefixes, default_prefix, Some(guild))
            == prefixes[guild],
        !prefixes.contains_key(guild) ==> prefix_for(prefixes, default_prefix, Some(guild))
            == default_prefix,
{
}

/// A message counts as posted in its guild's roll channel exactly when the
/// guild has a roll channel and it is that channel.
pub proof fn law_roll_channel_match(channels: Map<u64, u64>, guild: u64, channel: u64)
    ensures
        is_roll_channel_of(channels, guild, channel) <==> (channels.contains_key(guild)
            && channels[guild] == channel),
        !channels.contains_key(guild) ==> !is_roll_channel_of(channels, guild, channel),
{
}

/// A prefix recorded for a guild is what later messages from that guild are
/// read with, and it changes the prefix of no other guild.
pub proof fn law_prefix_read_after_write(
    prefixes: Map<u64, Seq<char>>,
    default_prefix: Seq<char>,
    guild: u64,
    prefix: Seq<char>,
    other: Option<u64>,
)
    ensures
        prefix_for(prefixes.insert(guild, prefix), default_prefix, Some(guild)) == prefix,
        other != Some(guild) ==> prefix_for(prefixes.insert(guild, prefix), default_prefix, other)
            == prefix_for(prefixes, default_prefix, other),
{
}

/// After a roll channel is recorded for a guild, exactly that channel counts
/// as the guild's roll channel, and other guilds keep theirs.
pub proof fn law_roll_channel_read_after_write(
    channels: Map<u64, u64>,
    guild: u64,
    channel: u64,
    other_guild: u64,
    other_channel: u64,
)
    ensures
        is_roll_channel_of(channels.insert(guild, channel), guild, other_channel) <==> other_channel
            == channel,
        other_guild != guild ==> (is_roll_channel_of(channels.insert(guild, channel), other_guild, other_channel)
            <==> is_roll_channel_of(channels, other_guild, other_channel)),
{
}

} // verus!
