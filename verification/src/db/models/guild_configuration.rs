use vstd::prelude::*;

verus! {

/// The settings the bot keeps for a guild.
#[derive(Debug)]
pub struct GuildConfiguration {
    pub guild_id: i64,
    pub roll_channel: Option<i64>,
    pub name: String,
    pub prefix: String,
    pub is_active: bool,
}

impl GuildConfiguration {
    /// The settings of a guild that has just been seen: active, with no roll
    /// channel and an empty prefix.
    pub fn new(name: &str, guild_id: i64) -> (r: Self)
        ensures
            r.guild_id == guild_id,
            r.roll_channel is None,
            r.name@ == name@,
            r.prefix@ == Seq::<char>::empty(),
            r.is_active,
    {
        Self {
            guild_id,
            roll_channel: None,
            name: name.to_owned(),
            prefix: String::new(),
            is_active: true,
        }
    }

    /// The same settings with `prefix` as the command prefix.
    pub fn set_prefix(self, prefix: &str) -> (r: GuildConfiguration)
        ensures
            r.guild_id == self.guild_id,
            r.roll_channel == self.roll_channel,
            r.name == self.name,
            r.prefix@ == prefix@,
            r.is_active == self.is_active,
    {
        let mut config = self;
        config.prefix = prefix.to_owned();
        config
    }
}

} // verus!
