# crown_bot

The logic of a Discord bot that records the characters rolled with the Mudae
bot and lets users attach custom images to them, with its behaviour stated in
Verus contracts and proved.

- `src/` is the verified library:
  - `text`: splitting at a separator, Unicode trimming, line breaking,
    taking out a pattern, and `u32` parsing, each stated over `Seq<char>`;
  - `commands`: the arguments of the image commands, the accepted image
    hosts, the plan of an image removal, the yes/no answer of the
    roll-channel question;
  - `utils`: reading a roll (character, series, picture) out of an embed;
  - `maps`: the per-guild prefixes and roll channels, in `DashMap`s;
  - `events`: which messages are handled and what to do when a guild is
    joined or left;
  - `config`, `constants`, `db::models`: the settings, replies and records.
- `app/` is the program around it: Discord (poise/serenity), the SQLite
  queries (sqlx), configuration from the environment and logging.
- `tests/` runs the library on concrete inputs.

## What is not here

- The original also holds commands written for serenity's older
  `StandardFramework` (`add_sfw_custom_images`, `add_nsfw_custom_images`,
  `remove_custom_images`, the guild-config `set_prefix`, the admin
  `set_roll_channel`) and a serenity `EventHandler` (`Handler`). Nothing
  registers them: the bot runs on poise, whose command list and event handler
  are in `app/framework.rs`. They also read type-map keys (`DatabasePool`,
  `PrefixMap`, `RollChannelMap`) and helpers that the original does not
  define, so they cannot be built. Their logic lives on in the library:
  `check_valid_host`, the yes/no answer of `get_answer`, and the message
  filter `should_handle_message`.
- Several source files of the original are missing (`constants`, `paginate`,
  the character and series models, the migrations); the reply texts in
  `constants` are this crate's own.
