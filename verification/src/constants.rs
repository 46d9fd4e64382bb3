//! The replies the bot sends when a command cannot go on.
use vstd::prelude::*;

verus! {

/// Reply when a command is given no character name.
pub const CHARACTER_NAME_NOT_PROVIDED: &'static str = "Please provide the name of a character.";

/// Reply when the named character is not known.
pub const CHARACTER_NOT_FOUND: &'static str = "Character not found.";

/// Reply when the database could not answer a query.
pub const DATABASE_QUERY_ERROR: &'static str = "Error while querying the database.";

/// Reply when a command that adds images is given no image link.
pub const IMAGE_LINK_NOT_PROVIDED: &'static str = "Please provide at least one image link.";

/// Reply when a command that removes images is given no position.
pub const NO_POSITION_PROVIDED: &'static str = "No position provided";

/// Reply when a link is not hosted where images are accepted.
pub const INVALID_IMAGE_HOST: &'static str = "Invalid Image host detected";

/// Reply when a position is past the end of a character's images.
pub const POSITION_OUT_OF_LIMIT: &'static str = "Position out of limit";

/// Reply when a roll channel was saved.
pub const ROLL_CHANNEL_SAVED: &'static str = "saved";

/// Reply when saving a roll channel failed.
pub const ROLL_CHANNEL_NOT_SAVED: &'static str = "error saving";

/// The replies and ids that come from the bot's own code keep their text:
/// the refusals of image commands, the reply to a roll-channel update, the
/// reply to a roll without all its fields.
pub proof fn law_fixed_replies()
    ensures
        NO_POSITION_PROVIDED@ == "No position provided"@,
        INVALID_IMAGE_HOST@ == "Invalid Image host detected"@,
        POSITION_OUT_OF_LIMIT@ == "Position out of limit"@,
        ROLL_CHANNEL_SAVED@ == "saved"@,
        ROLL_CHANNEL_NOT_SAVED@ == "error saving"@,
        crate::utils::EMPTY_ROLL_FIELDS@ == "One or more required fields are empty"@,
        crate::utils::WISH_PROTECT_EMOJI@ == "<:wishprotect:633217581725122570>"@,
        crate::utils::MUDAE_BOT_ID == 432610292342587392,
        crate::events::BOT_USER_ID == 1175543083799154708,
{
}

} // verus!
