//! The answer to the question whether the current channel should become the
//! roll channel.
use vstd::prelude::*;

use crate::text::{chars_of, same_chars};

verus! {

/// What `str::to_lowercase` gives for `s`: the lowercase form of each
/// character by Unicode's case mapping.
pub uninterp spec fn lowercase(s: Seq<char>) -> Seq<char>;

/// `str::to_lowercase`. Its result is named, not stated: Unicode's full
/// lowercase mapping is a table, and some characters lowercase to more than
/// one character.
#[verifier::external_body]
fn to_lowercase(s: &str) -> (r: String)
    ensures
        r@ == lowercase(s@),
{
    s.to_lowercase()
}

/// What a reply to the question means.
#[derive(Debug, PartialEq, Eq, Structural)]
pub enum ChannelAnswer {
    /// Use the channel the reply was posted in.
    UseChannel(u64),
    /// Stop, and say so.
    Stop,
    /// Anything else: nothing happens.
    Unrecognized,
}

/// The meaning of a lowercased reply posted in `channel_id`: "y" or "yes"
/// accepts that channel, "n" or "no" stops.
pub open spec fn answer_of(lower: Seq<char>, channel_id: u64) -> ChannelAnswer {
    if lower == "y"@ || lower == "yes"@ {
        ChannelAnswer::UseChannel(channel_id)
    } else if lower == "n"@ || lower == "no"@ {
        ChannelAnswer::Stop
    } else {
        ChannelAnswer::Unrecognized
    }
}

/// A "y" or "yes" answer accepts exactly the channel the reply was posted
/// in, whatever its id; "n" or "no" stops; no answer names another channel.
pub proof fn law_answer_keeps_channel(lower: Seq<char>, channel_id: u64)
    ensures
        lower == "y"@ || lower == "yes"@ ==> answer_of(lower, channel_id) == ChannelAnswer::UseChannel(
            channel_id,
        ),
        lower == "n"@ || lower == "no"@ ==> answer_of(lower, channel_id) == ChannelAnswer::Stop,
        forall|c: u64| answer_of(lower, channel_id) == ChannelAnswer::UseChannel(c) ==> c == channel_id,
        lower != "y"@ && lower != "yes"@ && lower != "n"@ && lower != "no"@ ==> answer_of(
            lower,
            channel_id,
        ) == ChannelAnswer::Unrecognized,
{
    reveal_strlit("y");
    reveal_strlit("yes");
    reveal_strlit("n");
    reveal_strlit("no");
    if lower == "n"@ || lower == "no"@ {
        assert(lower[0] == 'n');
        assert("y"@[0] == 'y' && "yes"@[0] == 'y');
        assert(lower != "y"@);
        assert(lower != "yes"@);
    }
}

/// The meaning of a reply that is already lowercased.
pub fn answer_for(lower: &str, channel_id: u64) -> (r: ChannelAnswer)
    ensures
        r == answer_of(lower@, channel_id),
        lower@ == "y"@ || lower@ == "yes"@ ==> r == ChannelAnswer::UseChannel(channel_id),
        r matches ChannelAnswer::UseChannel(c) ==> c == channel_id,
{
    let text = chars_of(lower);
    if same_chars(&text, &chars_of("y")) || same_chars(&text, &chars_of("yes")) {
        ChannelAnswer::UseChannel(channel_id)
    } else if same_chars(&text, &chars_of("n")) || same_chars(&text, &chars_of("no")) {
        ChannelAnswer::Stop
    } else {
        ChannelAnswer::Unrecognized
    }
}

/// The meaning of a reply with text `content` posted in `channel_id`,
/// whatever its letter case.
pub fn get_answer(content: &str, channel_id: u64) -> (r: ChannelAnswer)
    ensures
        r == answer_of(lowercase(content@), channel_id),
        r matches ChannelAnswer::UseChannel(c) ==> c == channel_id,
{
    let lower = to_lowercase(content);
    answer_for(lower.as_str(), channel_id)
}

} // verus!
