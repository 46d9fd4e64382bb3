//! Reading the roll messages that the Mudae bot posts.
use vstd::prelude::*;

use crate::db::models::roll::EmbedRoll;
use crate::text::{
    chars_of, join_spaced, lemma_split_nonempty, lemma_split_pieces_lack_sep, lemma_split_single,
    has_prefix, law_lines_break_at_newline, line_bounds, lines_of, push_char, push_range, remove_all, remove_occurrences, split_on, strip_cr,
};

verus! {

/// The emoji that Mudae adds to the description of a wish-protected roll.
pub const WISH_PROTECT_EMOJI: &'static str = "<:wishprotect:633217581725122570>";

/// The user id of the Mudae bot.
pub const MUDAE_BOT_ID: u64 = 432610292342587392;

/// Reply when a roll message lacks its character, series or picture.
pub const EMPTY_ROLL_FIELDS: &'static str = "One or more required fields are empty";

/// A line made of a custom emoji, such as the kakera line of a roll.
pub open spec fn is_emote_line(l: Seq<char>) -> bool {
    l.len() >= 2 && l[0] == '<' && l[1] == ':'
}

/// The lines of `ls` that are not emoji lines, in order.
pub open spec fn without_emotes(ls: Seq<Seq<char>>) -> Seq<Seq<char>>
    decreases ls.len(),
{
    if ls.len() == 0 {
        seq![]
    } else {
        let rest = without_emotes(ls.drop_last());
        if is_emote_line(ls.last()) {
            rest
        } else {
            rest.push(ls.last())
        }
    }
}

/// The first `n` members of `ls`, or all of them where there are fewer.
pub open spec fn take_upto(ls: Seq<Seq<char>>, n: int) -> Seq<Seq<char>> {
    if n <= 0 {
        seq![]
    } else if n < ls.len() {
        ls.take(n)
    } else {
        ls
    }
}

/// The series named by a roll's description: with the wish-protect emoji
/// taken out, all lines but as many as the last of the original description,
/// with the emoji lines left out, joined by spaces.
pub open spec fn serie_of(description: Seq<char>) -> Seq<char> {
    let lines = lines_of(remove_all(description, WISH_PROTECT_EMOJI@));
    join_spaced(without_emotes(take_upto(lines, lines_of(description).len() - 1)))
}

/// The series that the description of a roll names.
pub fn serie_from_description(description: &str) -> (r: String)
    requires
        description@.len() > 0,
    ensures
        r@ == serie_of(description@),
{
    let chars = chars_of(description);
    let count: usize = line_bounds(&chars).len();
    proof {
        lemma_split_nonempty(chars@, '\n');
        lemma_split_single(chars@, '\n');
        assert(count >= 1);
        reveal_strlit("<:wishprotect:633217581725122570>");
    }
    let token = chars_of(WISH_PROTECT_EMOJI);
    let cleaned = remove_occurrences(&chars, &token);
    let bounds = line_bounds(&cleaned);
    let ghost lines = lines_of(cleaned@);
    let limit: usize = if count - 1 < bounds.len() {
        count - 1
    } else {
        bounds.len()
    };
    assert(lines.take(limit as int) =~= take_upto(lines, lines_of(description@).len() - 1));
    let mut serie = String::new();
    let mut kept: usize = 0;
    let mut k: usize = 0;
    while k < limit
        invariant
            k <= limit <= bounds.len(),
            lines == lines_of(cleaned@),
            bounds.len() == lines.len(),
            forall|j: int| 0 <= j < bounds.len() ==> #[trigger] bounds[j].0 <= bounds[j].1 <= cleaned.len(),
            forall|j: int|
                0 <= j < bounds.len() ==> cleaned@.subrange(bounds[j].0 as int, bounds[j].1 as int)
                    == #[trigger] lines[j],
            serie@ == join_spaced(without_emotes(lines.take(k as int))),
            kept == without_emotes(lines.take(k as int)).len(),
            kept <= k,
        decreases limit - k,
    {
        let (a, b): (usize, usize) = bounds[k];
        let ghost line = lines[k as int];
        assert(line == cleaned@.subrange(a as int, b as int));
        assert(lines.take(k + 1).drop_last() =~= lines.take(k as int));
        let emote = b - a >= 2 && cleaned[a] == '<' && cleaned[a + 1] == ':';
        assert(emote == is_emote_line(line));
        if !emote {
            let ghost w = without_emotes(lines.take(k as int));
            assert(without_emotes(lines.take(k + 1)) == w.push(line));
            assert(w.push(line).drop_last() =~= w);
            let ghost before = serie@;
            if kept > 0 {
                push_char(&mut serie, ' ');
            }
            push_range(&mut serie, &cleaned, a, b);
            assert(serie@ =~= join_spaced(w.push(line)));
            kept = kept + 1;
        }
        k = k + 1;
    }
    serie
}

/// No member of `ls` holds `c`.
pub open spec fn none_holds(ls: Seq<Seq<char>>, c: char) -> bool {
    forall|i: int| 0 <= i < ls.len() ==> !(#[trigger] ls[i]).contains(c)
}

proof fn lemma_lines_lack_newline(s: Seq<char>)
    ensures
        none_holds(lines_of(s), '\n'),
{
    let pieces = split_on(s, '\n');
    lemma_split_nonempty(s, '\n');
    lemma_split_pieces_lack_sep(s, '\n');
    let lines = lines_of(s);
    assert forall|i: int| 0 <= i < lines.len() implies !(#[trigger] lines[i]).contains('\n') by {
        let piece = pieces[i];
        assert(!piece.contains('\n'));
        if i < pieces.len() - 1 {
            assert(lines[i] == strip_cr(piece));
            if strip_cr(piece).contains('\n') {
                let k: int = choose|k: int| 0 <= k < strip_cr(piece).len() && strip_cr(piece)[k] == '\n';
                assert(piece[k] == '\n');
            }
        }
    }
}

proof fn lemma_without_emotes_keeps(ls: Seq<Seq<char>>, c: char)
    requires
        none_holds(ls, c),
    ensures
        none_holds(without_emotes(ls), c),
    decreases ls.len(),
{
    if ls.len() > 0 {
        let prev = ls.drop_last();
        assert(none_holds(prev, c)) by {
            assert forall|i: int| 0 <= i < prev.len() implies !(#[trigger] prev[i]).contains(c) by {
                assert(prev[i] == ls[i]);
            }
        }
        lemma_without_emotes_keeps(prev, c);
        let w = without_emotes(ls);
        let wp = without_emotes(prev);
        assert forall|i: int| 0 <= i < w.len() implies !(#[trigger] w[i]).contains(c) by {
            if i < wp.len() {
                assert(w[i] == wp[i]);
            } else {
                assert(w[i] == ls[ls.len() - 1]);
            }
        }
    }
}

proof fn lemma_join_spaced_lacks(ls: Seq<Seq<char>>, c: char)
    requires
        none_holds(ls, c),
        c != ' ',
    ensures
        !join_spaced(ls).contains(c),
    decreases ls.len(),
{
    if ls.len() == 1 {
        assert(!ls[0].contains(c));
    } else if ls.len() > 1 {
        let prev = ls.drop_last();
        assert(none_holds(prev, c)) by {
            assert forall|i: int| 0 <= i < prev.len() implies !(#[trigger] prev[i]).contains(c) by {
                assert(prev[i] == ls[i]);
            }
        }
        lemma_join_spaced_lacks(prev, c);
        let head = join_spaced(prev);
        let last = ls[ls.len() - 1];
        assert(!last.contains(c));
        let joined = head + seq![' '] + last;
        assert(joined == join_spaced(ls));
        if joined.contains(c) {
            let k: int = choose|k: int| 0 <= k < joined.len() && joined[k] == c;
            if k < head.len() {
                assert(head[k] == c);
            } else if k > head.len() {
                assert(last[k - head.len() - 1] == c);
            }
        }
    }
}

/// The series read from a roll is a single line: whatever line breaks the
/// description held, none is left in it.
pub proof fn law_serie_is_single_line(description: Seq<char>)
    ensures
        !serie_of(description).contains('\n'),
{
    let lines = lines_of(remove_all(description, WISH_PROTECT_EMOJI@));
    lemma_lines_lack_newline(remove_all(description, WISH_PROTECT_EMOJI@));
    let n: int = lines_of(description).len() - 1;
    let kept = take_upto(lines, n);
    assert(none_holds(kept, '\n')) by {
        assert forall|i: int| 0 <= i < kept.len() implies !(#[trigger] kept[i]).contains('\n') by {
            assert(kept[i] == lines[i]);
        }
    }
    lemma_without_emotes_keeps(kept, '\n');
    lemma_join_spaced_lacks(without_emotes(kept), '\n');
}

/// Emoji lines are dropped one by one, in order: a lone line is kept
/// exactly when it does not start with `<:`, and the lines kept from two
/// lists one after the other are those kept from each, in turn.
pub proof fn law_without_emotes_one_by_one(first: Seq<Seq<char>>, second: Seq<Seq<char>>, x: Seq<char>)
    ensures
        without_emotes(first + second) == without_emotes(first) + without_emotes(second),
        has_prefix(x, seq!['<', ':']) ==> without_emotes(seq![x]) == Seq::<Seq<char>>::empty(),
        !has_prefix(x, seq!['<', ':']) ==> without_emotes(seq![x]) == seq![x],
    decreases second.len(),
{
    assert(seq![x].drop_last() =~= Seq::<Seq<char>>::empty());
    assert(without_emotes(Seq::<Seq<char>>::empty()) =~= Seq::<Seq<char>>::empty());
    if x.len() >= 2 {
        assert(x.subrange(0, 2) =~= seq![x[0], x[1]]);
    }
    if has_prefix(x, seq!['<', ':']) {
        assert(x.subrange(0, 2)[0] == '<' && x.subrange(0, 2)[1] == ':');
        assert(without_emotes(seq![x]) =~= Seq::<Seq<char>>::empty());
    } else {
        if x.len() >= 2 && x[0] == '<' && x[1] == ':' {
            assert(x.subrange(0, 2) =~= seq!['<', ':']);
        }
        assert(without_emotes(seq![x]) =~= seq![x]);
    }
    if second.len() == 0 {
        assert(first + second =~= first);
        assert(without_emotes(first) + without_emotes(second) =~= without_emotes(first));
    } else {
        law_without_emotes_one_by_one(first, second.drop_last(), x);
        assert((first + second).drop_last() =~= first + second.drop_last());
        assert((first + second).last() == second.last());
        let a = without_emotes(first);
        let b = without_emotes(second.drop_last());
        if !is_emote_line(second.last()) {
            assert(a + b.push(second.last()) =~= (a + b).push(second.last()));
        }
    }
}

/// Taking the first `n` lines: none for `n` of 0 or less, the first `n`
/// when there are more, all of them otherwise.
pub proof fn law_take_upto_shape(ls: Seq<Seq<char>>, n: int)
    ensures
        n <= 0 ==> take_upto(ls, n).len() == 0,
        0 <= n <= ls.len() ==> take_upto(ls, n) == ls.take(n),
        n >= ls.len() ==> take_upto(ls, n) == ls,
{
    if n <= 0 {
        assert(take_upto(ls, n) =~= Seq::<Seq<char>>::empty());
    }
    if n == ls.len() {
        assert(ls.take(n) =~= ls);
    }
}

proof fn lemma_remove_all_without_start(s: Seq<char>, pat: Seq<char>)
    requires
        pat.len() > 0,
        !s.contains(pat[0]),
    ensures
        remove_all(s, pat) == s,
    decreases s.len(),
{
    if s.len() >= pat.len() && s.len() > 0 {
        let rest = s.drop_first();
        assert(!rest.contains(pat[0])) by {
            if rest.contains(pat[0]) {
                let i: int = choose|i: int| 0 <= i < rest.len() && rest[i] == pat[0];
                assert(s[i + 1] == pat[0]);
            }
        }
        lemma_remove_all_without_start(rest, pat);
        assert(s.take(pat.len() as int)[0] == s[0]);
        assert(s[0] != pat[0]);
        assert(s.take(pat.len() as int) != pat);
        assert(seq![s[0]] + rest =~= s);
    }
}

/// A description of one line names no series: its only line is the one
/// that is dropped.
pub proof fn law_single_line_names_no_serie(description: Seq<char>)
    ensures
        !description.contains('\n') ==> serie_of(description).len() == 0,
{
    law_lines_break_at_newline(description, seq![]);
    if !description.contains('\n') {
        assert(lines_of(description).len() <= 1);
    }
}

/// With two plain lines, the series is the first line: the last line is
/// dropped and the first is kept as it is.
pub proof fn law_two_lines_name_first(first: Seq<char>, second: Seq<char>)
    requires
        first.len() > 0,
        second.len() > 0,
        !first.contains('\n'),
        !second.contains('\n'),
        !first.contains('\r'),
        !first.contains('<'),
        !second.contains('<'),
    ensures
        serie_of(first + seq!['\n'] + second) == first,
{
    let d = first + seq!['\n'] + second;
    reveal_strlit("<:wishprotect:633217581725122570>");
    assert(WISH_PROTECT_EMOJI@[0] == '<');
    assert(!d.contains('<')) by {
        if d.contains('<') {
            let i: int = choose|i: int| 0 <= i < d.len() && d[i] == '<';
            if i < first.len() {
                assert(first[i] == '<');
            } else if i > first.len() {
                assert(second[i - first.len() - 1] == '<');
            }
        }
    }
    lemma_remove_all_without_start(d, WISH_PROTECT_EMOJI@);
    law_lines_break_at_newline(first, second);
    law_lines_break_at_newline(second, seq![]);
    assert(strip_cr(first) == first) by {
        if first.last() == '\r' {
            assert(first[first.len() - 1] == '\r');
        }
    }
    let lines = lines_of(d);
    assert(lines =~= seq![first, second]);
    assert(take_upto(lines, 1) =~= seq![first]);
    law_without_emotes_one_by_one(seq![], seq![], first);
    assert(!has_prefix(first, seq!['<', ':'])) by {
        if has_prefix(first, seq!['<', ':']) {
            assert(first.subrange(0, 2)[0] == '<');
            assert(first[0] == '<');
        }
    }
}

/// What a roll message's embed carries that a roll is read from: the name
/// of its author, the link of its image and its description.
#[derive(Debug)]
pub struct RollEmbed {
    pub author_name: Option<String>,
    pub image_url: Option<String>,
    pub description: Option<String>,
}

/// A field's text, or nothing where the embed lacks the field.
pub open spec fn text_or_empty(field: Option<String>) -> Seq<char> {
    match field {
        Some(s) => s@,
        None => seq![],
    }
}

/// The series that an embed names, or nothing where it has no description.
pub open spec fn embed_serie(embed: RollEmbed) -> Seq<char> {
    match embed.description {
        Some(d) => serie_of(d@),
        None => seq![],
    }
}

/// An embed whose description is present but empty has no last line to
/// drop; reading it is refused.
pub open spec fn readable_embed(embed: RollEmbed) -> bool {
    embed.description matches Some(d) ==> d@.len() > 0
}

/// Reads a roll out of an embed: the character is the author's name, the
/// picture is the image's link and the series comes from the description;
/// refused when any of the three is empty.
pub fn parse_roll_embed(embed: &RollEmbed) -> (r: Result<EmbedRoll, &'static str>)
    requires
        readable_embed(*embed),
    ensures
        match r {
            Ok(roll) => {
                &&& roll.name@ == text_or_empty(embed.author_name)
                &&& roll.serie@ == embed_serie(*embed)
                &&& roll.url@ == text_or_empty(embed.image_url)
                &&& roll.name@.len() > 0 && roll.serie@.len() > 0 && roll.url@.len() > 0
            },
            Err(e) => {
                &&& e@ == EMPTY_ROLL_FIELDS@
                &&& (text_or_empty(embed.author_name).len() == 0 || embed_serie(*embed).len() == 0
                    || text_or_empty(embed.image_url).len() == 0)
            },
        },
{
    let name = match &embed.author_name {
        Some(author) => author.clone(),
        None => String::new(),
    };
    let url = match &embed.image_url {
        Some(image) => image.clone(),
        None => String::new(),
    };
    let serie = match &embed.description {
        Some(description) => serie_from_description(description.as_str()),
        None => String::new(),
    };
    if name.as_str().is_empty() || url.as_str().is_empty() || serie.as_str().is_empty() {
        Err(EMPTY_ROLL_FIELDS)
    } else {
        Ok(EmbedRoll::new(name, serie, url))
    }
}

/// The roll that a message shows: only messages of the Mudae bot count, and
/// only through their first embed.
pub open spec fn is_mudae_roll(author_id: u64, embeds: Seq<RollEmbed>) -> bool {
    author_id == MUDAE_BOT_ID && embeds.len() > 0
}

/// A roll's character and picture are the embed's author name and image
/// link as they stand, empty where the embed lacks them; its series comes
/// from the description, and is empty where there is none.
pub proof fn law_roll_fields_come_from_embed(embed: RollEmbed)
    ensures
        embed.author_name matches Some(n) ==> text_or_empty(embed.author_name) == n@,
        embed.author_name is None ==> text_or_empty(embed.author_name).len() == 0,
        embed.image_url matches Some(u) ==> text_or_empty(embed.image_url) == u@,
        embed.image_url is None ==> text_or_empty(embed.image_url).len() == 0,
        embed.description matches Some(d) ==> embed_serie(embed) == serie_of(d@),
        embed.description is None ==> embed_serie(embed).len() == 0,
{
}

/// Only the Mudae bot's own messages are read as rolls: a message of any
/// other author, or one without embeds, never counts as one; a message of
/// the Mudae bot with an embed always does.
pub proof fn law_only_mudae_rolls(author_id: u64, embeds: Seq<RollEmbed>)
    ensures
        MUDAE_BOT_ID == 432610292342587392,
        author_id != 432610292342587392 ==> !is_mudae_roll(author_id, embeds),
        embeds.len() == 0 ==> !is_mudae_roll(author_id, embeds),
        author_id == 432610292342587392 && embeds.len() > 0 ==> is_mudae_roll(author_id, embeds),
{
}

/// Reads the roll that a message of the Mudae bot shows in its first embed;
/// other messages, and embeds that lack a field, give none.
pub fn roll_from_message(author_id: u64, embeds: &Vec<RollEmbed>) -> (r: Option<EmbedRoll>)
    requires
        is_mudae_roll(author_id, embeds@) ==> readable_embed(embeds@[0]),
    ensures
        author_id != 432610292342587392 ==> r is None,
        embeds@.len() == 0 ==> r is None,
        !is_mudae_roll(author_id, embeds@) ==> r is None,
        is_mudae_roll(author_id, embeds@) ==> match r {
            Some(roll) => {
                &&& roll.name@ == text_or_empty(embeds@[0].author_name)
                &&& roll.serie@ == embed_serie(embeds@[0])
                &&& roll.url@ == text_or_empty(embeds@[0].image_url)
                &&& roll.name@.len() > 0 && roll.serie@.len() > 0 && roll.url@.len() > 0
            },
            None => text_or_empty(embeds@[0].author_name).len() == 0 || embed_serie(embeds@[0]).len()
                == 0 || text_or_empty(embeds@[0].image_url).len() == 0,
        },
{
    if author_id != MUDAE_BOT_ID || embeds.len() == 0 {
        return None;
    }
    match parse_roll_embed(&embeds[0]) {
        Ok(roll) => Some(roll),
        Err(_) => None,
    }
}

} // verus!
