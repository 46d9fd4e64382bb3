//! Arguments of the command that adds custom images to a character.
use vstd::prelude::*;

use crate::commands::custom_image::{
    is_valid_host, IMGCHEST_FILE_PREFIX, IMGUR_IMAGE_PREFIX, IMGUR_PREFIX,
};
use crate::constants::{
    CHARACTER_NAME_NOT_PROVIDED, CHARACTER_NOT_FOUND, DATABASE_QUERY_ERROR,
    IMAGE_LINK_NOT_PROVIDED, INVALID_IMAGE_HOST,
};
use crate::db::lookup::DatabaseError;
use crate::db::models::character::Character;
use crate::text::{
    chars_of, has_prefix, lemma_non_empty_members, lemma_split_nonempty, lemma_split_pieces_lack_sep,
    lemma_trim_idempotent, lemma_trim_is_part, non_empty, split_bounds, split_on, starts_with,
    trim, trim_bounds, trimmed_pieces, views,
};

verus! {

/// What `parse_command_arguments` makes of `text`: the character name is the
/// first `$`-separated piece, trimmed; the links are the other pieces, trimmed,
/// with the empty ones left out.
pub open spec fn add_arguments(text: Seq<char>) -> Result<(Seq<char>, Seq<Seq<char>>), Seq<char>> {
    let pieces = trimmed_pieces(text, '$');
    let links = non_empty(pieces.drop_first());
    if pieces[0].len() == 0 {
        Err(CHARACTER_NAME_NOT_PROVIDED@)
    } else if links.len() == 0 {
        Err(IMAGE_LINK_NOT_PROVIDED@)
    } else {
        Ok((pieces[0], links))
    }
}

/// A trimmed piece of `text` holds no `$` and trims to itself.
proof fn lemma_trimmed_piece_clean(text: Seq<char>, j: int)
    requires
        0 <= j < split_on(text, '$').len(),
    ensures
        !trimmed_pieces(text, '$')[j].contains('$'),
        trim(trimmed_pieces(text, '$')[j]) == trimmed_pieces(text, '$')[j],
{
    let piece = split_on(text, '$')[j];
    lemma_split_pieces_lack_sep(text, '$');
    let k: int = lemma_trim_is_part(piece);
    lemma_trim_idempotent(piece);
    let t = trim(piece);
    assert(trimmed_pieces(text, '$')[j] == t);
    if t.contains('$') {
        let i: int = choose|i: int| 0 <= i < t.len() && t[i] == '$';
        assert(piece[k + i] == '$');
    }
}

/// The character named by an added image is the whole text before the
/// first `$`, with white space trimmed at its ends only; a text whose first
/// piece is blank is refused for lack of a name.
pub proof fn law_added_name_is_first_piece(text: Seq<char>)
    ensures
        add_arguments(text) matches Ok((name, _)) ==> name == trim(split_on(text, '$')[0]),
        trim(split_on(text, '$')[0]).len() == 0 ==> add_arguments(text) == Err::<
            (Seq<char>, Seq<Seq<char>>),
            Seq<char>,
        >(CHARACTER_NAME_NOT_PROVIDED@),
        trim(split_on(text, '$')[0]).len() > 0 && non_empty(trimmed_pieces(text, '$').drop_first()).len()
            == 0 ==> add_arguments(text) == Err::<(Seq<char>, Seq<Seq<char>>), Seq<char>>(
            IMAGE_LINK_NOT_PROVIDED@,
        ),
        add_arguments(text) matches Ok((_, links)) ==> links == non_empty(
            trimmed_pieces(text, '$').drop_first(),
        ) && links.len() > 0,
{
    lemma_split_nonempty(text, '$');
}

/// A name and links that the command accepts are never empty, are trimmed
/// and hold no `$`; at least one link is given.
pub proof fn law_accepted_arguments_are_clean(text: Seq<char>)
    ensures
        add_arguments(text) matches Ok((name, links)) ==> {
            &&& name.len() > 0 && trim(name) == name && !name.contains('$')
            &&& links.len() > 0
            &&& forall|i: int|
                0 <= i < links.len() ==> {
                    &&& (#[trigger] links[i]).len() > 0
                    &&& trim(links[i]) == links[i]
                    &&& !links[i].contains('$')
                }
        },
{
    lemma_split_nonempty(text, '$');
    if let Ok((name, links)) = add_arguments(text) {
        let pieces = trimmed_pieces(text, '$');
        lemma_trimmed_piece_clean(text, 0);
        lemma_non_empty_members(pieces.drop_first());
        assert forall|i: int| 0 <= i < links.len() implies {
            &&& (#[trigger] links[i]).len() > 0
            &&& trim(links[i]) == links[i]
            &&& !links[i].contains('$')
        } by {
            let j: int = choose|j: int|
                0 <= j < pieces.drop_first().len() && pieces.drop_first()[j] == links[i];
            lemma_trimmed_piece_clean(text, j + 1);
        }
    }
}

/// Splits `text` into a character name and the image links that follow it,
/// separated by `$`.
pub fn parse_command_arguments<'a>(text: &'a str) -> (r: Result<(&'a str, Vec<&'a str>), &'static str>)
    ensures
        match r {
            Ok((name, links)) => add_arguments(text@) == Ok::<(Seq<char>, Seq<Seq<char>>), Seq<char>>((name@, views(links@))),
            Err(e) => add_arguments(text@) == Err::<(Seq<char>, Seq<Seq<char>>), Seq<char>>(e@),
        },
        r matches Ok((name, _)) ==> name@ == trim(split_on(text@, '$')[0]),
        r matches Ok((_, links)) ==> links.len() > 0,
{
    proof {
        law_added_name_is_first_piece(text@);
    }
    let chars = chars_of(text);
    let segs = split_bounds(&chars, '$');
    proof {
        lemma_split_nonempty(chars@, '$');
    }
    let ghost pieces = trimmed_pieces(text@, '$');
    let (a, b): (usize, usize) = trim_bounds(&chars, segs[0].0, segs[0].1);
    assert(pieces[0] == chars@.subrange(a as int, b as int));
    if a == b {
        return Err(CHARACTER_NAME_NOT_PROVIDED);
    }
    let name = text.substring_char(a, b);
    let mut links: Vec<&'a str> = Vec::new();
    let mut j: usize = 1;
    while j < segs.len()
        invariant
            1 <= j <= segs.len(),
            segs.len() == pieces.len(),
            chars@ == text@,
            pieces == trimmed_pieces(text@, '$'),
            forall|k: int| 0 <= k < segs.len() ==> #[trigger] segs[k].0 <= segs[k].1 <= chars.len(),
            forall|k: int|
                0 <= k < segs.len() ==> chars@.subrange(segs[k].0 as int, segs[k].1 as int)
                    == #[trigger] split_on(chars@, '$')[k],
            views(links@) == non_empty(pieces.subrange(1, j as int)),
        decreases segs.len() - j,
    {
        let (a, b): (usize, usize) = trim_bounds(&chars, segs[j].0, segs[j].1);
        assert(pieces[j as int] == chars@.subrange(a as int, b as int));
        assert(pieces.subrange(1, j + 1).drop_last() =~= pieces.subrange(1, j as int));
        if a < b {
            let link = text.substring_char(a, b);
            links.push(link);
        }
        assert(views(links@) =~= non_empty(pieces.subrange(1, j + 1)));
        j = j + 1;
    }
    assert(pieces.subrange(1, j as int) =~= pieces.drop_first());
    if links.len() == 0 {
        return Err(IMAGE_LINK_NOT_PROVIDED);
    }
    Ok((name, links))
}

/// Whether `link` is hosted on Imgur or Imgchest.
pub fn check_valid_host(link: &str) -> (r: bool)
    ensures
        r == is_valid_host(link@),
{
    let chars = chars_of(link);
    starts_with(&chars, &chars_of(IMGUR_IMAGE_PREFIX)) || starts_with(
        &chars,
        &chars_of(IMGCHEST_FILE_PREFIX),
    ) || starts_with(&chars, &chars_of(IMGUR_PREFIX))
}

/// What the command that adds images makes of its text before it looks the
/// character up: the arguments, unless they are refused, and then refused
/// with `INVALID_IMAGE_HOST` if any link is hosted elsewhere.
pub open spec fn image_request(text: Seq<char>) -> Result<(Seq<char>, Seq<Seq<char>>), Seq<char>> {
    match add_arguments(text) {
        Err(e) => Err(e),
        Ok((name, links)) => if forall|i: int| 0 <= i < links.len() ==> is_valid_host(#[trigger] links[i]) {
            Ok((name, links))
        } else {
            Err(INVALID_IMAGE_HOST@)
        },
    }
}

/// A link that starts with one of the three accepted prefixes, written out.
pub open spec fn accepted_link(link: Seq<char>) -> bool {
    ||| has_prefix(link, "https://i.imgur.com/"@)
    ||| has_prefix(link, "https://cdn.imgchest.com/files/"@)
    ||| has_prefix(link, "https://imgur.com/"@)
}

/// Every link of an accepted add-image request, the first one included,
/// is on Imgur or Imgchest; a request whose arguments parse but that holds
/// any other link is refused with `INVALID_IMAGE_HOST`; and a request with no
/// foreign link is accepted with the parsed arguments unchanged.
pub proof fn law_image_request_checks_every_link(text: Seq<char>)
    ensures
        image_request(text) matches Ok((_, links)) ==> forall|i: int|
            0 <= i < links.len() ==> accepted_link(#[trigger] links[i]),
        (add_arguments(text) matches Ok((_, links)) && exists|i: int|
            0 <= i < links.len() && !accepted_link(#[trigger] links[i])) ==> image_request(text)
            == Err::<(Seq<char>, Seq<Seq<char>>), Seq<char>>(INVALID_IMAGE_HOST@),
        (add_arguments(text) matches Ok((_, links)) && forall|i: int|
            0 <= i < links.len() ==> accepted_link(#[trigger] links[i])) ==> image_request(text)
            == add_arguments(text),
        add_arguments(text) is Err ==> image_request(text) == add_arguments(text),
{
    law_valid_host_prefixes();
}

/// The accepted hosts are exactly Imgur's image server, Imgchest's file
/// server and Imgur pages.
pub proof fn law_valid_host_prefixes()
    ensures
        forall|link: Seq<char>| #[trigger] is_valid_host(link) <==> accepted_link(link),
{
    assert(IMGUR_IMAGE_PREFIX@ == "https://i.imgur.com/"@);
    assert(IMGCHEST_FILE_PREFIX@ == "https://cdn.imgchest.com/files/"@);
    assert(IMGUR_PREFIX@ == "https://imgur.com/"@);
}

/// Checks the text of the command that adds images: a character name, then
/// links that all point into Imgur or Imgchest.
pub fn validate_image_request<'a>(text: &'a str) -> (r: Result<(&'a str, Vec<&'a str>), &'static str>)
    ensures
        match r {
            Ok((name, links)) => image_request(text@) == Ok::<(Seq<char>, Seq<Seq<char>>), Seq<char>>((name@, views(links@))),
            Err(e) => image_request(text@) == Err::<(Seq<char>, Seq<Seq<char>>), Seq<char>>(e@),
        },
        r matches Ok((_, links)) ==> forall|i: int|
            0 <= i < links.len() ==> accepted_link((#[trigger] links@[i])@),
        (add_arguments(text@) matches Ok((_, links)) && exists|i: int|
            0 <= i < links.len() && !accepted_link(#[trigger] links[i])) ==> r == Err::<
            (&'a str, Vec<&'a str>),
            &'static str,
        >(INVALID_IMAGE_HOST),
{
    proof {
        law_image_request_checks_every_link(text@);
    }
    let (name, links) = match parse_command_arguments(text) {
        Ok(args) => args,
        Err(e) => return Err(e),
    };
    let mut i: usize = 0;
    while i < links.len()
        invariant
            i <= links.len(),
            add_arguments(text@) == Ok::<(Seq<char>, Seq<Seq<char>>), Seq<char>>((name@, views(links@))),
            forall|t: int| 0 <= t < i ==> is_valid_host(#[trigger] views(links@)[t]),
        decreases links.len() - i,
    {
        if !check_valid_host(links[i]) {
            proof {
                let ls = views(links@);
                assert(!is_valid_host(ls[i as int]));
                assert(!(forall|t: int| 0 <= t < ls.len() ==> is_valid_host(#[trigger] ls[t])));
            }
            return Err(INVALID_IMAGE_HOST);
        }
        i = i + 1;
    }
    assert forall|t: int| 0 <= t < links.len() implies accepted_link((#[trigger] links@[t])@) by {
        assert(views(links@)[t] == links@[t]@);
    }
    Ok((name, links))
}

/// What looking a character up by name answers: the character, or the reply
/// for a name that is not known or for a query that failed.
pub fn fetch_character(found: Result<Option<Character>, DatabaseError>) -> (r: Result<Character, &'static str>)
    ensures
        match found {
            Ok(Some(c)) => r == Ok::<Character, &'static str>(c),
            Ok(None) => r matches Err(e) && e@ == CHARACTER_NOT_FOUND@,
            Err(_) => r matches Err(e) && e@ == DATABASE_QUERY_ERROR@,
        },
{
    match found {
        Ok(Some(character)) => Ok(character),
        Ok(None) => Err(CHARACTER_NOT_FOUND),
        Err(_) => Err(DATABASE_QUERY_ERROR),
    }
}

} // verus!
