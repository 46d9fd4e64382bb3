//! Arguments and planning of the command that removes custom images.
use vstd::prelude::*;

use crate::constants::{CHARACTER_NAME_NOT_PROVIDED, NO_POSITION_PROVIDED, POSITION_OUT_OF_LIMIT};
use crate::text::{
    chars_of, lemma_split_nonempty, parse_u32, parse_u32_range, split_bounds, split_on,
    trim, trim_bounds, trimmed_pieces,
};

verus! {

/// The pieces of `ps` that parse as `u32`, parsed, in order.
pub open spec fn positions_of(ps: Seq<Seq<char>>) -> Seq<u32>
    decreases ps.len(),
{
    if ps.len() == 0 {
        seq![]
    } else {
        let rest = positions_of(ps.drop_last());
        match parse_u32(ps.last()) {
            Some(v) => rest.push(v),
            None => rest,
        }
    }
}

/// What `parse_command_arguments` makes of `text`: the character name is the
/// first `$`-separated piece, trimmed; the positions are the other pieces,
/// trimmed, that parse as `u32`.
pub open spec fn remove_arguments(text: Seq<char>) -> Result<(Seq<char>, Seq<u32>), Seq<char>> {
    let pieces = trimmed_pieces(text, '$');
    let positions = positions_of(pieces.drop_first());
    if pieces[0].len() == 0 {
        Err(CHARACTER_NAME_NOT_PROVIDED@)
    } else if positions.len() == 0 {
        Err(NO_POSITION_PROVIDED@)
    } else {
        Ok((pieces[0], positions))
    }
}

/// The character named by a removal is the whole text before the first `$`,
/// with white space trimmed at its ends only; the request is refused exactly
/// when that is empty or no later piece parses as a position.
pub proof fn law_removal_name_is_first_piece(text: Seq<char>)
    ensures
        remove_arguments(text) matches Ok((name, _)) ==> name == trim(split_on(text, '$')[0]),
        remove_arguments(text) is Err <==> (trim(split_on(text, '$')[0]).len() == 0 || positions_of(
            trimmed_pieces(text, '$').drop_first(),
        ).len() == 0),
        trim(split_on(text, '$')[0]).len() == 0 ==> remove_arguments(text) == Err::<
            (Seq<char>, Seq<u32>),
            Seq<char>,
        >(CHARACTER_NAME_NOT_PROVIDED@),
        trim(split_on(text, '$')[0]).len() > 0 && positions_of(trimmed_pieces(text, '$').drop_first()).len()
            == 0 ==> remove_arguments(text) == Err::<(Seq<char>, Seq<u32>), Seq<char>>(
            NO_POSITION_PROVIDED@,
        ),
        remove_arguments(text) matches Ok((_, positions)) ==> positions == positions_of(
            trimmed_pieces(text, '$').drop_first(),
        ) && positions.len() > 0,
{
    lemma_split_nonempty(text, '$');
}

/// Splits `text` into a character name and the 1-based positions of the
/// images to remove, separated by `$`.
pub fn parse_command_arguments<'a>(text: &'a str) -> (r: Result<(&'a str, Vec<u32>), &'static str>)
    ensures
        match r {
            Ok((name, positions)) => remove_arguments(text@) == Ok::<(Seq<char>, Seq<u32>), Seq<char>>((name@, positions@)),
            Err(e) => remove_arguments(text@) == Err::<(Seq<char>, Seq<u32>), Seq<char>>(e@),
        },
        r matches Ok((name, _)) ==> name@ == trim(split_on(text@, '$')[0]),
        r is Err <==> (trim(split_on(text@, '$')[0]).len() == 0 || positions_of(
            trimmed_pieces(text@, '$').drop_first(),
        ).len() == 0),
{
    proof {
        law_removal_name_is_first_piece(text@);
    }
    let chars = chars_of(text);
    let segs = split_bounds(&chars, '$');
    proof {
        lemma_split_nonempty(chars@, '$');
    }
    let ghost pieces = trimmed_pieces(text@, '$');
    let (a, b): (usize, usize) = trim_bounds(&chars, segs[0].0, segs[0].1);
    assert(pieces[0] == chars@.subrange(a as int, b as int));
    if a == b {
        return Err(CHARACTER_NAME_NOT_PROVIDED);
    }
    let name = text.substring_char(a, b);
    let mut positions: Vec<u32> = Vec::new();
    let mut j: usize = 1;
    while j < segs.len()
        invariant
            1 <= j <= segs.len(),
            segs.len() == pieces.len(),
            chars@ == text@,
            pieces == trimmed_pieces(text@, '$'),
            forall|k: int| 0 <= k < segs.len() ==> #[trigger] segs[k].0 <= segs[k].1 <= chars.len(),
            forall|k: int|
                0 <= k < segs.len() ==> chars@.subrange(segs[k].0 as int, segs[k].1 as int)
                    == #[trigger] split_on(chars@, '$')[k],
            positions@ == positions_of(pieces.subrange(1, j as int)),
        decreases segs.len() - j,
    {
        let (a, b): (usize, usize) = trim_bounds(&chars, segs[j].0, segs[j].1);
        assert(pieces[j as int] == chars@.subrange(a as int, b as int));
        assert(pieces.subrange(1, j + 1).drop_last() =~= pieces.subrange(1, j as int));
        if let Some(v) = parse_u32_range(&chars, a, b) {
            positions.push(v);
        }
        j = j + 1;
    }
    assert(pieces.subrange(1, j as int) =~= pieces.drop_first());
    if positions.len() == 0 {
        return Err(NO_POSITION_PROVIDED);
    }
    Ok((name, positions))
}

/// The largest of `positions`, or 0 where there is none.
pub open spec fn max_position(positions: Seq<u32>) -> u32
    decreases positions.len(),
{
    if positions.len() == 0 {
        0
    } else {
        let rest = max_position(positions.drop_last());
        if positions.last() > rest {
            positions.last()
        } else {
            rest
        }
    }
}

/// Position `p` names the `p`-th image, counting from 1: it is in range when
/// it is at least 1 and at most the number of images.
pub open spec fn names_image(position: u32, count: int) -> bool {
    1 <= position <= count
}

/// The images that `positions` pick out of `images`, one per position, in
/// the order of `positions`. Positions count from 1; a position of 0, or one
/// past the end, names no image and picks nothing.
pub open spec fn picked_images(images: Seq<Seq<char>>, positions: Seq<u32>) -> Seq<Seq<char>>
    decreases positions.len(),
{
    if positions.len() == 0 {
        seq![]
    } else {
        let rest = picked_images(images, positions.drop_last());
        if names_image(positions.last(), images.len() as int) {
            rest.push(images[positions.last() - 1])
        } else {
            rest
        }
    }
}

/// The views of a sequence of strings.
pub open spec fn string_views(v: Seq<String>) -> Seq<Seq<char>> {
    v.map_values(|x: String| x@)
}

proof fn lemma_max_position_bounds(positions: Seq<u32>)
    ensures
        forall|i: int| 0 <= i < positions.len() ==> #[trigger] positions[i] <= max_position(positions),
    decreases positions.len(),
{
    if positions.len() > 0 {
        let prev = positions.drop_last();
        lemma_max_position_bounds(prev);
        assert forall|i: int| 0 <= i < positions.len() implies #[trigger] positions[i] <= max_position(
            positions,
        ) by {
            if i < prev.len() {
                assert(positions[i] == prev[i]);
            }
        }
    }
}

/// A removal deletes only images the character has, at most one per
/// requested position, and exactly one per position when every position
/// lies between 1 and the number of images; a position of 0 deletes nothing.
pub proof fn law_removal_picks_stored_images(images: Seq<Seq<char>>, positions: Seq<u32>)
    ensures
        picked_images(images, positions).len() <= positions.len(),
        forall|i: int|
            0 <= i < picked_images(images, positions).len() ==> images.contains(
                #[trigger] picked_images(images, positions)[i],
            ),
        (forall|i: int| 0 <= i < positions.len() ==> #[trigger] positions[i] >= 1) && max_position(
            positions,
        ) <= images.len() ==> picked_images(images, positions).len() == positions.len(),
        picked_images(images, positions.push(0)) == picked_images(images, positions),
    decreases positions.len(),
{
    if positions.len() > 0 {
        let prev = positions.drop_last();
        law_removal_picks_stored_images(images, prev);
        lemma_max_position_bounds(positions);
        lemma_max_position_bounds(prev);
        let picked = picked_images(images, positions);
        let before = picked_images(images, prev);
        assert forall|i: int| 0 <= i < picked.len() implies images.contains(#[trigger] picked[i]) by {
            if i < before.len() {
                assert(picked[i] == before[i]);
            } else {
                assert(picked[i] == images[positions.last() - 1]);
            }
        }
        if (forall|i: int| 0 <= i < positions.len() ==> #[trigger] positions[i] >= 1)
            && max_position(positions) <= images.len() {
            assert(positions[positions.len() - 1] <= max_position(positions));
            assert(positions[positions.len() - 1] >= 1);
            assert(max_position(prev) <= max_position(positions));
            assert forall|i: int| 0 <= i < prev.len() implies #[trigger] prev[i] >= 1 by {
                assert(prev[i] == positions[i]);
            }
        }
    }
    assert(positions.push(0).drop_last() =~= positions);
}

/// Each position is handled on its own, in order: the images picked for
/// two lists of positions one after the other are those picked for the
/// first list followed by those picked for the second; a single position
/// `p` picks the `p`-th image, counting from 1, when there is one, and
/// nothing otherwise.
pub proof fn law_positions_pick_one_by_one(images: Seq<Seq<char>>, first: Seq<u32>, second: Seq<u32>, p: u32)
    ensures
        picked_images(images, first + second) == picked_images(images, first) + picked_images(
            images,
            second,
        ),
        1 <= p <= images.len() ==> picked_images(images, seq![p]) == seq![images[p - 1]],
        (p == 0 || p > images.len()) ==> picked_images(images, seq![p]) == Seq::<Seq<char>>::empty(),
    decreases second.len(),
{
    assert(seq![p].drop_last() =~= Seq::<u32>::empty());
    assert(seq![p].last() == p);
    assert(picked_images(images, Seq::<u32>::empty()) =~= Seq::<Seq<char>>::empty());
    if 1 <= p <= images.len() {
        assert(picked_images(images, seq![p]) =~= seq![images[p - 1]]);
    } else {
        assert(picked_images(images, seq![p]) =~= Seq::<Seq<char>>::empty());
    }
    if second.len() == 0 {
        assert(first + second =~= first);
        assert(picked_images(images, first) + picked_images(images, second) =~= picked_images(images, first));
    } else {
        law_positions_pick_one_by_one(images, first, second.drop_last(), p);
        assert((first + second).drop_last() =~= first + second.drop_last());
        assert((first + second).last() == second.last());
        let a = picked_images(images, first);
        let b = picked_images(images, second.drop_last());
        if 1 <= second.last() <= images.len() {
            assert(a + b.push(images[second.last() - 1]) =~= (a + b).push(images[second.last() - 1]));
        }
    }
}

/// Positions are read piece by piece, in order: a lone piece gives its
/// value exactly when it parses as a `u32`, and the positions read from two
/// lists of pieces one after the other are those of each, in turn.
pub proof fn law_positions_read_one_by_one(first: Seq<Seq<char>>, second: Seq<Seq<char>>, x: Seq<char>)
    ensures
        positions_of(first + second) == positions_of(first) + positions_of(second),
        positions_of(seq![x]) == (match parse_u32(x) {
            Some(v) => seq![v],
            None => Seq::<u32>::empty(),
        }),
    decreases second.len(),
{
    assert(seq![x].drop_last() =~= Seq::<Seq<char>>::empty());
    assert(positions_of(Seq::<Seq<char>>::empty()) =~= Seq::<u32>::empty());
    match parse_u32(x) {
        Some(v) => assert(positions_of(seq![x]) =~= seq![v]),
        None => assert(positions_of(seq![x]) =~= Seq::<u32>::empty()),
    }
    if second.len() == 0 {
        assert(first + second =~= first);
        assert(positions_of(first) + positions_of(second) =~= positions_of(first));
    } else {
        law_positions_read_one_by_one(first, second.drop_last(), x);
        assert((first + second).drop_last() =~= first + second.drop_last());
        assert((first + second).last() == second.last());
        let a = positions_of(first);
        let b = positions_of(second.drop_last());
        if let Some(v) = parse_u32(second.last()) {
            assert(a + b.push(v) =~= (a + b).push(v));
        }
    }
}

/// The largest position is at least every position, and is one of them, or
/// 0 when there is none.
pub proof fn law_max_position_is_largest(positions: Seq<u32>)
    ensures
        forall|i: int| 0 <= i < positions.len() ==> #[trigger] positions[i] <= max_position(positions),
        positions.len() == 0 ==> max_position(positions) == 0,
        positions.len() > 0 ==> exists|i: int|
            0 <= i < positions.len() && #[trigger] positions[i] == max_position(positions),
    decreases positions.len(),
{
    lemma_max_position_bounds(positions);
    if positions.len() > 0 {
        let prev = positions.drop_last();
        law_max_position_is_largest(prev);
        if positions.last() > max_position(prev) || prev.len() == 0 {
            assert(positions[positions.len() - 1] == max_position(positions));
        } else {
            let i: int = choose|i: int| 0 <= i < prev.len() && #[trigger] prev[i] == max_position(prev);
            assert(positions[i] == prev[i]);
        }
    }
}

/// The image count taken as a `u32` is the count itself whenever it fits.
pub proof fn law_count_as_u32_fits(n: nat)
    ensures
        n < 0x1_0000_0000 ==> count_as_u32(n) == n,
{
}

/// The number of images, taken as a `u32` the way `as u32` takes it.
pub open spec fn count_as_u32(n: nat) -> int {
    (n % 0x1_0000_0000) as int
}

/// Decides which image links a removal request deletes, given the links the
/// character has, in their stored order, and the requested positions.
/// Positions count from 1, as the command's help gives them; a position of 0
/// names no image and removes nothing. Refused with `POSITION_OUT_OF_LIMIT`
/// when the image count (as a `u32`) is below the largest position.
pub fn plan_image_removal(images: &Vec<String>, positions: &Vec<u32>) -> (r: Result<Vec<String>, &'static str>)
    ensures
        match r {
            Err(e) => count_as_u32(images@.len()) < max_position(positions@) && e@ == POSITION_OUT_OF_LIMIT@,
            Ok(picked) => count_as_u32(images@.len()) >= max_position(positions@) && string_views(picked@)
                == picked_images(string_views(images@), positions@),
        },
{
    let mut largest: u32 = 0;
    let mut i: usize = 0;
    while i < positions.len()
        invariant
            i <= positions.len(),
            largest == max_position(positions@.take(i as int)),
        decreases positions.len() - i,
    {
        assert(positions@.take(i + 1).drop_last() =~= positions@.take(i as int));
        if positions[i] > largest {
            largest = positions[i];
        }
        i = i + 1;
    }
    assert(positions@.take(i as int) =~= positions@);
    let count: u32 = (images.len() as u64 % 4294967296) as u32;
    if count < largest {
        return Err(POSITION_OUT_OF_LIMIT);
    }
    let mut picked: Vec<String> = Vec::new();
    let mut k: usize = 0;
    while k < positions.len()
        invariant
            k <= positions.len(),
            string_views(picked@) == picked_images(string_views(images@), positions@.take(k as int)),
        decreases positions.len() - k,
    {
        assert(positions@.take(k + 1).drop_last() =~= positions@.take(k as int));
        let p: u32 = positions[k];
        if p >= 1 && ((p - 1) as usize) < images.len() {
            let link = images[(p - 1) as usize].clone();
            picked.push(link);
        }
        assert(string_views(picked@) =~= picked_images(string_views(images@), positions@.take(k + 1)));
        k = k + 1;
    }
    assert(positions@.take(k as int) =~= positions@);
    Ok(picked)
}

} // verus!
