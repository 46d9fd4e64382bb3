//! Character-level text handling: splitting, trimming, line breaking and
//! decimal parsing, each stated over `Seq<char>` and implemented on `Vec<char>`.
use vstd::prelude::*;

verus! {

/// The Unicode `White_Space` property, which `char::is_whitespace` and
/// `str::trim` go by.
pub open spec fn is_space(c: char) -> bool {
    let u: u32 = c as u32;
    ||| 9 <= u <= 13
    ||| u == 32
    ||| u == 0x85
    ||| u == 0xA0
    ||| u == 0x1680
    ||| 0x2000 <= u <= 0x200A
    ||| u == 0x2028
    ||| u == 0x2029
    ||| u == 0x202F
    ||| u == 0x205F
    ||| u == 0x3000
}

/// `s` with its leading white space removed.
pub open spec fn trim_start(s: Seq<char>) -> Seq<char>
    decreases s.len(),
{
    if s.len() > 0 && is_space(s[0]) {
        trim_start(s.drop_first())
    } else {
        s
    }
}

/// `s` with its trailing white space removed.
pub open spec fn trim_end(s: Seq<char>) -> Seq<char>
    decreases s.len(),
{
    if s.len() > 0 && is_space(s.last()) {
        trim_end(s.drop_last())
    } else {
        s
    }
}

/// `s` with white space removed at both ends, as `str::trim` gives it.
pub open spec fn trim(s: Seq<char>) -> Seq<char> {
    trim_end(trim_start(s))
}

/// The pieces of `s` between occurrences of `sep`, as `str::split` yields
/// them: one more piece than `s` holds separators, empty pieces included.
pub open spec fn split_on(s: Seq<char>, sep: char) -> Seq<Seq<char>>
    decreases s.len(),
{
    if s.len() == 0 {
        seq![Seq::empty()]
    } else {
        let pieces = split_on(s.drop_last(), sep);
        if s.last() == sep {
            pieces.push(Seq::empty())
        } else {
            pieces.update(pieces.len() - 1, pieces.last().push(s.last()))
        }
    }
}

/// The pieces of `s` between occurrences of `sep`, each trimmed.
pub open spec fn trimmed_pieces(s: Seq<char>, sep: char) -> Seq<Seq<char>> {
    split_on(s, sep).map_values(|p: Seq<char>| trim(p))
}

/// The non-empty members of `ps`, in order.
pub open spec fn non_empty(ps: Seq<Seq<char>>) -> Seq<Seq<char>>
    decreases ps.len(),
{
    if ps.len() == 0 {
        seq![]
    } else {
        let rest = non_empty(ps.drop_last());
        if ps.last().len() > 0 {
            rest.push(ps.last())
        } else {
            rest
        }
    }
}

/// The views of a sequence of string slices.
pub open spec fn views(v: Seq<&str>) -> Seq<Seq<char>> {
    v.map_values(|x: &str| x@)
}

/// The pieces `ps` put back together with `sep` between neighbours.
pub open spec fn join_on(ps: Seq<Seq<char>>, sep: char) -> Seq<char>
    decreases ps.len(),
{
    if ps.len() == 0 {
        seq![]
    } else if ps.len() == 1 {
        ps[0]
    } else {
        join_on(ps.drop_last(), sep) + seq![sep] + ps.last()
    }
}

/// `s` starts with `prefix`.
pub open spec fn has_prefix(s: Seq<char>, prefix: Seq<char>) -> bool {
    prefix.len() <= s.len() && s.subrange(0, prefix.len() as int) == prefix
}

/// Splitting always yields at least one piece.
pub proof fn lemma_split_nonempty(s: Seq<char>, sep: char)
    ensures
        split_on(s, sep).len() >= 1,
    decreases s.len(),
{
    if s.len() > 0 {
        lemma_split_nonempty(s.drop_last(), sep);
    }
}

proof fn lemma_trim_start_shape(s: Seq<char>)
    ensures
        trim_start(s).len() <= s.len(),
        trim_start(s) == s.skip(s.len() - trim_start(s).len()),
        trim_start(s).len() > 0 ==> !is_space(trim_start(s)[0]),
    decreases s.len(),
{
    if s.len() > 0 && is_space(s[0]) {
        lemma_trim_start_shape(s.drop_first());
        assert(s.drop_first().skip(s.drop_first().len() - trim_start(s).len()) =~= s.skip(
            s.len() - trim_start(s).len(),
        ));
    } else {
        assert(s.skip(0) =~= s);
    }
}

proof fn lemma_trim_end_shape(s: Seq<char>)
    ensures
        trim_end(s).len() <= s.len(),
        trim_end(s) == s.take(trim_end(s).len() as int),
        trim_end(s).len() > 0 ==> !is_space(trim_end(s).last()),
    decreases s.len(),
{
    if s.len() > 0 && is_space(s.last()) {
        lemma_trim_end_shape(s.drop_last());
        assert(s.drop_last().take(trim_end(s).len() as int) =~= s.take(trim_end(s).len() as int));
    } else {
        assert(s.take(s.len() as int) =~= s);
    }
}

/// `trim(s)` is a stretch of `s`: it starts at some `k` and runs on from there.
pub proof fn lemma_trim_is_part(s: Seq<char>) -> (k: int)
    ensures
        0 <= k <= k + trim(s).len() <= s.len(),
        trim(s) == s.subrange(k, k + trim(s).len()),
{
    let u = trim_start(s);
    lemma_trim_start_shape(s);
    lemma_trim_end_shape(u);
    let k: int = s.len() - u.len();
    assert(trim(s) =~= s.subrange(k, k + trim(s).len()));
    k
}

/// Trimming twice trims no more than trimming once.
pub proof fn lemma_trim_idempotent(s: Seq<char>)
    ensures
        trim(trim(s)) == trim(s),
{
    let u = trim_start(s);
    let t = trim_end(u);
    lemma_trim_start_shape(s);
    lemma_trim_end_shape(u);
    if t.len() > 0 {
        assert(t[0] == u[0]);
        assert(trim_start(t) == t);
        lemma_trim_end_shape(t);
        assert(trim_end(t) == t);
    } else {
        assert(trim_start(t) == t);
    }
}

/// No piece of `split_on(s, sep)` holds `sep`.
pub proof fn lemma_split_pieces_lack_sep(s: Seq<char>, sep: char)
    ensures
        forall|j: int| 0 <= j < split_on(s, sep).len() ==> !(#[trigger] split_on(s, sep)[j]).contains(sep),
    decreases s.len(),
{
    if s.len() > 0 {
        let prev = split_on(s.drop_last(), sep);
        lemma_split_pieces_lack_sep(s.drop_last(), sep);
        lemma_split_nonempty(s.drop_last(), sep);
        if s.last() != sep {
            let last = prev.last().push(s.last());
            assert(!prev[prev.len() - 1].contains(sep));
            assert(!last.contains(sep)) by {
                if last.contains(sep) {
                    let i: int = choose|i: int| 0 <= i < last.len() && last[i] == sep;
                    assert(prev.last()[i] == sep);
                }
            }
            assert forall|j: int| 0 <= j < split_on(s, sep).len() implies !(
            #[trigger] split_on(s, sep)[j]).contains(sep) by {
                if j < prev.len() - 1 {
                    assert(split_on(s, sep)[j] == prev[j]);
                }
            }
        } else {
            assert forall|j: int| 0 <= j < split_on(s, sep).len() implies !(
            #[trigger] split_on(s, sep)[j]).contains(sep) by {
                if j < prev.len() {
                    assert(split_on(s, sep)[j] == prev[j]);
                } else {
                    assert(split_on(s, sep)[j] =~= Seq::<char>::empty());
                }
            }
        }
    }
}

/// Each member of `non_empty(ps)` is a non-empty member of `ps`.
pub proof fn lemma_non_empty_members(ps: Seq<Seq<char>>)
    ensures
        non_empty(ps).len() <= ps.len(),
        forall|i: int|
            0 <= i < non_empty(ps).len() ==> (#[trigger] non_empty(ps)[i]).len() > 0 && exists|j: int|
                0 <= j < ps.len() && ps[j] == non_empty(ps)[i],
    decreases ps.len(),
{
    if ps.len() > 0 {
        let prev = ps.drop_last();
        lemma_non_empty_members(prev);
        assert forall|i: int| 0 <= i < non_empty(ps).len() implies (#[trigger] non_empty(ps)[i]).len()
            > 0 && exists|j: int| 0 <= j < ps.len() && ps[j] == non_empty(ps)[i] by {
            if i < non_empty(prev).len() {
                assert(non_empty(ps)[i] == non_empty(prev)[i]);
                let j: int = choose|j: int| 0 <= j < prev.len() && prev[j] == non_empty(prev)[i];
                assert(ps[j] == prev[j]);
            } else {
                assert(non_empty(ps)[i] == ps[ps.len() - 1]);
            }
        }
    }
}

/// Splitting loses nothing: the pieces, joined back with the separator,
/// give the text again, and no piece holds the separator. Together these
/// fix the pieces.
pub proof fn law_split_rejoins(s: Seq<char>, sep: char)
    ensures
        join_on(split_on(s, sep), sep) == s,
        split_on(s, sep).len() >= 1,
        forall|j: int| 0 <= j < split_on(s, sep).len() ==> !(#[trigger] split_on(s, sep)[j]).contains(sep),
    decreases s.len(),
{
    lemma_split_nonempty(s, sep);
    lemma_split_pieces_lack_sep(s, sep);
    if s.len() > 0 {
        let prev = split_on(s.drop_last(), sep);
        law_split_rejoins(s.drop_last(), sep);
        if s.last() == sep {
            let now = prev.push(Seq::<char>::empty());
            assert(now.drop_last() =~= prev);
            assert(join_on(now, sep) =~= join_on(prev, sep) + seq![sep]);
            assert(s.drop_last().push(sep) =~= s);
        } else {
            let now = prev.update(prev.len() - 1, prev.last().push(s.last()));
            if prev.len() == 1 {
                assert(join_on(now, sep) == now[0]);
                assert(now[0] =~= s);
            } else {
                assert(now.drop_last() =~= prev.drop_last());
                assert(join_on(now, sep) =~= join_on(prev, sep).push(s.last()));
                assert(s.drop_last().push(s.last()) =~= s);
            }
        }
    }
}

proof fn lemma_trim_start_skips_spaces(s: Seq<char>)
    ensures
        forall|i: int| 0 <= i < s.len() - trim_start(s).len() ==> is_space(#[trigger] s[i]),
    decreases s.len(),
{
    if s.len() > 0 && is_space(s[0]) {
        lemma_trim_start_skips_spaces(s.drop_first());
        assert forall|i: int| 0 <= i < s.len() - trim_start(s).len() implies is_space(#[trigger] s[i]) by {
            if i > 0 {
                assert(s[i] == s.drop_first()[i - 1]);
            }
        }
    }
}

proof fn lemma_trim_end_skips_spaces(s: Seq<char>)
    ensures
        forall|i: int| trim_end(s).len() <= i < s.len() ==> is_space(#[trigger] s[i]),
    decreases s.len(),
{
    if s.len() > 0 && is_space(s.last()) {
        lemma_trim_end_skips_spaces(s.drop_last());
        assert forall|i: int| trim_end(s).len() <= i < s.len() implies is_space(#[trigger] s[i]) by {
            if i < s.len() - 1 {
                assert(s[i] == s.drop_last()[i]);
            }
        }
    }
}

/// Trimming takes white space off the two ends and nothing else: what it
/// keeps is one unbroken stretch of `s`, inner spaces included; everything
/// before and after it is white space; and the stretch neither starts nor
/// ends with white space.
pub proof fn law_trim_strips_only_ends(s: Seq<char>) -> (k: int)
    ensures
        0 <= k <= k + trim(s).len() <= s.len(),
        trim(s) == s.subrange(k, k + trim(s).len()),
        forall|i: int| 0 <= i < k ==> is_space(#[trigger] s[i]),
        forall|i: int| k + trim(s).len() <= i < s.len() ==> is_space(#[trigger] s[i]),
        trim(s).len() > 0 ==> !is_space(trim(s)[0]) && !is_space(trim(s).last()),
{
    let u = trim_start(s);
    lemma_trim_start_shape(s);
    lemma_trim_end_shape(u);
    lemma_trim_start_skips_spaces(s);
    lemma_trim_end_skips_spaces(u);
    let k = s.len() - u.len();
    let t = trim(s);
    assert(t =~= s.subrange(k, k + t.len()));
    assert forall|i: int| k + t.len() <= i < s.len() implies is_space(#[trigger] s[i]) by {
        assert(s[i] == u[i - k]);
    }
    if t.len() > 0 {
        assert(t[0] == u[0]);
    }
    k
}

/// Keeping the non-empty members goes member by member, in order: a lone
/// member is kept exactly when it is not empty, and the members kept from
/// two lists one after the other are those kept from the first followed by
/// those kept from the second.
pub proof fn law_non_empty_one_by_one(first: Seq<Seq<char>>, second: Seq<Seq<char>>, x: Seq<char>)
    ensures
        non_empty(first + second) == non_empty(first) + non_empty(second),
        x.len() > 0 ==> non_empty(seq![x]) == seq![x],
        x.len() == 0 ==> non_empty(seq![x]) == Seq::<Seq<char>>::empty(),
    decreases second.len(),
{
    assert(seq![x].drop_last() =~= Seq::<Seq<char>>::empty());
    assert(non_empty(Seq::<Seq<char>>::empty()) =~= Seq::<Seq<char>>::empty());
    if x.len() > 0 {
        assert(non_empty(seq![x]) =~= seq![x]);
    } else {
        assert(non_empty(seq![x]) =~= Seq::<Seq<char>>::empty());
    }
    if second.len() == 0 {
        assert(first + second =~= first);
        assert(non_empty(first) + non_empty(second) =~= non_empty(first));
    } else {
        law_non_empty_one_by_one(first, second.drop_last(), x);
        assert((first + second).drop_last() =~= first + second.drop_last());
        assert((first + second).last() == second.last());
        let a = non_empty(first);
        let b = non_empty(second.drop_last());
        if second.last().len() > 0 {
            assert(a + b.push(second.last()) =~= (a + b).push(second.last()));
        }
    }
}

/// The trimmed pieces are the pieces of the split, each trimmed, one for one.
pub proof fn law_trimmed_pieces_are_trimmed(s: Seq<char>, sep: char)
    ensures
        trimmed_pieces(s, sep).len() == split_on(s, sep).len(),
        forall|j: int|
            0 <= j < split_on(s, sep).len() ==> #[trigger] trimmed_pieces(s, sep)[j] == trim(
                split_on(s, sep)[j],
            ),
{
}

/// A text without the separator is a single piece.
pub proof fn law_split_without_sep(s: Seq<char>, sep: char)
    ensures
        !s.contains(sep) ==> split_on(s, sep) == seq![s],
    decreases s.len(),
{
    if s.len() > 0 && !s.contains(sep) {
        let p = s.drop_last();
        assert(!p.contains(sep)) by {
            if p.contains(sep) {
                let i: int = choose|i: int| 0 <= i < p.len() && p[i] == sep;
                assert(s[i] == sep);
            }
        }
        law_split_without_sep(p, sep);
        assert(s.last() != sep) by {
            assert(s[s.len() - 1] == s.last());
        }
        assert(p.push(s.last()) =~= s);
        assert(seq![p].update(0, p.push(s.last())) =~= seq![s]);
    } else if s.len() == 0 {
        assert(s =~= Seq::<char>::empty());
        assert(split_on(s, sep) =~= seq![s]);
    }
}

/// The line breaks of a text without `\n` give one line, or none when it is
/// empty; a `\n` ends the line before it, without a `\r` just before it,
/// and the lines after it are those of the rest.
pub proof fn law_lines_break_at_newline(a: Seq<char>, b: Seq<char>)
    ensures
        !a.contains('\n') ==> lines_of(a) == (if a.len() == 0 {
            Seq::<Seq<char>>::empty()
        } else {
            seq![a]
        }),
        !a.contains('\n') ==> lines_of(a + seq!['\n'] + b) == seq![strip_cr(a)] + lines_of(b),
    decreases b.len(),
{
    law_split_without_sep(a, '\n');
    if !a.contains('\n') {
        assert(seq![a].drop_last() =~= Seq::<Seq<char>>::empty());
        if a.len() == 0 {
            assert(lines_of(a) =~= Seq::<Seq<char>>::empty());
        } else {
            assert(lines_of(a) =~= seq![a]);
        }
        lemma_split_after_first(a, b, '\n');
        let pb = split_on(b, '\n');
        lemma_split_nonempty(b, '\n');
        let whole = seq![a] + pb;
        assert(whole.drop_last() =~= seq![a] + pb.drop_last());
        assert(whole.last() == pb.last());
        let f = |l: Seq<char>| strip_cr(l);
        assert((seq![a] + pb.drop_last()).map_values(f) =~= seq![strip_cr(a)] + pb.drop_last().map_values(f));
        if pb.last().len() == 0 {
            assert(lines_of(a + seq!['\n'] + b) =~= seq![strip_cr(a)] + lines_of(b));
        } else {
            assert((seq![strip_cr(a)] + pb.drop_last().map_values(f)).push(pb.last()) =~= seq![strip_cr(a)]
                + pb.drop_last().map_values(f).push(pb.last()));
        }
    }
}

/// Splitting a text that starts with a separator-free stretch and then a
/// separator gives that stretch, then the pieces of the rest.
pub proof fn lemma_split_after_first(a: Seq<char>, b: Seq<char>, sep: char)
    requires
        !a.contains(sep),
    ensures
        split_on(a + seq![sep] + b, sep) == seq![a] + split_on(b, sep),
    decreases b.len(),
{
    law_split_without_sep(a, sep);
    if b.len() == 0 {
        assert(a + seq![sep] + b =~= (a + seq![sep]));
        assert((a + seq![sep]).drop_last() =~= a);
        assert(split_on(b, sep) =~= seq![Seq::<char>::empty()]);
        assert(seq![a].push(Seq::<char>::empty()) =~= seq![a] + seq![Seq::<char>::empty()]);
    } else {
        lemma_split_after_first(a, b.drop_last(), sep);
        let whole = a + seq![sep] + b;
        assert(whole.drop_last() =~= a + seq![sep] + b.drop_last());
        assert(whole.last() == b.last());
        let pb = split_on(b.drop_last(), sep);
        lemma_split_nonempty(b.drop_last(), sep);
        if b.last() == sep {
            assert((seq![a] + pb).push(Seq::<char>::empty()) =~= seq![a] + pb.push(Seq::<char>::empty()));
        } else {
            assert((seq![a] + pb).update(pb.len() as int, pb.last().push(b.last())) =~= seq![a] + pb.update(
                pb.len() - 1,
                pb.last().push(b.last()),
            ));
        }
    }
}

/// Joining with spaces puts exactly one space between neighbours: nothing
/// for no members, the member itself for one, and one space more for each
/// further member.
pub proof fn law_join_spaced_shape(ls: Seq<Seq<char>>, x: Seq<char>, y: Seq<char>)
    ensures
        join_spaced(Seq::<Seq<char>>::empty()) == Seq::<char>::empty(),
        join_spaced(seq![x]) == x,
        join_spaced(seq![x, y]) == x + seq![' '] + y,
        ls.len() > 0 ==> join_spaced(ls.push(x)) == join_spaced(ls) + seq![' '] + x,
{
    assert(seq![x, y].drop_last() =~= seq![x]);
    assert(ls.push(x).drop_last() =~= ls);
}

/// Taking a pattern out leaves text that does not start with the pattern
/// untouched up to its first character, drops a leading occurrence whole,
/// and leaves text shorter than the pattern as it is.
pub proof fn law_remove_all_shape(s: Seq<char>, pat: Seq<char>, c: char)
    requires
        pat.len() > 0,
    ensures
        remove_all(pat + s, pat) == remove_all(s, pat),
        s.len() < pat.len() ==> remove_all(s, pat) == s,
        c != pat[0] ==> remove_all(seq![c] + s, pat) == seq![c] + remove_all(s, pat),
{
    let ps = pat + s;
    assert(ps.take(pat.len() as int) =~= pat);
    assert(ps.skip(pat.len() as int) =~= s);
    let cs = seq![c] + s;
    assert(cs.drop_first() =~= s);
    if c != pat[0] && cs.len() >= pat.len() {
        assert(cs.take(pat.len() as int)[0] != pat[0]);
    }
    if c != pat[0] && cs.len() < pat.len() {
        assert(s.len() < pat.len());
    }
}

/// Whether `c` is white space.
pub fn is_space_char(c: char) -> (r: bool)
    ensures
        r == is_space(c),
{
    let u: u32 = c as u32;
    (9 <= u && u <= 13) || u == 32 || u == 0x85 || u == 0xA0 || u == 0x1680 || (0x2000 <= u
        && u <= 0x200A) || u == 0x2028 || u == 0x2029 || u == 0x202F || u == 0x205F || u == 0x3000
}

/// The characters of `s`, in order.
pub fn chars_of(s: &str) -> (v: Vec<char>)
    ensures
        v@ == s@,
{
    let mut v: Vec<char> = Vec::new();
    for c in it: s.chars()
        invariant
            v@ == it.seq().take(it.index()),
    {
        v.push(c);
    }
    v
}

/// The bounds `[a, b)` of `trim(chars[lo..hi])` inside `chars`.
pub fn trim_bounds(chars: &Vec<char>, lo: usize, hi: usize) -> (r: (usize, usize))
    requires
        lo <= hi <= chars.len(),
    ensures
        lo <= r.0 <= r.1 <= hi,
        chars@.subrange(r.0 as int, r.1 as int) == trim(chars@.subrange(lo as int, hi as int)),
{
    let mut a: usize = lo;
    while a < hi && is_space_char(chars[a])
        invariant
            lo <= a <= hi <= chars.len(),
            trim_start(chars@.subrange(lo as int, hi as int)) == trim_start(
                chars@.subrange(a as int, hi as int),
            ),
        decreases hi - a,
    {
        assert(chars@.subrange(a as int, hi as int).drop_first() =~= chars@.subrange(
            a + 1,
            hi as int,
        ));
        a = a + 1;
    }
    let mut b: usize = hi;
    while b > a && is_space_char(chars[b - 1])
        invariant
            lo <= a <= b <= hi <= chars.len(),
            trim_end(chars@.subrange(a as int, hi as int)) == trim_end(
                chars@.subrange(a as int, b as int),
            ),
        decreases b - a,
    {
        assert(chars@.subrange(a as int, b as int).drop_last() =~= chars@.subrange(
            a as int,
            b - 1,
        ));
        b = b - 1;
    }
    (a, b)
}

/// The bounds of the pieces of `split_on(chars, sep)` inside `chars`.
pub fn split_bounds(chars: &Vec<char>, sep: char) -> (r: Vec<(usize, usize)>)
    ensures
        r.len() == split_on(chars@, sep).len(),
        forall|j: int| 0 <= j < r.len() ==> #[trigger] r[j].0 <= r[j].1 <= chars.len(),
        forall|j: int|
            0 <= j < r.len() ==> chars@.subrange(r[j].0 as int, r[j].1 as int)
                == #[trigger] split_on(chars@, sep)[j],
{
    let mut r: Vec<(usize, usize)> = Vec::new();
    let mut start: usize = 0;
    let mut i: usize = 0;
    while i < chars.len()
        invariant
            start <= i <= chars.len(),
            split_on(chars@.take(i as int), sep).len() == r.len() + 1,
            forall|j: int| 0 <= j < r.len() ==> #[trigger] r[j].0 <= r[j].1 <= chars.len(),
            forall|j: int|
                0 <= j < r.len() ==> chars@.subrange(r[j].0 as int, r[j].1 as int)
                    == #[trigger] split_on(chars@.take(i as int), sep)[j],
            split_on(chars@.take(i as int), sep)[r.len() as int] == chars@.subrange(
                start as int,
                i as int,
            ),
        decreases chars.len() - i,
    {
        let ghost prev = split_on(chars@.take(i as int), sep);
        let ghost old_r = r@;
        assert(chars@.take(i + 1).drop_last() =~= chars@.take(i as int));
        assert(chars@.take(i + 1).last() == chars@[i as int]);
        if chars[i] == sep {
            assert(split_on(chars@.take(i + 1), sep) == prev.push(Seq::empty()));
            r.push((start, i));
            start = i + 1;
            assert(chars@.subrange(start as int, i + 1) =~= Seq::<char>::empty());
        } else {
            assert(split_on(chars@.take(i + 1), sep) == prev.update(
                prev.len() - 1,
                prev.last().push(chars@[i as int]),
            ));
            assert(chars@.subrange(start as int, i + 1) =~= chars@.subrange(
                start as int,
                i as int,
            ).push(chars@[i as int]));
        }
        let ghost old_i = i;
        i = i + 1;
        assert forall|j: int| 0 <= j < r.len() implies chars@.subrange(
            r[j].0 as int,
            r[j].1 as int,
        ) == #[trigger] split_on(chars@.take(i as int), sep)[j] by {
            if j < old_r.len() {
                assert(r@[j] == old_r[j]);
                assert(split_on(chars@.take(old_i as int), sep)[j] == prev[j]);
            }
        }
    }
    let ghost last_r = r@;
    r.push((start, i));
    assert(chars@.take(i as int) =~= chars@);
    assert forall|j: int| 0 <= j < r.len() implies #[trigger] r[j].0 <= r[j].1 <= chars.len() by {
        if j < last_r.len() {
            assert(r@[j] == last_r[j]);
        }
    }
    assert forall|j: int| 0 <= j < r.len() implies chars@.subrange(r[j].0 as int, r[j].1 as int)
        == #[trigger] split_on(chars@, sep)[j] by {
        if j < last_r.len() {
            assert(r@[j] == last_r[j]);
            assert(split_on(chars@.take(i as int), sep)[j] == split_on(chars@, sep)[j]);
        }
    }
    r
}

/// `c` is an ASCII decimal digit.
pub open spec fn is_digit(c: char) -> bool {
    48 <= (c as u32) <= 57
}

/// Every character of `s` is an ASCII decimal digit.
pub open spec fn all_digits(s: Seq<char>) -> bool {
    forall|i: int| 0 <= i < s.len() ==> is_digit(#[trigger] s[i])
}

/// The number that the decimal digits `s` write.
pub open spec fn decimal_value(s: Seq<char>) -> int
    decreases s.len(),
{
    if s.len() == 0 {
        0
    } else {
        decimal_value(s.drop_last()) * 10 + ((s.last() as u32) - 48)
    }
}

/// What `str::parse::<u32>` gives for `s`: an optional `+`, then one or more
/// ASCII digits whose value fits in a `u32`; anything else is refused.
pub open spec fn parse_u32(s: Seq<char>) -> Option<u32> {
    let digits = if s.len() > 0 && s[0] == '+' {
        s.drop_first()
    } else {
        s
    };
    if digits.len() > 0 && all_digits(digits) && decimal_value(digits) <= u32::MAX {
        Some(decimal_value(digits) as u32)
    } else {
        None
    }
}

/// A leading `+` is allowed once: `+` followed by text parses as the text
/// does, unless the text itself starts with `+`; a lone `+` or nothing at
/// all is refused; digits are read in base ten, most significant first.
pub proof fn law_parse_u32_shape(s: Seq<char>, d: char)
    ensures
        parse_u32(seq!['+'] + s) == (if s.len() > 0 && s[0] == '+' {
            None
        } else {
            parse_u32(s)
        }),
        parse_u32(seq![]) is None,
        parse_u32(seq!['+']) is None,
        is_digit(d) ==> decimal_value(s.push(d)) == 10 * decimal_value(s) + (d as u32 - 48),
        s.len() > 0 && s[0] != '+' && (exists|i: int| 0 <= i < s.len() && !is_digit(#[trigger] s[i]))
            ==> parse_u32(s) is None,
        s.len() > 0 && all_digits(s) && decimal_value(s) <= 4294967295 ==> parse_u32(s) == Some(
            decimal_value(s) as u32,
        ),
        s.len() > 0 && all_digits(s) && decimal_value(s) > 4294967295 ==> parse_u32(s) is None,
{
    assert((seq!['+'] + s).drop_first() =~= s);
    assert(s.push(d).drop_last() =~= s);
    if s.len() > 0 && s[0] == '+' {
        assert(!is_digit(s[0]));
    }
    if s.len() > 0 && all_digits(s) {
        assert(is_digit(s[0]));
    }
    if s.len() > 0 && s[0] != '+' && (exists|i: int| 0 <= i < s.len() && !is_digit(#[trigger] s[i])) {
        let i: int = choose|i: int| 0 <= i < s.len() && !is_digit(#[trigger] s[i]);
        assert(!all_digits(s));
    }
}

proof fn lemma_decimal_prefix(d: Seq<char>, i: int)
    requires
        all_digits(d),
        0 <= i <= d.len(),
    ensures
        0 <= decimal_value(d.take(i)) <= decimal_value(d),
    decreases d.len(),
{
    if i < d.len() {
        let p = d.drop_last();
        assert(all_digits(p)) by {
            assert forall|k: int| 0 <= k < p.len() implies is_digit(#[trigger] p[k]) by {
                assert(p[k] == d[k]);
            }
        }
        lemma_decimal_prefix(p, i);
        assert(p.take(i) =~= d.take(i));
        assert(is_digit(d[d.len() - 1]));
    } else {
        assert(d.take(i) =~= d);
        lemma_decimal_prefix_nonneg(d);
    }
}

proof fn lemma_decimal_prefix_nonneg(d: Seq<char>)
    requires
        all_digits(d),
    ensures
        0 <= decimal_value(d),
    decreases d.len(),
{
    if d.len() > 0 {
        let p = d.drop_last();
        assert(all_digits(p)) by {
            assert forall|k: int| 0 <= k < p.len() implies is_digit(#[trigger] p[k]) by {
                assert(p[k] == d[k]);
            }
        }
        lemma_decimal_prefix_nonneg(p);
        assert(is_digit(d[d.len() - 1]));
    }
}

/// `parse_u32` of `chars[lo..hi]`.
pub fn parse_u32_range(chars: &Vec<char>, lo: usize, hi: usize) -> (r: Option<u32>)
    requires
        lo <= hi <= chars.len(),
    ensures
        r == parse_u32(chars@.subrange(lo as int, hi as int)),
{
    let ghost s = chars@.subrange(lo as int, hi as int);
    let mut start: usize = lo;
    if lo < hi && chars[lo] == '+' {
        start = lo + 1;
        assert(s.drop_first() =~= chars@.subrange(start as int, hi as int));
    }
    let ghost digits = chars@.subrange(start as int, hi as int);
    assert(digits == (if s.len() > 0 && s[0] == '+' {
        s.drop_first()
    } else {
        s
    }));
    if start == hi {
        return None;
    }
    let mut k: usize = start;
    while k < hi
        invariant
            lo <= start <= k <= hi <= chars.len(),
            digits == chars@.subrange(start as int, hi as int),
            s == chars@.subrange(lo as int, hi as int),
            digits == (if s.len() > 0 && s[0] == '+' {
                s.drop_first()
            } else {
                s
            }),
            forall|t: int| start <= t < k ==> is_digit(#[trigger] chars@[t]),
        decreases hi - k,
    {
        let u: u32 = chars[k] as u32;
        if u < 48 || u > 57 {
            assert(!is_digit(digits[k - start]));
            return None;
        }
        k = k + 1;
    }
    assert(all_digits(digits)) by {
        assert forall|t: int| 0 <= t < digits.len() implies is_digit(#[trigger] digits[t]) by {
            assert(digits[t] == chars@[start + t]);
        }
    }
    let mut v: u64 = 0;
    k = start;
    while k < hi
        invariant
            lo <= start <= k <= hi <= chars.len(),
            digits == chars@.subrange(start as int, hi as int),
            s == chars@.subrange(lo as int, hi as int),
            digits == (if s.len() > 0 && s[0] == '+' {
                s.drop_first()
            } else {
                s
            }),
            all_digits(digits),
            v == decimal_value(chars@.subrange(start as int, k as int)),
            v <= u32::MAX,
        decreases hi - k,
    {
        let ghost before = chars@.subrange(start as int, k as int);
        assert(chars@.subrange(start as int, k + 1).drop_last() =~= before);
        assert(digits[k - start] == chars@[k as int]);
        let d: u64 = (chars[k] as u32 - 48) as u64;
        let nv: u64 = v * 10 + d;
        assert(nv == decimal_value(chars@.subrange(start as int, k + 1)));
        if nv > 4294967295 {
            proof {
                assert(chars@.subrange(start as int, k + 1) =~= digits.take(k + 1 - start));
                lemma_decimal_prefix(digits, k + 1 - start);
            }
            return None;
        }
        v = nv;
        k = k + 1;
    }
    assert(chars@.subrange(start as int, k as int) =~= digits);
    Some(v as u32)
}

/// Whether `s` starts with `prefix`.
pub fn starts_with(s: &Vec<char>, prefix: &Vec<char>) -> (r: bool)
    ensures
        r == has_prefix(s@, prefix@),
{
    if prefix.len() > s.len() {
        return false;
    }
    let mut i: usize = 0;
    while i < prefix.len()
        invariant
            prefix.len() <= s.len(),
            i <= prefix.len(),
            forall|t: int| 0 <= t < i ==> s@[t] == prefix@[t],
        decreases prefix.len() - i,
    {
        if s[i] != prefix[i] {
            assert(s@.subrange(0, prefix.len() as int)[i as int] != prefix@[i as int]);
            return false;
        }
        i = i + 1;
    }
    assert(s@.subrange(0, prefix.len() as int) =~= prefix@);
    true
}

/// `s` with every occurrence of `pat` taken out, scanning left to right as
/// `str::replace(pat, "")` does.
pub open spec fn remove_all(s: Seq<char>, pat: Seq<char>) -> Seq<char>
    decreases s.len(),
{
    if pat.len() == 0 || s.len() < pat.len() {
        s
    } else if s.take(pat.len() as int) == pat {
        remove_all(s.skip(pat.len() as int), pat)
    } else {
        seq![s[0]] + remove_all(s.drop_first(), pat)
    }
}

/// A line without the carriage return that ended it.
pub open spec fn strip_cr(l: Seq<char>) -> Seq<char> {
    if l.len() > 0 && l.last() == '\r' {
        l.drop_last()
    } else {
        l
    }
}

/// The lines of `s`, as `str::lines` yields them: split at `\n`, each
/// terminated line without a `\r` just before its `\n`, and no last line
/// when `s` is empty or ends with `\n`.
pub open spec fn lines_of(s: Seq<char>) -> Seq<Seq<char>> {
    let pieces = split_on(s, '\n');
    let body = pieces.drop_last().map_values(|l: Seq<char>| strip_cr(l));
    if pieces.last().len() == 0 {
        body
    } else {
        body.push(pieces.last())
    }
}

/// The members of `ls` joined with single spaces between them.
pub open spec fn join_spaced(ls: Seq<Seq<char>>) -> Seq<char>
    decreases ls.len(),
{
    if ls.len() == 0 {
        seq![]
    } else if ls.len() == 1 {
        ls[0]
    } else {
        join_spaced(ls.drop_last()) + seq![' '] + ls.last()
    }
}

/// A piece that holds only what it started with is the whole text.
pub proof fn lemma_split_single(s: Seq<char>, sep: char)
    ensures
        split_on(s, sep).len() == 1 && split_on(s, sep)[0].len() == 0 ==> s.len() == 0,
{
    if s.len() > 0 {
        lemma_split_nonempty(s.drop_last(), sep);
    }
}

/// Whether `pat` occurs in `s` at `i`.
pub fn occurs_at(s: &Vec<char>, pat: &Vec<char>, i: usize) -> (r: bool)
    requires
        i <= s.len(),
    ensures
        r == (i + pat.len() <= s.len() && s@.skip(i as int).take(pat.len() as int) == pat@),
{
    if pat.len() > s.len() - i {
        return false;
    }
    let mut k: usize = 0;
    while k < pat.len()
        invariant
            i + pat.len() <= s.len(),
            k <= pat.len(),
            forall|t: int| 0 <= t < k ==> s@[i + t] == pat@[t],
        decreases pat.len() - k,
    {
        if s[i + k] != pat[k] {
            assert(s@.skip(i as int).take(pat.len() as int)[k as int] != pat@[k as int]);
            return false;
        }
        k = k + 1;
    }
    assert(s@.skip(i as int).take(pat.len() as int) =~= pat@);
    true
}

/// `s` with every occurrence of `pat` taken out.
pub fn remove_occurrences(s: &Vec<char>, pat: &Vec<char>) -> (r: Vec<char>)
    requires
        pat.len() > 0,
    ensures
        r@ == remove_all(s@, pat@),
{
    let mut out: Vec<char> = Vec::new();
    let mut i: usize = 0;
    assert(s@.skip(0) =~= s@);
    while i < s.len()
        invariant
            pat.len() > 0,
            i <= s.len(),
            out@ + remove_all(s@.skip(i as int), pat@) == remove_all(s@, pat@),
        decreases s.len() - i,
    {
        let ghost rest = s@.skip(i as int);
        if occurs_at(s, pat, i) {
            assert(rest.skip(pat.len() as int) =~= s@.skip(i + pat.len()));
            i = i + pat.len();
        } else {
            assert(rest.drop_first() =~= s@.skip(i + 1));
            assert(rest =~= seq![rest[0]] + rest.drop_first());
            assert(remove_all(rest, pat@) == seq![s@[i as int]] + remove_all(s@.skip(i + 1), pat@));
            out.push(s[i]);
            assert(out@ + remove_all(s@.skip(i + 1), pat@) =~= remove_all(s@, pat@));
            i = i + 1;
        }
    }
    assert(s@.skip(i as int) =~= Seq::<char>::empty());
    assert(out@ + Seq::<char>::empty() =~= out@);
    out
}

/// The bounds of the lines of `chars`, as `lines_of` gives them.
pub fn line_bounds(chars: &Vec<char>) -> (r: Vec<(usize, usize)>)
    ensures
        r.len() == lines_of(chars@).len(),
        forall|j: int| 0 <= j < r.len() ==> #[trigger] r[j].0 <= r[j].1 <= chars.len(),
        forall|j: int|
            0 <= j < r.len() ==> chars@.subrange(r[j].0 as int, r[j].1 as int)
                == #[trigger] lines_of(chars@)[j],
{
    let segs = split_bounds(chars, '\n');
    proof {
        lemma_split_nonempty(chars@, '\n');
    }
    let ghost pieces = split_on(chars@, '\n');
    let ghost body = pieces.drop_last().map_values(|l: Seq<char>| strip_cr(l));
    let mut r: Vec<(usize, usize)> = Vec::new();
    let mut j: usize = 0;
    while j + 1 < segs.len()
        invariant
            j + 1 <= segs.len(),
            segs.len() == pieces.len(),
            pieces == split_on(chars@, '\n'),
            body == pieces.drop_last().map_values(|l: Seq<char>| strip_cr(l)),
            forall|k: int| 0 <= k < segs.len() ==> #[trigger] segs[k].0 <= segs[k].1 <= chars.len(),
            forall|k: int|
                0 <= k < segs.len() ==> chars@.subrange(segs[k].0 as int, segs[k].1 as int)
                    == #[trigger] split_on(chars@, '\n')[k],
            r.len() == j,
            forall|k: int| 0 <= k < r.len() ==> #[trigger] r[k].0 <= r[k].1 <= chars.len(),
            forall|k: int|
                0 <= k < r.len() ==> chars@.subrange(r[k].0 as int, r[k].1 as int) == #[trigger] body[k],
        decreases segs.len() - j,
    {
        let (a, b): (usize, usize) = segs[j];
        let ghost piece = pieces[j as int];
        assert(piece == chars@.subrange(a as int, b as int));
        let end: usize = if b > a && chars[b - 1] == '\r' {
            assert(piece.drop_last() =~= chars@.subrange(a as int, b - 1));
            b - 1
        } else {
            b
        };
        assert(body[j as int] == strip_cr(piece));
        r.push((a, end));
        j = j + 1;
    }
    let (a, b): (usize, usize) = segs[j];
    let ghost before = r@;
    if a < b {
        r.push((a, b));
        assert forall|k: int| 0 <= k < r.len() implies #[trigger] r[k].0 <= r[k].1 <= chars.len() by {
            if k < before.len() {
                assert(r@[k] == before[k]);
            }
        }
    } else {
        assert(pieces.last().len() == 0);
    }
    assert forall|k: int| 0 <= k < r.len() implies chars@.subrange(r[k].0 as int, r[k].1 as int)
        == #[trigger] lines_of(chars@)[k] by {
        if k < body.len() {
            assert(lines_of(chars@)[k] == body[k]);
            assert(r@[k] == before[k]);
        }
    }
    r
}

/// `String::push`: appends `c` to `s`.
#[verifier::external_body]
pub(crate) fn push_char(s: &mut String, c: char)
    ensures
        final(s)@ == old(s)@.push(c),
{
    s.push(c);
}

/// Appends `chars[a..b]` to `out`.
pub fn push_range(out: &mut String, chars: &Vec<char>, a: usize, b: usize)
    requires
        a <= b <= chars.len(),
    ensures
        final(out)@ == old(out)@ + chars@.subrange(a as int, b as int),
{
    let mut i: usize = a;
    while i < b
        invariant
            a <= i <= b <= chars.len(),
            out@ == old(out)@ + chars@.subrange(a as int, i as int),
        decreases b - i,
    {
        push_char(out, chars[i]);
        assert(chars@.subrange(a as int, i + 1) =~= chars@.subrange(a as int, i as int).push(
            chars@[i as int],
        ));
        i = i + 1;
    }
}

/// Whether `a` and `b` hold the same characters.
pub fn same_chars(a: &Vec<char>, b: &Vec<char>) -> (r: bool)
    ensures
        r == (a@ == b@),
{
    if a.len() != b.len() {
        return false;
    }
    let mut i: usize = 0;
    while i < a.len()
        invariant
            a.len() == b.len(),
            i <= a.len(),
            forall|t: int| 0 <= t < i ==> a@[t] == b@[t],
        decreases a.len() - i,
    {
        if a[i] != b[i] {
            return false;
        }
        i = i + 1;
    }
    assert(a@ =~= b@);
    true
}

} // verus!
