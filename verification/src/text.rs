//! Text handling: splitting, trimming and searching.
use vstd::prelude::*;
use vstd::string::*;

verus! {

/// The characters with the Unicode `White_Space` property.
pub open spec fn is_space(c: char) -> bool {
    let n: u32 = c as u32;
    ||| 0x9 <= n <= 0xd
    ||| n == 0x20
    ||| n == 0x85
    ||| n == 0xa0
    ||| n == 0x1680
    ||| 0x2000 <= n <= 0x200a
    ||| n == 0x2028
    ||| n == 0x2029
    ||| n == 0x202f
    ||| n == 0x205f
    ||| n == 0x3000
}

/// `s` without its leading white space.
pub open spec fn trimmed_start(s: Seq<char>) -> Seq<char>
    decreases s.len(),
{
    if s.len() > 0 && is_space(s[0]) {
        trimmed_start(s.drop_first())
    } else {
        s
    }
}

/// `s` without its trailing white space.
pub open spec fn trimmed_end(s: Seq<char>) -> Seq<char>
    decreases s.len(),
{
    if s.len() > 0 && is_space(s.last()) {
        trimmed_end(s.drop_last())
    } else {
        s
    }
}

/// `s` without its leading and trailing white space.
pub open spec fn trimmed(s: Seq<char>) -> Seq<char> {
    trimmed_end(trimmed_start(s))
}

/// The characters of `s`.
pub fn chars_of(s: &str) -> (v: Vec<char>)
    ensures
        v@ == s@,
{
    let mut v: Vec<char> = Vec::new();
    for c in it: s.chars()
        invariant
            it.seq() == s@,
            v@ == s@.take(it.index() as int),
    {
        v.push(c);
    }
    v
}

/// Whether `c` has the Unicode `White_Space` property.
pub fn whitespace(c: char) -> (r: bool)
    ensures
        r == is_space(c),
{
    let n: u32 = c as u32;
    (0x9 <= n && n <= 0xd) || n == 0x20 || n == 0x85 || n == 0xa0 || n == 0x1680 || (0x2000 <= n
        && n <= 0x200a) || n == 0x2028 || n == 0x2029 || n == 0x202f || n == 0x205f || n == 0x3000
}

/// The part of `s` between its leading and its trailing white space.
pub fn trim<'a>(s: &'a str) -> (r: &'a str)
    ensures
        r@ == trimmed(s@),
{
    let v: Vec<char> = chars_of(s);
    let mut from: usize = 0;
    assert(s@.skip(0) =~= s@);
    while from < v.len() && whitespace(v[from])
        invariant
            v@ == s@,
            from <= v@.len(),
            trimmed_start(s@.skip(from as int)) == trimmed_start(s@),
        decreases v@.len() - from,
    {
        assert(s@.skip(from as int).drop_first() =~= s@.skip(from + 1));
        from += 1;
    }
    assert(trimmed_start(s@) == s@.skip(from as int));
    let mut to: usize = v.len();
    assert(s@.subrange(from as int, to as int) =~= s@.skip(from as int));
    while from < to && whitespace(v[to - 1])
        invariant
            v@ == s@,
            from <= to <= v@.len(),
            trimmed_end(s@.subrange(from as int, to as int)) == trimmed(s@),
        decreases to,
    {
        assert(s@.subrange(from as int, to as int).drop_last() =~= s@.subrange(
            from as int,
            to - 1,
        ));
        to -= 1;
    }
    s.substring_char(from, to)
}

/// The pieces of `s` between the occurrences of `sep`, in order; `sep` itself is in none of them.
pub open spec fn split(s: Seq<char>, sep: char) -> Seq<Seq<char>>
    decreases s.len(),
{
    if s.len() == 0 {
        seq![Seq::empty()]
    } else {
        let before = split(s.drop_last(), sep);
        if s.last() == sep {
            before.push(Seq::empty())
        } else {
            before.drop_last().push(before.last().push(s.last()))
        }
    }
}

/// There is always a piece, though it may be empty.
pub proof fn lemma_split_nonempty(s: Seq<char>, sep: char)
    ensures
        split(s, sep).len() > 0,
    decreases s.len(),
{
    if s.len() > 0 {
        lemma_split_nonempty(s.drop_last(), sep);
    }
}

/// The views of a list of string slices.
pub open spec fn views(v: Seq<&str>) -> Seq<Seq<char>> {
    v.map_values(|p: &str| p@)
}

/// Cuts `s` at every occurrence of `sep`.
pub fn split_on<'a>(s: &'a str, sep: char) -> (r: Vec<&'a str>)
    ensures
        views(r@) == split(s@, sep),
        r@.len() == split(s@, sep).len(),
        forall|i: int| 0 <= i < r@.len() ==> (#[trigger] r@[i])@ == split(s@, sep)[i],
{
    let v: Vec<char> = chars_of(s);
    let mut r: Vec<&'a str> = Vec::new();
    let mut from: usize = 0;
    let mut i: usize = 0;
    assert(views(r@).push(s@.subrange(0, 0)) =~~= seq![Seq::empty()]);
    while i < v.len()
        invariant
            v@ == s@,
            from <= i <= v@.len(),
            split(s@.take(i as int), sep) == views(r@).push(s@.subrange(from as int, i as int)),
        decreases v@.len() - i,
    {
        let ghost before = views(r@);
        let ghost piece = s@.subrange(from as int, i as int);
        let ghost next = s@.take(i + 1);
        assert(next.drop_last() =~= s@.take(i as int));
        assert(next.last() == s@[i as int]);
        if v[i] == sep {
            let p: &'a str = s.substring_char(from, i);
            r.push(p);
            from = i + 1;
            assert(views(r@) =~= before.push(piece));
            assert(s@.subrange(from as int, i + 1) =~= Seq::<char>::empty());
        } else {
            assert(before.push(piece).drop_last() =~= before);
            assert(s@.subrange(from as int, i + 1) =~= piece.push(s@[i as int]));
        }
        i += 1;
    }
    assert(s@.take(i as int) =~= s@);
    let ghost before = views(r@);
    let last: &'a str = s.substring_char(from, i);
    r.push(last);
    assert(views(r@) =~= before.push(s@.subrange(from as int, i as int)));
    assert forall|k: int| 0 <= k < r@.len() implies (#[trigger] r@[k])@ == split(s@, sep)[k] by {
        assert(views(r@)[k] == r@[k]@);
    }
    r
}

/// Whether `pat` stands in `s` at position `i`.
pub open spec fn occurs_at(s: Seq<char>, pat: Seq<char>, i: int) -> bool {
    &&& 0 <= i
    &&& i + pat.len() <= s.len()
    &&& s.subrange(i, i + pat.len()) == pat
}

/// The first position, from `i` on, at which `pat` stands in `s`.
pub open spec fn first_match_from(s: Seq<char>, pat: Seq<char>, i: int) -> Option<int>
    decreases s.len() - i + 1,
{
    if i + pat.len() > s.len() {
        None
    } else if occurs_at(s, pat, i) {
        Some(i)
    } else {
        first_match_from(s, pat, i + 1)
    }
}

/// The first position at which `pat` stands in `s`.
pub open spec fn first_match(s: Seq<char>, pat: Seq<char>) -> Option<int> {
    first_match_from(s, pat, 0)
}

/// `first_match_from` finds the least position, and misses none.
pub proof fn lemma_first_match_from(s: Seq<char>, pat: Seq<char>, i: int)
    requires
        0 <= i,
    ensures
        match first_match_from(s, pat, i) {
            Some(k) => i <= k && occurs_at(s, pat, k) && forall|j: int|
                i <= j < k ==> !occurs_at(s, pat, j),
            None => forall|j: int| i <= j ==> !occurs_at(s, pat, j),
        },
    decreases s.len() - i + 1,
{
    if i + pat.len() <= s.len() && !occurs_at(s, pat, i) {
        lemma_first_match_from(s, pat, i + 1);
    }
}

/// The first position, counted in characters, at which `pat` stands in `s`.
pub fn find(s: &str, pat: &str) -> (r: Option<usize>)
    ensures
        match r {
            Some(k) => first_match(s@, pat@) == Some(k as int),
            None => first_match(s@, pat@) is None,
        },
{
    let v: Vec<char> = chars_of(s);
    let p: Vec<char> = chars_of(pat);
    if p.len() > v.len() {
        return None;
    }
    let last: usize = v.len() - p.len();
    let mut i: usize = 0;
    while i <= last
        invariant
            v@ == s@,
            p@ == pat@,
            last + p.len() == v.len(),
            i <= last + 1,
            first_match(s@, pat@) == first_match_from(s@, pat@, i as int),
        decreases last + 1 - i,
    {
        let mut k: usize = 0;
        while k < p.len() && v[i + k] == p[k]
            invariant
                v@ == s@,
                p@ == pat@,
                last + p.len() == v.len(),
                i <= last,
                k <= p@.len(),
                forall|j: int| 0 <= j < k ==> v@[i + j] == p@[j],
            decreases p@.len() - k,
        {
            k += 1;
        }
        let ghost sub = s@.subrange(i as int, i + pat@.len());
        if k == p.len() {
            assert(sub =~= pat@);
            return Some(i);
        }
        assert(sub[k as int] != pat@[k as int]);
        if i == last {
            assert(first_match_from(s@, pat@, i + 1) is None);
            return None;
        }
        i += 1;
    }
    None
}

/// `s` with every decimal comma written as a point.
pub open spec fn pointed(s: Seq<char>) -> Seq<char> {
    s.map_values(|c: char| if c == ',' { '.' } else { c })
}

/// A copy of `s` in which every `,` is a `.`.
pub fn commas_to_points(s: &str) -> (r: String)
    ensures
        r@ == pointed(s@),
        r@.len() == s@.len(),
        forall|i: int|
            0 <= i < s@.len() ==> #[trigger] r@[i] == (if s@[i] == ',' {
                '.'
            } else {
                s@[i]
            }),
{
    let v: Vec<char> = chars_of(s);
    let mut r: String = String::new();
    let mut i: usize = 0;
    while i < v.len()
        invariant
            v@ == s@,
            i <= v@.len(),
            r@ == pointed(s@.take(i as int)),
        decreases v@.len() - i,
    {
        if v[i] == ',' {
            proof {
                reveal_strlit(".");
            }
            r.append(".");
        } else {
            r.append(s.substring_char(i, i + 1));
        }
        assert(r@ =~= pointed(s@.take(i + 1)));
        i += 1;
    }
    assert(s@.take(i as int) =~= s@);
    r
}

/// Splitting a text that was joined with the separator gives the pieces of its two halves.
pub proof fn lemma_split_joined(p: Seq<char>, q: Seq<char>, sep: char)
    ensures
        split(p.push(sep) + q, sep) == split(p, sep) + split(q, sep),
    decreases q.len(),
{
    let whole = p.push(sep) + q;
    lemma_split_nonempty(q, sep);
    if q.len() == 0 {
        assert(whole =~= p.push(sep));
        assert(whole.drop_last() =~= p);
        assert(split(p, sep).push(Seq::empty()) =~= split(p, sep) + split(q, sep));
    } else {
        lemma_split_joined(p, q.drop_last(), sep);
        lemma_split_nonempty(q.drop_last(), sep);
        assert(whole.drop_last() =~= p.push(sep) + q.drop_last());
        assert(whole.last() == q.last());
        let before = split(whole.drop_last(), sep);
        assert(before == split(p, sep) + split(q.drop_last(), sep));
        assert(before.last() == split(q.drop_last(), sep).last());
        assert(before.drop_last() =~= split(p, sep) + split(q.drop_last(), sep).drop_last());
        assert(split(whole, sep) =~= split(p, sep) + split(q, sep));
    }
}

/// A text without the separator is its only piece.
pub proof fn lemma_split_single(s: Seq<char>, sep: char)
    requires
        !s.contains(sep),
    ensures
        split(s, sep) == seq![s],
    decreases s.len(),
{
    if s.len() == 0 {
        assert(s =~= Seq::empty());
    } else {
        let front = s.drop_last();
        assert(s.last() != sep) by {
            assert(s[s.len() - 1] != sep);
        }
        assert(!front.contains(sep)) by {
            assert forall|i: int| 0 <= i < front.len() implies front[i] != sep by {
                assert(s[i] != sep);
            }
        }
        lemma_split_single(front, sep);
        assert(front.push(s.last()) =~= s);
        assert(split(s, sep) =~= seq![s]);
    }
}

/// Whether `s` is free of white space at both ends.
pub open spec fn is_trimmed(s: Seq<char>) -> bool {
    s.len() > 0 ==> !is_space(s[0]) && !is_space(s.last())
}

/// `trimmed` takes white space off both ends and nothing else: what it leaves stands in `s` between
/// two runs of white space, and has none at its own ends.
pub proof fn lemma_trimmed(s: Seq<char>) -> (bounds: (int, int))
    ensures
        0 <= bounds.0 <= bounds.1 <= s.len(),
        trimmed(s) == s.subrange(bounds.0, bounds.1),
        is_trimmed(trimmed(s)),
        bounds.0 < bounds.1 ==> !is_space(s[bounds.0]) && !is_space(s[bounds.1 - 1]),
        forall|i: int| 0 <= i < bounds.0 ==> is_space(#[trigger] s[i]),
        forall|i: int| bounds.1 <= i < s.len() ==> is_space(#[trigger] s[i]),
    decreases s.len(),
{
    if s.len() > 0 && is_space(s[0]) {
        let rest = s.drop_first();
        let inner = lemma_trimmed(rest);
        assert(trimmed(s) == trimmed(rest));
        assert forall|i: int| 0 <= i < inner.0 + 1 implies is_space(#[trigger] s[i]) by {
            if i > 0 {
                assert(rest[i - 1] == s[i]);
            }
        }
        assert forall|i: int| inner.1 + 1 <= i < s.len() implies is_space(#[trigger] s[i]) by {
            assert(rest[i - 1] == s[i]);
        }
        assert(s.subrange(inner.0 + 1, inner.1 + 1) =~= rest.subrange(inner.0, inner.1));
        (inner.0 + 1, inner.1 + 1)
    } else if s.len() > 0 && is_space(s.last()) {
        let rest = s.drop_last();
        assert(rest.len() > 0 ==> rest[0] == s[0]);
        let inner = lemma_trimmed(rest);
        assert(trimmed(s) == trimmed(rest));
        assert forall|i: int| inner.1 <= i < s.len() implies is_space(#[trigger] s[i]) by {
            if i < rest.len() {
                assert(rest[i] == s[i]);
            }
        }
        assert forall|i: int| 0 <= i < inner.0 implies is_space(#[trigger] s[i]) by {
            assert(rest[i] == s[i]);
        }
        assert(s.subrange(inner.0, inner.1) =~= rest.subrange(inner.0, inner.1));
        inner
    } else {
        assert(s.subrange(0, s.len() as int) =~= s);
        (0, s.len() as int)
    }
}

/// Writing commas as points keeps the length and every other character: at each position there is a
/// point where the text has a comma, and what the text has elsewhere. A text without a comma stays as
/// it is.
pub proof fn lemma_pointed(s: Seq<char>)
    ensures
        pointed(s).len() == s.len(),
        forall|i: int|
            0 <= i < s.len() ==> #[trigger] pointed(s)[i] == (if s[i] == ',' {
                '.'
            } else {
                s[i]
            }),
        !s.contains(',') ==> pointed(s) == s,
{
    if !s.contains(',') {
        assert forall|i: int| 0 <= i < s.len() implies pointed(s)[i] == s[i] by {
            assert(s.contains(s[i]));
        }
        assert(pointed(s) =~= s);
    }
}

/// The first match is a place where the text holds the pattern, character by character, and there is
/// none before it; without a match there is no such place at all.
pub proof fn lemma_first_match(s: Seq<char>, pat: Seq<char>)
    ensures
        match first_match(s, pat) {
            Some(k) => {
                &&& 0 <= k
                &&& k + pat.len() <= s.len()
                &&& s.subrange(k, k + pat.len()) == pat
                &&& forall|j: int|
                    0 <= j < k ==> #[trigger] s.subrange(j, j + pat.len()) != pat
            },
            None => forall|j: int|
                0 <= j && j + pat.len() <= s.len() ==> #[trigger] s.subrange(j, j + pat.len())
                    != pat,
        },
{
    lemma_first_match_from(s, pat, 0);
    match first_match(s, pat) {
        Some(k) => {
            assert forall|j: int| 0 <= j < k implies #[trigger] s.subrange(j, j + pat.len())
                != pat by {
                assert(!occurs_at(s, pat, j));
            }
        },
        None => {
            assert forall|j: int| 0 <= j && j + pat.len() <= s.len() implies #[trigger] s.subrange(
                j,
                j + pat.len(),
            ) != pat by {
                assert(!occurs_at(s, pat, j));
            }
        },
    }
}

/// There is one piece more than there are separators.
pub proof fn lemma_split_counts(s: Seq<char>, sep: char)
    ensures
        split(s, sep).len() == s.filter(|c: char| c == sep).len() + 1,
    decreases s.len(),
{
    reveal(Seq::filter);
    if s.len() > 0 {
        lemma_split_counts(s.drop_last(), sep);
    }
}

/// No piece holds the separator.
pub proof fn lemma_pieces_are_free(s: Seq<char>, sep: char)
    ensures
        forall|i: int| 0 <= i < split(s, sep).len() ==> !(#[trigger] split(s, sep)[i]).contains(sep),
    decreases s.len(),
{
    if s.len() > 0 {
        let before = split(s.drop_last(), sep);
        lemma_pieces_are_free(s.drop_last(), sep);
        lemma_split_nonempty(s.drop_last(), sep);
        assert forall|i: int| 0 <= i < split(s, sep).len() implies !(#[trigger] split(
            s,
            sep,
        )[i]).contains(sep) by {
            let piece = split(s, sep)[i];
            if i < before.len() - 1 || (i == before.len() - 1 && s.last() == sep) {
                assert(piece == before[i]);
            } else if s.last() != sep {
                assert(piece == before.last().push(s.last()));
                assert(!before[before.len() - 1].contains(sep));
                assert forall|k: int| 0 <= k < piece.len() implies piece[k] != sep by {
                    if k < before.last().len() {
                        assert(before.last().contains(before.last()[k]));
                    }
                }
            }
        }
    }
}

/// White space is the tabs, the line ends, the spaces of every width and the two separators, and
/// nothing else.
pub proof fn lemma_spaces(c: char)
    ensures
        is_space(c) <==> {
            // tab, line feed, vertical tab, form feed, carriage return, next line
            ||| c == '\t' || c == '\n' || c == '\u{b}' || c == '\u{c}' || c == '\r' || c == '\u{85}'
            // space, no-break space, Ogham space mark
            ||| c == ' ' || c == '\u{a0}' || c == '\u{1680}'
            // en quad to hair space
            ||| '\u{2000}' <= c <= '\u{200a}'
            // line separator, paragraph separator
            ||| c == '\u{2028}' || c == '\u{2029}'
            // narrow no-break space, medium mathematical space, ideographic space
            ||| c == '\u{202f}' || c == '\u{205f}' || c == '\u{3000}'
        },
        '0' <= c <= '9' ==> !is_space(c),
{
}

} // verus!
