//! Character-level helpers that the command grammar is built on.
//!
//! Text is handled as `Vec<char>`; positions are indices into that vector, and each helper
//! is specified over `Seq<char>` by a spec function that says what it computes.

use vstd::prelude::*;

verus! {

broadcast use vstd::string::axiom_spec_iter;

/// Index of the first `c` in `s`, or `s.len()` when `s` holds no `c`.
pub open spec fn first_index(s: Seq<char>, c: char) -> nat
    decreases s.len(),
{
    if s.len() == 0 {
        0
    } else if s[0] == c {
        0
    } else {
        1 + first_index(s.drop_first(), c)
    }
}

/// `s` without its leading run of `c`.
pub open spec fn trim_start(s: Seq<char>, c: char) -> Seq<char>
    decreases s.len(),
{
    if s.len() > 0 && s[0] == c {
        trim_start(s.drop_first(), c)
    } else {
        s
    }
}

/// `s` without its trailing run of `c`.
pub open spec fn trim_end(s: Seq<char>, c: char) -> Seq<char>
    decreases s.len(),
{
    if s.len() > 0 && s.last() == c {
        trim_end(s.drop_last(), c)
    } else {
        s
    }
}

/// The three-dot marker of a variadic slot.
pub open spec fn dots() -> Seq<char> {
    seq!['.', '.', '.']
}

/// Whether `s` ends with `...`.
pub open spec fn ends_with_dots(s: Seq<char>) -> bool {
    s.len() >= 3 && s.subrange(s.len() - 3, s.len() as int) == dots()
}

/// `s` without its trailing run of `...` markers.
pub open spec fn trim_end_dots(s: Seq<char>) -> Seq<char>
    decreases s.len(),
{
    if ends_with_dots(s) {
        trim_end_dots(s.subrange(0, s.len() - 3))
    } else {
        s
    }
}

/// Whether `p` is a prefix of `s`.
pub open spec fn is_prefix(p: Seq<char>, s: Seq<char>) -> bool {
    p.len() <= s.len() && s.subrange(0, p.len() as int) == p
}

/// The characters that carry the Unicode `White_Space` property.
pub open spec fn is_white(c: char) -> bool {
    ('\u{9}' <= c && c <= '\u{d}') || c == ' ' || c == '\u{85}' || c == '\u{a0}'
        || c == '\u{1680}' || ('\u{2000}' <= c && c <= '\u{200a}') || c == '\u{2028}'
        || c == '\u{2029}' || c == '\u{202f}' || c == '\u{205f}' || c == '\u{3000}'
}

/// `s` without its leading white space.
pub open spec fn trim_white(s: Seq<char>) -> Seq<char>
    decreases s.len(),
{
    if s.len() > 0 && is_white(s[0]) {
        trim_white(s.drop_first())
    } else {
        s
    }
}

/// The pieces of `s` between the occurrences of `c`, as `str::split` gives them.
pub open spec fn split_on(s: Seq<char>, c: char) -> Seq<Seq<char>>
    decreases s.len(),
{
    let i = first_index(s, c);
    if i >= s.len() {
        seq![s]
    } else {
        seq![s.subrange(0, i as int)] + split_on(s.subrange(i as int + 1, s.len() as int), c)
    }
}

/// The pieces of `s` between the occurrences of `c`, without a last empty piece, as
/// `str::split_terminator` gives them.
pub open spec fn split_terminator(s: Seq<char>, c: char) -> Seq<Seq<char>> {
    let p = split_on(s, c);
    if p.last().len() == 0 {
        p.drop_last()
    } else {
        p
    }
}

/// Name for what `char::is_alphanumeric` says of a character outside ASCII.
pub uninterp spec fn alphanumeric_beyond_ascii(c: char) -> bool;

/// Whether `c` is alphabetic or numeric in the Unicode sense.
pub open spec fn alphanumeric(c: char) -> bool {
    if (c as u32) < 128 {
        ('a' <= c && c <= 'z') || ('A' <= c && c <= 'Z') || ('0' <= c && c <= '9')
    } else {
        alphanumeric_beyond_ascii(c)
    }
}

pub proof fn lemma_first_index(s: Seq<char>, c: char)
    ensures
        first_index(s, c) <= s.len(),
        forall|j: int| 0 <= j < first_index(s, c) ==> s[j] != c,
        first_index(s, c) < s.len() ==> s[first_index(s, c) as int] == c,
    decreases s.len(),
{
    if s.len() > 0 && s[0] != c {
        lemma_first_index(s.drop_first(), c);
        assert forall|j: int| 0 <= j < first_index(s, c) implies s[j] != c by {
            if j > 0 {
                assert(s[j] == s.drop_first()[j - 1]);
            }
        }
    }
}

/// The characters of `s`, in order.
pub fn chars_of(s: &str) -> (r: Vec<char>)
    ensures
        r@ == s@,
{
    let mut out: Vec<char> = Vec::new();
    for c in it: s.chars()
        invariant
            out@ == it.seq().take(it.index() as int),
    {
        out.push(c);
    }
    out
}

/// Relies on `FromIterator<char>` for `String`: the string of exactly these characters.
#[verifier::external_body]
pub(crate) fn string_of(s: &[char]) -> (r: String)
    ensures
        r@ == s@,
{
    s.iter().collect()
}

/// The characters `s[lo..hi]` as a `String`.
pub fn string_of_range(s: &Vec<char>, lo: usize, hi: usize) -> (r: String)
    requires
        lo <= hi <= s.len(),
    ensures
        r@ == s@.subrange(lo as int, hi as int),
{
    let mut part: Vec<char> = Vec::new();
    let mut i: usize = lo;
    while i < hi
        invariant
            lo <= i <= hi <= s.len(),
            part@ == s@.subrange(lo as int, i as int),
        decreases hi - i,
    {
        part.push(s[i]);
        i += 1;
        assert(part@ =~= s@.subrange(lo as int, i as int));
    }
    string_of(part.as_slice())
}

/// Relies on `char::is_alphanumeric`: alphabetic or numeric, which within ASCII are the
/// letters and the digits.
#[verifier::external_body]
pub(crate) fn is_alphanumeric(c: char) -> (r: bool)
    ensures
        r == alphanumeric(c),
        (c as u32) >= 128 ==> r == alphanumeric_beyond_ascii(c),
{
    c.is_alphanumeric()
}

/// Whether `c` is white space (`char::is_whitespace`).
pub fn is_white_space(c: char) -> (r: bool)
    ensures
        r == is_white(c),
{
    ('\u{9}' <= c && c <= '\u{d}') || c == ' ' || c == '\u{85}' || c == '\u{a0}'
        || c == '\u{1680}' || ('\u{2000}' <= c && c <= '\u{200a}') || c == '\u{2028}'
        || c == '\u{2029}' || c == '\u{202f}' || c == '\u{205f}' || c == '\u{3000}'
}

/// Position of the first `c` at or after `from`, or `s.len()` when there is none.
pub fn find_from(s: &Vec<char>, from: usize, c: char) -> (r: usize)
    requires
        from <= s.len(),
    ensures
        r == from + first_index(s@.subrange(from as int, s.len() as int), c),
        from <= r <= s.len(),
{
    let mut i: usize = from;
    while i < s.len() && s[i] != c
        invariant
            from <= i <= s.len(),
            first_index(s@.subrange(from as int, s.len() as int), c) == (i - from) + first_index(
                s@.subrange(i as int, s.len() as int),
                c,
            ),
        decreases s.len() - i,
    {
        assert(s@.subrange(i as int, s.len() as int).drop_first() =~= s@.subrange(
            i + 1,
            s.len() as int,
        ));
        i += 1;
    }
    i
}

/// Position after the leading run of `c` in `s[from..hi]`.
pub fn skip_char(s: &Vec<char>, from: usize, hi: usize, c: char) -> (r: usize)
    requires
        from <= hi <= s.len(),
    ensures
        from <= r <= hi,
        s@.subrange(r as int, hi as int) == trim_start(s@.subrange(from as int, hi as int), c),
{
    let mut i: usize = from;
    while i < hi && s[i] == c
        invariant
            from <= i <= hi <= s.len(),
            trim_start(s@.subrange(from as int, hi as int), c) == trim_start(
                s@.subrange(i as int, hi as int),
                c,
            ),
        decreases hi - i,
    {
        assert(s@.subrange(i as int, hi as int).drop_first() =~= s@.subrange(i + 1, hi as int));
        i += 1;
    }
    i
}

/// Position after the leading white space that starts at `from`.
pub fn skip_white(s: &Vec<char>, from: usize) -> (r: usize)
    requires
        from <= s.len(),
    ensures
        from <= r <= s.len(),
        s@.subrange(r as int, s.len() as int) == trim_white(
            s@.subrange(from as int, s.len() as int),
        ),
{
    let mut i: usize = from;
    while i < s.len() && is_white_space(s[i])
        invariant
            from <= i <= s.len(),
            trim_white(s@.subrange(from as int, s.len() as int)) == trim_white(
                s@.subrange(i as int, s.len() as int),
            ),
        decreases s.len() - i,
    {
        assert(s@.subrange(i as int, s.len() as int).drop_first() =~= s@.subrange(
            i + 1,
            s.len() as int,
        ));
        i += 1;
    }
    i
}

/// End of `s[lo..hi]` once its trailing run of `c` is dropped.
pub fn drop_trailing(s: &Vec<char>, lo: usize, hi: usize, c: char) -> (r: usize)
    requires
        lo <= hi <= s.len(),
    ensures
        lo <= r <= hi,
        s@.subrange(lo as int, r as int) == trim_end(s@.subrange(lo as int, hi as int), c),
{
    let mut j: usize = hi;
    while j > lo && s[j - 1] == c
        invariant
            lo <= j <= hi <= s.len(),
            trim_end(s@.subrange(lo as int, hi as int), c) == trim_end(
                s@.subrange(lo as int, j as int),
                c,
            ),
        decreases j - lo,
    {
        assert(s@.subrange(lo as int, j as int).drop_last() =~= s@.subrange(
            lo as int,
            j - 1,
        ));
        j -= 1;
    }
    j
}

/// Whether `s[lo..hi]` ends with `...`.
pub fn has_dots(s: &Vec<char>, lo: usize, hi: usize) -> (r: bool)
    requires
        lo <= hi <= s.len(),
    ensures
        r == ends_with_dots(s@.subrange(lo as int, hi as int)),
{
    let r = hi - lo >= 3 && s[hi - 3] == '.' && s[hi - 2] == '.' && s[hi - 1] == '.';
    proof {
        let t = s@.subrange(lo as int, hi as int);
        if t.len() >= 3 {
            assert(t.subrange(t.len() - 3, t.len() as int) =~= s@.subrange(hi - 3, hi as int));
            if r {
                assert(s@.subrange(hi - 3, hi as int) =~= dots());
            } else {
                assert(s@.subrange(hi - 3, hi as int)[0] == s@[hi - 3]);
                assert(s@.subrange(hi - 3, hi as int)[1] == s@[hi - 2]);
                assert(s@.subrange(hi - 3, hi as int)[2] == s@[hi - 1]);
                assert(dots()[0] == '.' && dots()[1] == '.' && dots()[2] == '.');
            }
        }
    }
    r
}

/// End of `s[lo..hi]` once its trailing run of `...` markers is dropped.
pub fn drop_trailing_dots(s: &Vec<char>, lo: usize, hi: usize) -> (r: usize)
    requires
        lo <= hi <= s.len(),
    ensures
        lo <= r <= hi,
        s@.subrange(lo as int, r as int) == trim_end_dots(s@.subrange(lo as int, hi as int)),
{
    let mut j: usize = hi;
    while has_dots(s, lo, j)
        invariant
            lo <= j <= hi <= s.len(),
            trim_end_dots(s@.subrange(lo as int, hi as int)) == trim_end_dots(
                s@.subrange(lo as int, j as int),
            ),
        decreases j - lo,
    {
        assert(s@.subrange(lo as int, j as int).subrange(0, j - lo - 3) =~= s@.subrange(
            lo as int,
            j - 3,
        ));
        j -= 3;
    }
    j
}

/// Whether `s[from..]` starts with `p`.
pub fn has_prefix(s: &Vec<char>, from: usize, p: &Vec<char>) -> (r: bool)
    requires
        from <= s.len(),
    ensures
        r == is_prefix(p@, s@.subrange(from as int, s.len() as int)),
{
    if p.len() > s.len() - from {
        return false;
    }
    let mut i: usize = 0;
    while i < p.len()
        invariant
            p.len() <= s.len() - from,
            0 <= i <= p.len(),
            forall|j: int| 0 <= j < i ==> s@[from + j] == p@[j],
        decreases p.len() - i,
    {
        if s[from + i] != p[i] {
            assert(s@.subrange(from as int, s.len() as int).subrange(0, p.len() as int)[i as int]
                != p@[i as int]);
            return false;
        }
        i += 1;
    }
    assert(s@.subrange(from as int, s.len() as int).subrange(0, p.len() as int) =~= p@);
    true
}

/// Spans `(lo, hi)` of the pieces of `s[from..]` between spaces, without a last empty
/// piece.
pub fn split_spaces(s: &Vec<char>, from: usize) -> (r: Vec<(usize, usize)>)
    requires
        from <= s.len(),
    ensures
        r@.len() == split_terminator(s@.subrange(from as int, s.len() as int), ' ').len(),
        forall|k: int|
            0 <= k < r@.len() ==> {
                &&& from <= (#[trigger] r@[k]).0 <= r@[k].1 <= s.len()
                &&& s@.subrange(r@[k].0 as int, r@[k].1 as int) == split_terminator(
                    s@.subrange(from as int, s.len() as int),
                    ' ',
                )[k]
            },
{
    let ghost whole = s@.subrange(from as int, s.len() as int);
    let mut spans: Vec<(usize, usize)> = Vec::new();
    let mut pos: usize = from;
    loop
        invariant_except_break
            split_on(whole, ' ') == spans@.map_values(
                |p: (usize, usize)| s@.subrange(p.0 as int, p.1 as int),
            ) + split_on(s@.subrange(pos as int, s.len() as int), ' '),
        invariant
            from <= pos <= s.len(),
            forall|k: int|
                0 <= k < spans@.len() ==> from <= #[trigger] spans@[k].0 <= spans@[k].1 <= s.len(),
        ensures
            spans@.len() > 0,
            split_on(whole, ' ') == spans@.map_values(
                |p: (usize, usize)| s@.subrange(p.0 as int, p.1 as int),
            ),
        decreases s.len() - pos,
    {
        let ghost rest = s@.subrange(pos as int, s.len() as int);
        let j = find_from(s, pos, ' ');
        proof {
            lemma_first_index(rest, ' ');
        }
        let ghost before = spans@.map_values(
            |p: (usize, usize)| s@.subrange(p.0 as int, p.1 as int),
        );
        spans.push((pos, j));
        assert(spans@.map_values(|p: (usize, usize)| s@.subrange(p.0 as int, p.1 as int))
            =~= before.push(s@.subrange(pos as int, j as int)));
        if j == s.len() {
            assert(rest.subrange(0, rest.len() as int) =~= rest);
            assert(split_on(rest, ' ') =~= seq![rest]);
            assert(split_on(whole, ' ') =~= spans@.map_values(
                |p: (usize, usize)| s@.subrange(p.0 as int, p.1 as int),
            ));
            break ;
        }
        assert(rest.subrange(0, j - pos) =~= s@.subrange(pos as int, j as int));
        assert(rest.subrange(j - pos + 1, rest.len() as int) =~= s@.subrange(
            j + 1,
            s.len() as int,
        ));
        pos = j + 1;
        assert(split_on(whole, ' ') =~= spans@.map_values(
            |p: (usize, usize)| s@.subrange(p.0 as int, p.1 as int),
        ) + split_on(s@.subrange(pos as int, s.len() as int), ' '));
    }
    let ghost pieces = spans@.map_values(|p: (usize, usize)| s@.subrange(p.0 as int, p.1 as int));
    assert(pieces.last() == s@.subrange(spans@.last().0 as int, spans@.last().1 as int));
    let last = spans[spans.len() - 1];
    if last.0 == last.1 {
        assert(pieces.last() =~= Seq::<char>::empty());
        spans.pop();
        assert(spans@.map_values(|p: (usize, usize)| s@.subrange(p.0 as int, p.1 as int))
            =~= pieces.drop_last());
    }
    spans
}

/// Index of the first white-space character of `s`, or `s.len()` when there is none.
pub open spec fn first_white(s: Seq<char>) -> nat
    decreases s.len(),
{
    if s.len() == 0 {
        0
    } else if is_white(s[0]) {
        0
    } else {
        1 + first_white(s.drop_first())
    }
}

pub proof fn lemma_first_white(s: Seq<char>)
    ensures
        first_white(s) <= s.len(),
        first_white(s) < s.len() ==> is_white(s[first_white(s) as int]),
    decreases s.len(),
{
    if s.len() > 0 && !is_white(s[0]) {
        lemma_first_white(s.drop_first());
    }
}

/// Position of the first white-space character at or after `from`, or `s.len()`.
pub fn find_white(s: &Vec<char>, from: usize) -> (r: usize)
    requires
        from <= s.len(),
    ensures
        r == from + first_white(s@.subrange(from as int, s.len() as int)),
        from <= r <= s.len(),
{
    let mut i: usize = from;
    while i < s.len() && !is_white_space(s[i])
        invariant
            from <= i <= s.len(),
            first_white(s@.subrange(from as int, s.len() as int)) == (i - from) + first_white(
                s@.subrange(i as int, s.len() as int),
            ),
        decreases s.len() - i,
    {
        assert(s@.subrange(i as int, s.len() as int).drop_first() =~= s@.subrange(
            i + 1,
            s.len() as int,
        ));
        i += 1;
    }
    i
}


/// `s` followed by `t`.
pub fn push_all(s: &mut Vec<char>, t: &Vec<char>)
    ensures
        final(s)@ == old(s)@ + t@,
{
    let mut i: usize = 0;
    while i < t.len()
        invariant
            0 <= i <= t.len(),
            s@ == old(s)@ + t@.subrange(0, i as int),
        decreases t.len() - i,
    {
        s.push(t[i]);
        i += 1;
        assert(s@ =~= old(s)@ + t@.subrange(0, i as int));
    }
    assert(t@.subrange(0, t@.len() as int) =~= t@);
}

/// `s` without its trailing white space.
pub open spec fn trim_white_end(s: Seq<char>) -> Seq<char>
    decreases s.len(),
{
    if s.len() > 0 && is_white(s.last()) {
        trim_white_end(s.drop_last())
    } else {
        s
    }
}

/// End of `s[lo..hi]` once its trailing white space is dropped.
pub fn drop_trailing_white(s: &Vec<char>, lo: usize, hi: usize) -> (r: usize)
    requires
        lo <= hi <= s.len(),
    ensures
        lo <= r <= hi,
        s@.subrange(lo as int, r as int) == trim_white_end(s@.subrange(lo as int, hi as int)),
{
    let mut j: usize = hi;
    while j > lo && is_white_space(s[j - 1])
        invariant
            lo <= j <= hi <= s.len(),
            trim_white_end(s@.subrange(lo as int, hi as int)) == trim_white_end(
                s@.subrange(lo as int, j as int),
            ),
        decreases j - lo,
    {
        assert(s@.subrange(lo as int, j as int).drop_last() =~= s@.subrange(lo as int, j - 1));
        j -= 1;
    }
    j
}


} // verus!
