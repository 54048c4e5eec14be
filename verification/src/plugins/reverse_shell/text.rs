//! Character-level building blocks: delimiters and splitting, substring
//! search, and joining.

use super::find::{first_index, lemma_first_index, lemma_first_index_bounds};
use vstd::prelude::*;
use vstd::slice::slice_subrange;

verus! {

/// Whether `c` is white space: a character with Unicode's `White_Space`
/// property.
pub open spec fn is_space(c: char) -> bool {
    let n = c as u32;
    ||| 0x09 <= n <= 0x0D
    ||| n == 0x20
    ||| n == 0x85
    ||| n == 0xA0
    ||| n == 0x1680
    ||| 0x2000 <= n <= 0x200A
    ||| n == 0x2028
    ||| n == 0x2029
    ||| n == 0x202F
    ||| n == 0x205F
    ||| n == 0x3000
}

/// What separates the parts of a text.
#[derive(Clone, Copy, Debug)]
pub enum Delimiter {
    /// One given character.
    Char(char),
    /// Any white-space character.
    WhiteSpace,
}

impl Delimiter {
    /// Whether `c` is a delimiter.
    pub open spec fn matches(self, c: char) -> bool {
        match self {
            Delimiter::Char(d) => c == d,
            Delimiter::WhiteSpace => is_space(c),
        }
    }

    /// Tests whether `c` is a delimiter.
    pub fn is_match(&self, c: char) -> (b: bool)
        ensures
            b == self.matches(c),
    {
        match self {
            Delimiter::Char(d) => c == *d,
            Delimiter::WhiteSpace => {
                let n: u32 = c as u32;
                (0x09 <= n && n <= 0x0D) || n == 0x20 || n == 0x85 || n == 0xA0 || n == 0x1680 || (
                0x2000 <= n && n <= 0x200A) || n == 0x2028 || n == 0x2029 || n == 0x202F || n
                    == 0x205F || n == 0x3000
            },
        }
    }
}

/// The number of characters of `s` before its first delimiter; the length
/// of `s` if it holds none.
pub open spec fn lead_len(s: Seq<char>, d: Delimiter) -> nat {
    first_index(s, |c: char| d.matches(c)) as nat
}

/// The parts of `s` between its delimiters, in order. A text with `n`
/// delimiters has `n + 1` parts, some of which may be empty.
pub open spec fn split(s: Seq<char>, d: Delimiter) -> Seq<Seq<char>>
    decreases s.len(),
{
    let n = lead_len(s, d) as int;
    if n >= s.len() {
        seq![s]
    } else {
        seq![s.take(n)] + split(s.skip(n + 1), d)
    }
}

/// The non-empty parts of `s` between runs of white space.
pub open spec fn fields(s: Seq<char>) -> Seq<Seq<char>> {
    split(s, Delimiter::WhiteSpace).filter(|part: Seq<char>| part.len() > 0)
}

/// The contents of a list of slices.
pub open spec fn views(parts: Seq<&[char]>) -> Seq<Seq<char>> {
    parts.map_values(|part: &[char]| part@)
}

/// `lead_len` is the position of the first delimiter.
pub proof fn lemma_lead_len(s: Seq<char>, d: Delimiter, k: int)
    requires
        0 <= k <= s.len(),
        forall|j: int| 0 <= j < k ==> !d.matches(s[j]),
        k < s.len() ==> d.matches(s[k]),
    ensures
        lead_len(s, d) == k,
{
    lemma_first_index(s, |c: char| d.matches(c), k);
}

/// No character before position `lead_len` is a delimiter, and the one at
/// that position, if there is one, is.
pub proof fn lemma_lead_len_bounds(s: Seq<char>, d: Delimiter)
    ensures
        lead_len(s, d) <= s.len(),
        forall|j: int| 0 <= j < lead_len(s, d) ==> !d.matches(#[trigger] s[j]),
        lead_len(s, d) < s.len() ==> d.matches(s[lead_len(s, d) as int]),
{
    lemma_first_index_bounds(s, |c: char| d.matches(c));
}

/// Cuts `text` at every delimiter.
pub fn split_text<'a>(text: &'a [char], d: Delimiter) -> (parts: Vec<&'a [char]>)
    ensures
        views(parts@) == split(text@, d),
{
    let n = text.len();
    let mut parts: Vec<&'a [char]> = Vec::new();
    let mut start: usize = 0;
    let mut i: usize = 0;
    proof {
        assert(text@.skip(0) =~= text@);
        assert(views(parts@) + split(text@, d) =~= split(text@, d));
    }
    while i < n
        invariant
            n == text@.len(),
            0 <= start <= i <= n,
            forall|j: int| start <= j < i ==> !d.matches(text@[j]),
            split(text@, d) == views(parts@) + split(text@.skip(start as int), d),
        decreases n - i,
    {
        if d.is_match(text[i]) {
            let part = slice_subrange(text, start, i);
            proof {
                let t = text@.skip(start as int);
                assert forall|j: int| 0 <= j < i - start implies !d.matches(t[j]) by {
                    assert(t[j] == text@[start + j]);
                }
                lemma_lead_len(t, d, i - start);
                assert(t.take(i - start) =~= part@);
                assert(t.skip(i - start + 1) =~= text@.skip(i + 1));
                assert(views(parts@.push(part)) =~= views(parts@) + seq![part@]);
            }
            parts.push(part);
            start = i + 1;
        }
        i += 1;
    }
    let part = slice_subrange(text, start, n);
    proof {
        let t = text@.skip(start as int);
        assert forall|j: int| 0 <= j < n - start implies !d.matches(t[j]) by {
            assert(t[j] == text@[start + j]);
        }
        lemma_lead_len(t, d, n - start);
        assert(t =~= part@);
        assert(views(parts@.push(part)) =~= views(parts@) + seq![part@]);
    }
    parts.push(part);
    parts
}

/// Cuts `text` into its white-space-separated fields.
pub fn split_fields<'a>(text: &'a [char]) -> (parts: Vec<&'a [char]>)
    ensures
        views(parts@) == fields(text@),
{
    let all = split_text(text, Delimiter::WhiteSpace);
    let mut parts: Vec<&'a [char]> = Vec::new();
    let ghost keep = |part: Seq<char>| part.len() > 0;
    let mut i: usize = 0;
    while i < all.len()
        invariant
            0 <= i <= all@.len(),
            keep == (|part: Seq<char>| part.len() > 0),
            views(parts@) == views(all@).take(i as int).filter(keep),
        decreases all@.len() - i,
    {
        let part = all[i];
        proof {
            let done = views(all@).take(i as int);
            let next = views(all@).take(i + 1);
            assert(next.drop_last() =~= done);
            assert(next.last() == part@);
            reveal(Seq::filter);
            assert(views(parts@.push(part)) =~= views(parts@).push(part@));
        }
        if part.len() > 0 {
            parts.push(part);
        }
        i += 1;
    }
    proof {
        assert(views(all@).take(all@.len() as int) =~= views(all@));
    }
    parts
}

/// The characters of `s`, one by one.
pub fn chars_of(s: &str) -> (chars: Vec<char>)
    ensures
        chars@ == s@,
{
    let mut chars: Vec<char> = Vec::new();
    for c in it: s.chars()
        invariant
            it.seq() == s@,
            chars@ == it.seq().take(it.index() as int),
    {
        chars.push(c);
    }
    chars
}

/// Whether `needle` stands in `hay` at position `i`.
pub open spec fn occurs_at(hay: Seq<char>, needle: Seq<char>, i: int) -> bool {
    &&& 0 <= i
    &&& i + needle.len() <= hay.len()
    &&& hay.subrange(i, i + needle.len()) == needle
}

/// Whether `needle` stands somewhere in `hay`. The empty text stands in
/// every text.
pub open spec fn contains_text(hay: Seq<char>, needle: Seq<char>) -> bool {
    exists|i: int| occurs_at(hay, needle, i)
}

/// Tests whether `needle` stands in `hay` at position `i`.
pub(crate) fn matches_at(hay: &[char], needle: &[char], i: usize) -> (b: bool)
    requires
        i + needle@.len() <= hay@.len(),
    ensures
        b == occurs_at(hay@, needle@, i as int),
{
    let n = hay.len();
    let m = needle.len();
    let mut k: usize = 0;
    while k < m
        invariant
            n == hay@.len(),
            m == needle@.len(),
            i + m <= n,
            0 <= k <= m,
            forall|j: int| 0 <= j < k ==> hay@[i + j] == needle@[j],
        decreases m - k,
    {
        if hay[i + k] != needle[k] {
            proof {
                assert(hay@.subrange(i as int, i + m)[k as int] == hay@[i + k]);
            }
            return false;
        }
        k += 1;
    }
    proof {
        assert(hay@.subrange(i as int, i + m) =~= needle@);
    }
    true
}

/// Tests whether `needle` stands somewhere in `hay`.
pub fn text_contains(hay: &[char], needle: &[char]) -> (b: bool)
    ensures
        b == contains_text(hay@, needle@),
{
    let n = hay.len();
    let m = needle.len();
    if m > n {
        return false;
    }
    let last = n - m;
    let mut i: usize = 0;
    while i < last
        invariant
            n == hay@.len(),
            m == needle@.len(),
            last == n - m,
            0 <= i <= last,
            forall|j: int| 0 <= j < i ==> !occurs_at(hay@, needle@, j),
        decreases last - i,
    {
        if matches_at(hay, needle, i) {
            return true;
        }
        i += 1;
    }
    matches_at(hay, needle, last)
}

/// Tests whether two texts are the same.
pub fn text_equal(a: &[char], b: &[char]) -> (r: bool)
    ensures
        r == (a@ == b@),
{
    if a.len() != b.len() {
        return false;
    }
    let r = matches_at(a, b, 0);
    proof {
        assert(a@.subrange(0, a@.len() as int) =~= a@);
    }
    r
}

/// The parts of `parts` written one after another with `sep` between
/// every two neighbours.
pub open spec fn joined(parts: Seq<Seq<char>>, sep: Seq<char>) -> Seq<char>
    decreases parts.len(),
{
    if parts.len() == 0 {
        Seq::<char>::empty()
    } else if parts.len() == 1 {
        parts[0]
    } else {
        joined(parts.drop_last(), sep) + sep + parts.last()
    }
}

/// Whether no character of `s` is a delimiter.
pub open spec fn free_of(s: Seq<char>, d: Delimiter) -> bool {
    forall|i: int| 0 <= i < s.len() ==> !d.matches(#[trigger] s[i])
}

/// A text without a delimiter is its own single part.
pub proof fn lemma_split_whole(s: Seq<char>, d: Delimiter)
    requires
        free_of(s, d),
    ensures
        split(s, d) == seq![s],
{
    lemma_lead_len(s, d, s.len() as int);
}

/// The first part of a text ends before its first delimiter, and the
/// other parts are those of what follows that delimiter.
pub proof fn lemma_split_first(head: Seq<char>, c: char, rest: Seq<char>, d: Delimiter)
    requires
        free_of(head, d),
        d.matches(c),
    ensures
        split(head + seq![c] + rest, d) == seq![head] + split(rest, d),
{
    let s = head + seq![c] + rest;
    let k = head.len() as int;
    assert forall|j: int| 0 <= j < k implies !d.matches(s[j]) by {
        assert(s[j] == head[j]);
    }
    assert(s[k] == c);
    lemma_lead_len(s, d, k);
    assert(s.take(k) =~= head);
    assert(s.skip(k + 1) =~= rest);
}

/// A text has one part at least, and none of its parts holds a
/// delimiter.
pub proof fn lemma_split_parts(s: Seq<char>, d: Delimiter)
    ensures
        split(s, d).len() >= 1,
        forall|i: int| 0 <= i < split(s, d).len() ==> free_of(#[trigger] split(s, d)[i], d),
    decreases s.len(),
{
    lemma_lead_len_bounds(s, d);
    let n = lead_len(s, d) as int;
    if n >= s.len() {
    } else {
        let rest = s.skip(n + 1);
        lemma_split_parts(rest, d);
        let parts = split(s, d);
        assert forall|i: int| 0 <= i < parts.len() implies free_of(#[trigger] parts[i], d) by {
            if i == 0 {
                assert forall|j: int| 0 <= j < parts[0].len() implies !d.matches(
                    #[trigger] parts[0][j],
                ) by {
                    assert(parts[0][j] == s[j]);
                }
            } else {
                assert(parts[i] == split(rest, d)[i - 1]);
            }
        }
    }
}

/// Writing a part in front of a list of parts puts it and a separator in
/// front of the joined text.
pub proof fn lemma_joined_first(head: Seq<char>, rest: Seq<Seq<char>>, sep: Seq<char>)
    requires
        rest.len() >= 1,
    ensures
        joined(seq![head] + rest, sep) == head + sep + joined(rest, sep),
    decreases rest.len(),
{
    let all = seq![head] + rest;
    assert(all.last() == rest.last());
    if rest.len() == 1 {
        assert(all.drop_last() =~= seq![head]);
        assert(joined(all.drop_last(), sep) == head);
    } else {
        assert(all.drop_last() =~= seq![head] + rest.drop_last());
        lemma_joined_first(head, rest.drop_last(), sep);
        assert(head + sep + joined(rest.drop_last(), sep) + sep + rest.last() =~= head + sep + (
        joined(rest.drop_last(), sep) + sep + rest.last()));
    }
}

/// Joining the parts of a text with the character at which it was cut
/// gives the text back.
pub proof fn lemma_split_joined(s: Seq<char>, c: char)
    ensures
        joined(split(s, Delimiter::Char(c)), seq![c]) == s,
    decreases s.len(),
{
    let d = Delimiter::Char(c);
    lemma_lead_len_bounds(s, d);
    let n = lead_len(s, d) as int;
    if n >= s.len() {
    } else {
        let rest = s.skip(n + 1);
        lemma_split_joined(rest, c);
        lemma_split_parts(rest, d);
        lemma_joined_first(s.take(n), split(rest, d), seq![c]);
        assert(s.take(n) + seq![c] + rest =~= s);
    }
}

} // verus!
