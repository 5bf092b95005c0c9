//! Character-level helpers shared by the header parsers and renderers.
use vstd::prelude::*;

verus! {

/// Relies on `String::push`: appends one character to the end of the string.
#[verifier::external_body]
pub(crate) fn push_char(s: &mut String, c: char)
    ensures
        final(s)@ == old(s)@.push(c),
{
    s.push(c)
}

/// The characters of `s`, in order.
pub fn chars_of(s: &str) -> (r: Vec<char>)
    ensures
        r@ == s@,
{
    let mut r: Vec<char> = Vec::new();
    for c in it: s.chars()
        invariant
            it.seq() == s@,
            r@ == it.seq().take(it.index() as int),
    {
        r.push(c);
    }
    r
}

/// The characters that `char::is_whitespace` accepts (Unicode `White_Space`).
pub open spec fn is_space(c: char) -> bool {
    ('\u{9}' <= c && c <= '\u{d}') || c == ' ' || c == '\u{85}' || c == '\u{a0}'
        || c == '\u{1680}' || ('\u{2000}' <= c && c <= '\u{200a}') || c == '\u{2028}'
        || c == '\u{2029}' || c == '\u{202f}' || c == '\u{205f}' || c == '\u{3000}'
}

pub fn is_space_exec(c: char) -> (r: bool)
    ensures
        r == is_space(c),
{
    ('\u{9}' <= c && c <= '\u{d}') || c == ' ' || c == '\u{85}' || c == '\u{a0}'
        || c == '\u{1680}' || ('\u{2000}' <= c && c <= '\u{200a}') || c == '\u{2028}'
        || c == '\u{2029}' || c == '\u{202f}' || c == '\u{205f}' || c == '\u{3000}'
}

/// `s` without the leading characters equal to `c` (or, for `None`, the leading spaces).
pub open spec fn strip_start(s: Seq<char>, c: Option<char>) -> Seq<char>
    decreases s.len(),
{
    if s.len() > 0 && strippable(s[0], c) {
        strip_start(s.drop_first(), c)
    } else {
        s
    }
}

/// `s` without the trailing characters equal to `c` (or, for `None`, the trailing spaces).
pub open spec fn strip_end(s: Seq<char>, c: Option<char>) -> Seq<char>
    decreases s.len(),
{
    if s.len() > 0 && strippable(s.last(), c) {
        strip_end(s.drop_last(), c)
    } else {
        s
    }
}

pub open spec fn strippable(x: char, c: Option<char>) -> bool {
    match c {
        Some(c) => x == c,
        None => is_space(x),
    }
}

/// What `str::trim` returns: the string without its surrounding whitespace.
pub open spec fn trim(s: Seq<char>) -> Seq<char> {
    strip_end(strip_start(s, None), None)
}

/// What `str::trim_matches('"')` returns: the string without its surrounding quotes.
pub open spec fn trim_quotes(s: Seq<char>) -> Seq<char> {
    strip_end(strip_start(s, Some('"')), Some('"'))
}

/// Position of the first `c` in `s`, or -1 when there is none.
pub open spec fn index_of(s: Seq<char>, c: char) -> int
    decreases s.len(),
{
    if s.len() == 0 {
        -1
    } else if s[0] == c {
        0
    } else {
        let r = index_of(s.drop_first(), c);
        if r < 0 {
            -1
        } else {
            r + 1
        }
    }
}

pub proof fn lemma_index_of_found(s: Seq<char>, c: char, i: int)
    requires
        0 <= i < s.len(),
        s[i] == c,
        forall|j: int| 0 <= j < i ==> s[j] != c,
    ensures
        index_of(s, c) == i,
    decreases i,
{
    if i > 0 {
        lemma_index_of_found(s.drop_first(), c, i - 1);
    }
}

pub proof fn lemma_index_of_absent(s: Seq<char>, c: char)
    requires
        forall|j: int| 0 <= j < s.len() ==> s[j] != c,
    ensures
        index_of(s, c) == -1,
    decreases s.len(),
{
    if s.len() > 0 {
        lemma_index_of_absent(s.drop_first(), c);
    }
}

/// Position of the first `c` in `chars[lo..hi]`, counted from 0, or `hi` when there is none.
pub fn find_char(chars: &Vec<char>, lo: usize, hi: usize, c: char) -> (r: usize)
    requires
        lo <= hi <= chars@.len(),
    ensures
        lo <= r <= hi,
        r < hi ==> index_of(chars@.subrange(lo as int, hi as int), c) == r - lo,
        r == hi ==> index_of(chars@.subrange(lo as int, hi as int), c) == -1,
{
    let ghost s = chars@.subrange(lo as int, hi as int);
    let mut i = lo;
    while i < hi
        invariant
            lo <= i <= hi <= chars@.len(),
            s == chars@.subrange(lo as int, hi as int),
            forall|j: int| lo <= j < i ==> chars@[j] != c,
        decreases hi - i,
    {
        if chars[i] == c {
            proof {
                lemma_index_of_found(s, c, i - lo);
            }
            return i;
        }
        i = i + 1;
    }
    proof {
        lemma_index_of_absent(s, c);
    }
    hi
}

/// The bounds of `chars[lo..hi]` once the characters that `c` names are stripped
/// from both ends (for `None`, the whitespace).
pub fn strip_range(chars: &Vec<char>, lo: usize, hi: usize, c: Option<char>) -> (r: (usize, usize))
    requires
        lo <= hi <= chars@.len(),
    ensures
        lo <= r.0 <= r.1 <= hi,
        chars@.subrange(r.0 as int, r.1 as int) == strip_end(
            strip_start(chars@.subrange(lo as int, hi as int), c),
            c,
        ),
{
    let mut a = lo;
    while a < hi && strippable_exec(chars[a], c)
        invariant
            lo <= a <= hi <= chars@.len(),
            strip_start(chars@.subrange(lo as int, hi as int), c) == strip_start(
                chars@.subrange(a as int, hi as int),
                c,
            ),
        decreases hi - a,
    {
        assert(chars@.subrange(a as int, hi as int).drop_first() =~= chars@.subrange(
            a + 1,
            hi as int,
        ));
        a = a + 1;
    }
    let ghost start = chars@.subrange(a as int, hi as int);
    assert(strip_start(start, c) == start);
    let mut b = hi;
    while b > a && strippable_exec(chars[b - 1], c)
        invariant
            lo <= a <= b <= hi <= chars@.len(),
            strip_end(start, c) == strip_end(chars@.subrange(a as int, b as int), c),
        decreases b - a,
    {
        assert(chars@.subrange(a as int, b as int).drop_last() =~= chars@.subrange(
            a as int,
            b - 1,
        ));
        b = b - 1;
    }
    let ghost rest = chars@.subrange(a as int, b as int);
    assert(strip_end(rest, c) == rest);
    (a, b)
}

fn strippable_exec(x: char, c: Option<char>) -> (r: bool)
    ensures
        r == strippable(x, c),
{
    match c {
        Some(c) => x == c,
        None => is_space_exec(x),
    }
}

/// The string made of `chars[lo..hi]`.
pub fn collect_range(chars: &Vec<char>, lo: usize, hi: usize) -> (r: String)
    requires
        lo <= hi <= chars@.len(),
    ensures
        r@ == chars@.subrange(lo as int, hi as int),
{
    let mut r = String::new();
    let mut i = lo;
    while i < hi
        invariant
            lo <= i <= hi <= chars@.len(),
            r@ == chars@.subrange(lo as int, i as int),
        decreases hi - i,
    {
        push_char(&mut r, chars[i]);
        assert(r@ =~= chars@.subrange(lo as int, i + 1));
        i = i + 1;
    }
    r
}

/// Whether `chars[lo..hi]` spells `word`.
pub fn range_eq(chars: &Vec<char>, lo: usize, hi: usize, word: &[char]) -> (r: bool)
    requires
        lo <= hi <= chars@.len(),
    ensures
        r == (chars@.subrange(lo as int, hi as int) == word@),
{
    if hi - lo != word.len() {
        assert(chars@.subrange(lo as int, hi as int).len() != word@.len());
        return false;
    }
    let mut i: usize = 0;
    while i < word.len()
        invariant
            lo <= hi <= chars@.len(),
            hi - lo == word@.len(),
            0 <= i <= word@.len(),
            forall|j: int| 0 <= j < i ==> chars@[lo + j] == word@[j],
        decreases word@.len() - i,
    {
        if chars[lo + i] != word[i] {
            assert(chars@.subrange(lo as int, hi as int)[i as int] != word@[i as int]);
            return false;
        }
        i = i + 1;
    }
    assert(chars@.subrange(lo as int, hi as int) =~= word@);
    true
}

} // verus!
