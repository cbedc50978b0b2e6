//! Character-level helpers shared by the search, indexing and editing code.
use vstd::prelude::*;

verus! {

/// The Unicode lowercase mapping of a text, as `str::to_lowercase` of the
/// standard library computes it.
pub uninterp spec fn unicode_lowercase(s: Seq<char>) -> Seq<char>;

/// The text holds only ASCII characters.
pub open spec fn is_ascii_text(s: Seq<char>) -> bool {
    forall|i: int| 0 <= i < s.len() ==> #[trigger] s[i] < '\u{80}'
}

/// An ASCII capital letter as its small letter; any other character as it is.
pub open spec fn ascii_lower_char(c: char) -> char {
    if 'A' <= c && c <= 'Z' {
        ((c as u32) + 32) as char
    } else {
        c
    }
}

/// An ASCII small letter as its capital letter; any other character as it is.
pub open spec fn ascii_upper_char(c: char) -> char {
    if 'a' <= c && c <= 'z' {
        ((c as u32) - 32) as char
    } else {
        c
    }
}

/// A text with its ASCII letters made small.
pub open spec fn ascii_lower(s: Seq<char>) -> Seq<char> {
    s.map_values(|c: char| ascii_lower_char(c))
}

/// A text with its ASCII letters made capital.
pub open spec fn ascii_upper(s: Seq<char>) -> Seq<char> {
    s.map_values(|c: char| ascii_upper_char(c))
}

/// The lowercase form of a text, as `str::to_lowercase` computes it: an
/// ASCII text has its capital letters made small (and nothing else
/// changed); any other text is mapped by [`unicode_lowercase`].
#[verifier::opaque]
pub open spec fn lowercase(s: Seq<char>) -> Seq<char> {
    if is_ascii_text(s) {
        ascii_lower(s)
    } else {
        unicode_lowercase(s)
    }
}

/// Whether `c` has the Unicode `White_Space` property, which is what
/// `char::is_whitespace` of the standard library tests.
#[verifier::opaque]
pub open spec fn char_is_whitespace(c: char) -> bool {
    ||| ('\t' <= c && c <= '\r')
    ||| c == ' '
    ||| c == '\u{85}'
    ||| c == '\u{a0}'
    ||| c == '\u{1680}'
    ||| ('\u{2000}' <= c && c <= '\u{200a}')
    ||| c == '\u{2028}'
    ||| c == '\u{2029}'
    ||| c == '\u{202f}'
    ||| c == '\u{205f}'
    ||| c == '\u{3000}'
}

/// Whether the standard library classifies `c` as alphanumeric (`char::is_alphanumeric`).
pub uninterp spec fn char_is_alphanumeric(c: char) -> bool;

/// Whether the standard library classifies `c` as numeric (`char::is_numeric`).
pub uninterp spec fn char_is_numeric(c: char) -> bool;

/// `p` occurs as a contiguous run inside `s` (the empty run occurs everywhere).
pub open spec fn has_infix(s: Seq<char>, p: Seq<char>) -> bool {
    exists|i: int| 0 <= i <= s.len() - p.len() && #[trigger] s.subrange(i, i + p.len()) == p
}

/// `s` begins with `p`.
pub open spec fn has_prefix(s: Seq<char>, p: Seq<char>) -> bool {
    p.len() <= s.len() && s.subrange(0, p.len() as int) == p
}

/// `s` ends with `p`.
pub open spec fn has_suffix(s: Seq<char>, p: Seq<char>) -> bool {
    p.len() <= s.len() && s.subrange(s.len() - p.len(), s.len() as int) == p
}

/// The UTF-8 encoding of `s` takes at least two bytes: two or more characters,
/// or a single character outside ASCII.
pub open spec fn utf8_at_least_two_bytes(s: Seq<char>) -> bool {
    s.len() >= 2 || (s.len() == 1 && s[0] as u32 >= 0x80)
}

/// Position of the first `c` in `s`, or `s.len()` when `c` does not occur.
pub open spec fn first_index(s: Seq<char>, c: char) -> int
    decreases s.len(),
{
    if s.len() == 0 {
        0
    } else if s[0] == c {
        0
    } else {
        1 + first_index(s.drop_first(), c)
    }
}

/// `first_index` lies in `0..=s.len()`, points at `c` when below `s.len()`,
/// and nothing before it is `c`.
pub proof fn lemma_first_index(s: Seq<char>, c: char)
    ensures
        0 <= first_index(s, c) <= s.len(),
        first_index(s, c) < s.len() ==> s[first_index(s, c)] == c,
        forall|j: int| 0 <= j < first_index(s, c) ==> s[j] != c,
    decreases s.len(),
{
    if s.len() > 0 && s[0] != c {
        lemma_first_index(s.drop_first(), c);
        assert forall|j: int| 0 <= j < first_index(s, c) implies s[j] != c by {
            if j > 0 {
                assert(s[j] == s.drop_first()[j - 1]);
            }
        }
    }
}

/// The properties of `lemma_first_index` characterize `first_index`.
pub proof fn lemma_first_index_unique(s: Seq<char>, c: char, k: int)
    requires
        0 <= k <= s.len(),
        k < s.len() ==> s[k] == c,
        forall|j: int| 0 <= j < k ==> s[j] != c,
    ensures
        first_index(s, c) == k,
    decreases s.len(),
{
    if s.len() > 0 && s[0] != c {
        assert forall|j: int| 0 <= j < k - 1 implies s.drop_first()[j] != c by {
            assert(s.drop_first()[j] == s[j + 1]);
        }
        lemma_first_index_unique(s.drop_first(), c, k - 1);
    }
}

/// Finds the first `c` in `s[from..]`; returns `s.len()` when there is none.
pub fn find_char_from(s: &[char], c: char, from: usize) -> (k: usize)
    requires
        from <= s@.len(),
    ensures
        k == from + first_index(s@.skip(from as int), c),
        from <= k <= s@.len(),
{
    let mut k = from;
    while k < s.len() && s[k] != c
        invariant
            from <= k <= s@.len(),
            forall|j: int| from <= j < k ==> s@[j] != c,
        decreases s@.len() - k,
    {
        k += 1;
    }
    proof {
        let t = s@.skip(from as int);
        assert forall|j: int| 0 <= j < k - from implies t[j] != c by {
            assert(t[j] == s@[from + j]);
        }
        if k < s@.len() {
            assert(t[k - from] == s@[k as int]);
        }
        lemma_first_index_unique(t, c, k - from);
    }
    k
}

/// Whether the two character sequences are equal.
pub fn chars_eq(a: &[char], b: &[char]) -> (r: bool)
    ensures
        r == (a@ == b@),
{
    if a.len() != b.len() {
        return false;
    }
    let r = matches_at(a, b, 0);
    assert(a@.subrange(0, b@.len() as int) =~= a@);
    r
}

/// The characters of `s`, in order.
pub fn chars_of(s: &str) -> (out: Vec<char>)
    ensures
        out@ == s@,
{
    let mut out: Vec<char> = Vec::new();
    for c in it: s.chars()
        invariant
            out@ == it.seq().take(it.index() as int),
    {
        out.push(c);
    }
    out
}

/// `String::push` of the standard library: appends one character.
#[verifier::external_body]
pub(crate) fn push_char(s: &mut String, c: char)
    ensures
        final(s)@ == old(s)@.push(c),
{
    s.push(c);
}

/// `str::to_lowercase` of the standard library: an ASCII text has its
/// capital letters made small; the result for any other text is named
/// `unicode_lowercase` (see [`lowercase`]).
#[verifier::external_body]
pub(crate) fn to_lowercase(s: &str) -> (out: String)
    ensures
        out@ == (if is_ascii_text(s@) { ascii_lower(s@) } else { unicode_lowercase(s@) }),
        out@ == lowercase(s@),
{
    s.to_lowercase()
}

/// Whether `c` is Unicode whitespace, as `char::is_whitespace` decides.
pub fn is_whitespace(c: char) -> (b: bool)
    ensures
        b == char_is_whitespace(c),
{
    proof {
        reveal(char_is_whitespace);
    }
    ('\t' <= c && c <= '\r') || c == ' ' || c == '\u{85}' || c == '\u{a0}' || c == '\u{1680}'
        || ('\u{2000}' <= c && c <= '\u{200a}') || c == '\u{2028}' || c == '\u{2029}'
        || c == '\u{202f}' || c == '\u{205f}' || c == '\u{3000}'
}

/// `char::is_alphanumeric` of the standard library.
#[verifier::external_body]
pub(crate) fn is_alphanumeric(c: char) -> (b: bool)
    ensures
        b == char_is_alphanumeric(c),
{
    c.is_alphanumeric()
}

/// `char::is_numeric` of the standard library.
#[verifier::external_body]
pub(crate) fn is_numeric(c: char) -> (b: bool)
    ensures
        b == char_is_numeric(c),
{
    c.is_numeric()
}

/// Whether two texts hold the same characters.
pub(crate) fn str_eq(a: &str, b: &str) -> (r: bool)
    ensures
        r == (a@ == b@),
{
    let ca = chars_of(a);
    let cb = chars_of(b);
    chars_eq(ca.as_slice(), cb.as_slice())
}

/// Whether the UTF-8 encoding of `s` takes at least two bytes.
pub fn at_least_two_bytes(s: &[char]) -> (r: bool)
    ensures
        r == utf8_at_least_two_bytes(s@),
{
    s.len() >= 2 || (s.len() == 1 && s[0] as u32 >= 0x80)
}

/// Appends the characters of `t` to `out`.
pub fn append_str(out: &mut String, t: &str)
    ensures
        final(out)@ == old(out)@ + t@,
{
    out.append(t);
}

/// Builds a `String` holding exactly the characters of `cs`.
pub fn string_from_chars(cs: &[char]) -> (out: String)
    ensures
        out@ == cs@,
{
    let mut out = String::new();
    let mut i: usize = 0;
    while i < cs.len()
        invariant
            0 <= i <= cs@.len(),
            out@ == cs@.subrange(0, i as int),
        decreases cs@.len() - i,
    {
        push_char(&mut out, cs[i]);
        assert(cs@.subrange(0, i + 1) == cs@.subrange(0, i as int).push(cs@[i as int]));
        i += 1;
    }
    assert(cs@.subrange(0, cs@.len() as int) == cs@);
    out
}

/// Builds a `String` from the characters `cs[start..end]`.
pub fn string_from_range(cs: &[char], start: usize, end: usize) -> (out: String)
    requires
        start <= end <= cs@.len(),
    ensures
        out@ == cs@.subrange(start as int, end as int),
{
    let mut out = String::new();
    let mut i: usize = start;
    while i < end
        invariant
            start <= i <= end <= cs@.len(),
            out@ == cs@.subrange(start as int, i as int),
        decreases end - i,
    {
        push_char(&mut out, cs[i]);
        assert(cs@.subrange(start as int, i + 1) == cs@.subrange(start as int, i as int).push(
            cs@[i as int],
        ));
        i += 1;
    }
    out
}

/// The characters `cs[start..end]` as a vector.
pub fn chars_range(cs: &[char], start: usize, end: usize) -> (out: Vec<char>)
    requires
        start <= end <= cs@.len(),
    ensures
        out@ == cs@.subrange(start as int, end as int),
{
    let mut out: Vec<char> = Vec::new();
    let mut i: usize = start;
    while i < end
        invariant
            start <= i <= end <= cs@.len(),
            out@ == cs@.subrange(start as int, i as int),
        decreases end - i,
    {
        out.push(cs[i]);
        assert(cs@.subrange(start as int, i + 1) == cs@.subrange(start as int, i as int).push(
            cs@[i as int],
        ));
        i += 1;
    }
    out
}

/// Whether `s[at..]` begins with `p`.
pub fn matches_at(s: &[char], p: &[char], at: usize) -> (r: bool)
    requires
        at <= s@.len(),
    ensures
        r == (at + p@.len() <= s@.len() && s@.subrange(at as int, at + p@.len()) == p@),
{
    if p.len() > s.len() - at {
        return false;
    }
    let mut k: usize = 0;
    while k < p.len()
        invariant
            0 <= k <= p@.len(),
            at <= s@.len(),
            s@.len() == s.len(),
            at + p@.len() <= s@.len(),
            forall|j: int| 0 <= j < k ==> s@[at + j] == p@[j],
        decreases p@.len() - k,
    {
        if s[at + k] != p[k] {
            assert(s@.subrange(at as int, at + p@.len())[k as int] != p@[k as int]);
            return false;
        }
        k += 1;
    }
    assert(s@.subrange(at as int, at + p@.len()) =~= p@);
    true
}

/// Whether `p` occurs as a contiguous run inside `s` (`str::contains` on the characters).
pub fn contains_infix(s: &[char], p: &[char]) -> (r: bool)
    ensures
        r == has_infix(s@, p@),
{
    if p.len() > s.len() {
        return false;
    }
    let last = s.len() - p.len();
    let mut i: usize = 0;
    loop
        invariant
            last == s@.len() - p@.len(),
            0 <= i <= last,
            forall|j: int| 0 <= j < i ==> #[trigger] s@.subrange(j, j + p@.len()) != p@,
        decreases last - i,
    {
        if matches_at(s, p, i) {
            return true;
        }
        if i == last {
            return false;
        }
        i += 1;
    }
}

/// Whether `s` begins with `p`.
pub fn starts_with(s: &[char], p: &[char]) -> (r: bool)
    ensures
        r == has_prefix(s@, p@),
{
    matches_at(s, p, 0)
}

/// Whether `s` ends with `p`.
pub fn ends_with(s: &[char], p: &[char]) -> (r: bool)
    ensures
        r == has_suffix(s@, p@),
{
    if p.len() > s.len() {
        return false;
    }
    matches_at(s, p, s.len() - p.len())
}

} // verus!
