//! Display widths of characters and strings in terminal cells.
use vstd::prelude::*;

verus! {

/// Display width of a character as computed by `unicode-width`
/// (`None` for control characters).
pub uninterp spec fn char_width(c: char) -> Option<usize>;

/// Display width of a string as computed by `unicode-width`.
pub uninterp spec fn str_width(s: Seq<char>) -> usize;

/// Cells a character occupies when control characters count as zero.
pub open spec fn cell_width(c: char) -> nat {
    match char_width(c) {
        Some(w) => w as nat,
        None => 0,
    }
}

/// Sum of the cell widths of the characters of `s`.
pub open spec fn text_width(s: Seq<char>) -> nat
    decreases s.len(),
{
    if s.len() == 0 {
        0
    } else {
        text_width(s.drop_last()) + cell_width(s.last())
    }
}

/// The first `n` characters of `s` (all of `s` when it is shorter).
pub open spec fn prefix(s: Seq<char>, n: int) -> Seq<char> {
    if n <= s.len() {
        s.take(n)
    } else {
        s
    }
}

/// `UnicodeWidthChar::width` of `unicode-width`: `None` for the control
/// characters below U+0020 and in U+007F..U+009F, one cell for the other
/// ASCII characters, and at most three cells for any character.
#[verifier::external_body]
pub(crate) fn unicode_char_width(c: char) -> (w: Option<usize>)
    ensures
        w == char_width(c),
        (c as u32) < 0x20 ==> w is None,
        0x20 <= (c as u32) < 0x7F ==> w == Some(1usize),
        0x7F <= (c as u32) < 0xA0 ==> w is None,
        (c as u32) >= 0xA0 ==> w is Some,
        w matches Some(v) ==> v <= 3,
{
    unicode_width::UnicodeWidthChar::width(c)
}

/// `UnicodeWidthStr::width` of `unicode-width`: a string made only of
/// printable ASCII characters is as wide as it is long.
#[verifier::external_body]
pub(crate) fn unicode_str_width(s: &str) -> (w: usize)
    ensures
        w == str_width(s@),
        (forall|i: int| 0 <= i < s@.len() ==> 0x20 <= (#[trigger] s@[i] as u32) < 0x7F) ==> w == s@.len(),
{
    unicode_width::UnicodeWidthStr::width(s)
}

/// Cells a character occupies (zero for control characters).
pub fn cells(c: char) -> (w: u8)
    ensures
        w == cell_width(c),
        w <= 3,
{
    match unicode_char_width(c) {
        Some(v) => v as u8,
        None => 0,
    }
}

/// Every prefix of `s` is at most as wide as `s`.
pub proof fn lemma_text_width_monotone(s: Seq<char>, i: int, j: int)
    requires
        0 <= i <= j <= s.len(),
    ensures
        text_width(s.take(i)) <= text_width(s.take(j)),
    decreases j - i,
{
    if i < j {
        lemma_text_width_monotone(s, i, j - 1);
        assert(s.take(j).drop_last() == s.take(j - 1));
    }
}

/// Extending a prefix by one character adds that character's width.
pub proof fn lemma_text_width_step(s: Seq<char>, i: int)
    requires
        0 <= i < s.len(),
    ensures
        text_width(s.take(i + 1)) == text_width(s.take(i)) + cell_width(s[i]),
{
    assert(s.take(i + 1).drop_last() == s.take(i));
}

} // verus!
