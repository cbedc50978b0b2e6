//! The filter history as text: one filter per line.
use vstd::prelude::*;

use crate::app_core::reducer::{blank, is_blank};
use crate::app_core::state::strings_of;
use crate::highlight::{strip_cr, text_lines};
use crate::text::{append_str, chars_range, find_char_from, lemma_first_index, lemma_first_index_unique, push_char, string_from_chars};

verus! {

/// The lines that are not blank, in order.
pub open spec fn non_blank(ls: Seq<Seq<char>>) -> Seq<Seq<char>>
    decreases ls.len(),
{
    if ls.len() == 0 {
        Seq::empty()
    } else {
        (if blank(ls[0]) { Seq::empty() } else { seq![ls[0]] }) + non_blank(ls.drop_first())
    }
}

/// The history a text holds: its lines (as `str::lines` splits it) that
/// are not blank.
pub open spec fn history_of_text(s: Seq<char>) -> Seq<Seq<char>> {
    non_blank(text_lines(s))
}

/// The text of a history: its entries joined with line feeds.
pub open spec fn history_text(h: Seq<Seq<char>>) -> Seq<char>
    decreases h.len(),
{
    if h.len() == 0 {
        Seq::empty()
    } else if h.len() == 1 {
        h[0]
    } else {
        h[0] + seq!['\n'] + history_text(h.drop_first())
    }
}

/// Appending an entry appends a line feed and the entry to the text.
proof fn lemma_history_text_push(h: Seq<Seq<char>>, e: Seq<char>)
    requires
        h.len() > 0,
    ensures
        history_text(h.push(e)) == history_text(h) + seq!['\n'] + e,
    decreases h.len(),
{
    if h.len() == 1 {
        assert(h.push(e).drop_first() =~= seq![e]);
        assert(history_text(seq![e]) == e);
        assert(h.push(e)[0] == h[0]);
        assert(history_text(h.push(e)) =~= history_text(h) + seq!['\n'] + e);
    } else {
        assert(h.push(e)[0] == h[0]);
        assert(h.push(e).drop_first() =~= h.drop_first().push(e));
        lemma_history_text_push(h.drop_first(), e);
        assert(history_text(h.push(e)) =~= history_text(h) + seq!['\n'] + e);
    }
}

/// The history held by a text: its non-blank lines.
pub fn history_from_text(content: &str) -> (h: Vec<String>)
    ensures
        strings_of(h@) == history_of_text(content@),
{
    let cs = crate::text::chars_of(content);
    let n = cs.len();
    let mut h: Vec<String> = Vec::new();
    let mut pos: usize = 0;
    assert(cs@.subrange(0, n as int) =~= content@);
    assert(strings_of(h@) =~= Seq::<Seq<char>>::empty());
    while pos < n
        invariant
            n == cs@.len(),
            pos <= n,
            strings_of(h@) + non_blank(text_lines(cs@.subrange(pos as int, n as int))) == history_of_text(content@),
            cs@ == content@,
        decreases n - pos,
    {
        let ghost rest = cs@.subrange(pos as int, n as int);
        let ghost before = strings_of(h@);
        let k = find_char_from(cs.as_slice(), '\n', pos);
        proof {
            assert(cs@.skip(pos as int) == rest);
            lemma_first_index(rest, '\n');
        }
        let mut line = chars_range(cs.as_slice(), pos, k);
        if k < n && line.len() > 0 && line[line.len() - 1] == '\r' {
            line.pop();
        }
        let ghost l = line@;
        proof {
            assert(rest.subrange(0, k - pos) == cs@.subrange(pos as int, k as int));
            if k < n {
                assert(rest.subrange(k - pos + 1, rest.len() as int) =~= cs@.subrange(k + 1, n as int));
                assert(text_lines(rest) == seq![l] + text_lines(cs@.subrange(k + 1, n as int)));
            } else {
                assert(rest.subrange(0, k - pos) =~= rest);
                assert(text_lines(rest) == seq![l]);
                assert(text_lines(cs@.subrange(n as int, n as int)) =~= Seq::<Seq<char>>::empty()) by {
                    assert(cs@.subrange(n as int, n as int) =~= Seq::<char>::empty());
                }
                assert(seq![l] =~= seq![l] + text_lines(cs@.subrange(n as int, n as int)));
            }
            let ls = text_lines(rest);
            assert(ls[0] == l);
            assert(ls.drop_first() =~= text_lines(cs@.subrange(if k < n { k + 1 } else { n as int }, n as int)));
        }
        let s = string_from_chars(line.as_slice());
        if !is_blank(s.as_str()) {
            h.push(s);
            proof {
                assert(strings_of(h@) =~= before.push(l));
            }
        }
        if k < n {
            pos = k + 1;
        } else {
            pos = n;
        }
        proof {
            let after = non_blank(text_lines(cs@.subrange(pos as int, n as int)));
            if blank(l) {
                assert(strings_of(h@) + after =~= before + non_blank(text_lines(rest)));
            } else {
                assert(strings_of(h@) + after =~= before + non_blank(text_lines(rest)));
            }
        }
    }
    proof {
        assert(cs@.subrange(pos as int, n as int) =~= Seq::<char>::empty());
        assert(strings_of(h@) + Seq::<Seq<char>>::empty() =~= strings_of(h@));
    }
    h
}

/// The text of a history: its entries joined with line feeds.
pub fn history_to_text(h: &Vec<String>) -> (s: String)
    ensures
        s@ == history_text(strings_of(h@)),
{
    let mut out = String::new();
    if h.len() == 0 {
        return out;
    }
    append_str(&mut out, h[0].as_str());
    let mut i: usize = 1;
    proof {
        assert(strings_of(h@).take(1) =~= seq![h@[0]@]);
    }
    while i < h.len()
        invariant
            1 <= i <= h@.len(),
            out@ == history_text(strings_of(h@).take(i as int)),
        decreases h@.len() - i,
    {
        proof {
            lemma_history_text_push(strings_of(h@).take(i as int), h@[i as int]@);
            assert(strings_of(h@).take(i + 1) =~= strings_of(h@).take(i as int).push(h@[i as int]@));
        }
        push_char(&mut out, '\n');
        append_str(&mut out, h[i].as_str());
        i += 1;
    }
    proof {
        assert(strings_of(h@).take(h@.len() as int) =~= strings_of(h@));
    }
    out
}

/// Saving a history and reading it back gives the same history, when its
/// entries are not blank, hold no line feed, and (but for the last) do not
/// end with a carriage return, which would read as part of a line ending.
pub proof fn law_history_text_round_trip(h: Seq<Seq<char>>)
    requires
        forall|i: int| 0 <= i < h.len() ==> !blank(#[trigger] h[i]),
        forall|i: int, j: int| 0 <= i < h.len() && 0 <= j < h[i].len() ==> #[trigger] h[i][j] != '\n',
        forall|i: int| 0 <= i < h.len() - 1 ==> !(#[trigger] h[i].len() > 0 && h[i].last() == '\r'),
    ensures
        history_of_text(history_text(h)) == h,
    decreases h.len(),
{
    if h.len() == 0 {
        assert(text_lines(Seq::<char>::empty()) =~= Seq::<Seq<char>>::empty());
    } else {
        let h0 = h[0];
        assert(h0.len() > 0) by {
            if h0.len() == 0 {
                assert(blank(h0));
            }
        }
        if h.len() == 1 {
            assert forall|j: int| 0 <= j < h0.len() implies h0[j] != '\n' by {
                assert(h[0][j] != '\n');
            }
            lemma_first_index_unique(h0, '\n', h0.len() as int);
            assert(text_lines(h0) == seq![h0]);
            assert(seq![h0].drop_first() =~= Seq::<Seq<char>>::empty());
            assert(seq![h0][0] == h0);
            assert(non_blank(Seq::<Seq<char>>::empty()) == Seq::<Seq<char>>::empty());
            assert(non_blank(seq![h0]) =~= seq![h0]);
            assert(h =~= seq![h0]);
        } else {
            let t = h.drop_first();
            assert forall|i: int| 0 <= i < t.len() implies !blank(#[trigger] t[i]) by {
                assert(t[i] == h[i + 1]);
            }
            assert forall|i: int, j: int| 0 <= i < t.len() && 0 <= j < t[i].len() implies #[trigger] t[i][j] != '\n' by {
                assert(t[i] == h[i + 1]);
                assert(h[i + 1][j] != '\n');
            }
            assert forall|i: int| 0 <= i < t.len() - 1 implies !(#[trigger] t[i].len() > 0 && t[i].last() == '\r') by {
                assert(t[i] == h[i + 1]);
            }
            law_history_text_round_trip(t);
            let rest = history_text(t);
            let s = h0 + seq!['\n'] + rest;
            assert(history_text(h) == s);
            assert forall|j: int| 0 <= j < h0.len() implies s[j] != '\n' by {
                assert(s[j] == h0[j]);
                assert(h[0][j] != '\n');
            }
            lemma_first_index_unique(s, '\n', h0.len() as int);
            assert(s.subrange(0, h0.len() as int) =~= h0);
            assert(s.subrange(h0.len() + 1int, s.len() as int) =~= rest);
            assert(strip_cr(h0) == h0);
            assert(text_lines(s) == seq![h0] + text_lines(rest));
            let ls = seq![h0] + text_lines(rest);
            assert(ls[0] == h0);
            assert(ls.drop_first() =~= text_lines(rest));
            assert(non_blank(ls) =~= seq![h0] + non_blank(text_lines(rest)));
            assert(seq![h0] + t =~= h);
        }
    }
}

} // verus!
