//! Query language: splitting a query into terms, parsing each term, and
//! matching terms against items.
use vstd::prelude::*;

use crate::json::JsonValue;
use crate::model::IndexedItem;
use crate::search_index::{
    indexes, listed, lemma_sorted_len_bound, lemma_sorted_unique, listed_under_infix, lookup_result, strictly_sorted, SearchIndex,
};
use crate::text::{
    char_is_whitespace, chars_eq, chars_of, contains_infix, find_char_from, first_index, has_infix,
    has_suffix, is_whitespace, lemma_first_index, lowercase, push_char, str_eq, string_from_range,
    to_lowercase,
};

verus! {

/// A parsed search term: an optional field classifier, the pattern, and
/// whether the pattern must match exactly (it was written in single quotes).
#[derive(Debug, PartialEq)]
pub struct SearchTerm {
    /// Optional field classifier (e.g. "id", "bash.str_min").
    pub classifier: Option<String>,
    /// The pattern to match.
    pub pattern: String,
    /// Whether this is an exact match (value surrounded by single quotes).
    pub exact: bool,
}

/// The mathematical content of a [`SearchTerm`].
pub struct TermSpec {
    pub classifier: Option<Seq<char>>,
    pub pattern: Seq<char>,
    pub exact: bool,
}

impl SearchTerm {
    pub open spec fn spec_view(&self) -> TermSpec {
        TermSpec {
            classifier: match self.classifier {
                Some(c) => Some(c@),
                None => None,
            },
            pattern: self.pattern@,
            exact: self.exact,
        }
    }
}

/// Removes the escapes `\'` and `\\` from the inside of a quoted pattern; any
/// other backslash is kept as written.
pub open spec fn unescape(raw: Seq<char>) -> Seq<char>
    decreases raw.len(),
{
    if raw.len() == 0 {
        Seq::empty()
    } else if raw[0] == '\\' {
        if raw.len() == 1 {
            seq!['\\']
        } else if raw[1] == '\'' || raw[1] == '\\' {
            seq![raw[1]] + unescape(raw.skip(2))
        } else {
            seq!['\\', raw[1]] + unescape(raw.skip(2))
        }
    } else {
        seq![raw[0]] + unescape(raw.skip(1))
    }
}

/// `v` is wrapped in single quotes (and is at least two characters long).
pub open spec fn is_quoted(v: Seq<char>) -> bool {
    v.len() >= 2 && v[0] == '\'' && v[v.len() - 1] == '\''
}

/// The term for a value part `v` under the classifier `classifier`.
pub open spec fn term_for_value(classifier: Option<Seq<char>>, v: Seq<char>) -> TermSpec {
    if is_quoted(v) {
        TermSpec { classifier, pattern: unescape(v.subrange(1, v.len() - 1)), exact: true }
    } else {
        TermSpec { classifier, pattern: v, exact: false }
    }
}

/// A term `classifier:value` is split at its first colon; a term without a
/// colon has no classifier.
pub open spec fn parse_term_spec(t: Seq<char>) -> TermSpec {
    let k = first_index(t, ':');
    if k < t.len() {
        term_for_value(Some(t.subrange(0, k)), t.subrange(k + 1, t.len() as int))
    } else {
        term_for_value(None, t)
    }
}

fn unescape_chars(raw: &[char], from: usize, to: usize) -> (out: String)
    requires
        from <= to <= raw@.len(),
    ensures
        out@ == unescape(raw@.subrange(from as int, to as int)),
{
    let ghost whole = raw@.subrange(from as int, to as int);
    let mut out = String::new();
    let mut i = from;
    assert(whole.skip(0) == whole);
    while i < to
        invariant
            from <= i <= to <= raw@.len(),
            whole == raw@.subrange(from as int, to as int),
            out@ + unescape(raw@.subrange(i as int, to as int)) == unescape(whole),
        decreases to - i,
    {
        let ghost rest = raw@.subrange(i as int, to as int);
        let ch = raw[i];
        if ch == '\\' {
            if i + 1 < to {
                let next = raw[i + 1];
                assert(rest.skip(2) == raw@.subrange(i + 2, to as int));
                if next == '\'' || next == '\\' {
                    push_char(&mut out, next);
                    assert(out@ + unescape(raw@.subrange(i + 2, to as int)) == unescape(whole)) by {
                        assert(unescape(rest) == seq![next] + unescape(rest.skip(2)));
                    }
                } else {
                    push_char(&mut out, '\\');
                    push_char(&mut out, next);
                    assert(out@ + unescape(raw@.subrange(i + 2, to as int)) == unescape(whole)) by {
                        assert(unescape(rest) == seq!['\\', next] + unescape(rest.skip(2)));
                    }
                }
                i += 2;
            } else {
                push_char(&mut out, '\\');
                assert(raw@.subrange(i + 1, to as int) =~= Seq::<char>::empty());
                assert(unescape(rest) == seq!['\\']);
                i += 1;
            }
        } else {
            push_char(&mut out, ch);
            assert(rest.skip(1) == raw@.subrange(i + 1, to as int));
            assert(unescape(rest) == seq![ch] + unescape(rest.skip(1)));
            i += 1;
        }
    }
    assert(raw@.subrange(to as int, to as int) =~= Seq::<char>::empty());
    out
}

/// Unescapes the inside of an exact (quoted) pattern: `\'` becomes `'` and
/// `\\` becomes `\`; other backslashes are kept.
pub fn unescape_exact_pattern(raw: &str) -> (out: String)
    ensures
        out@ == unescape(raw@),
{
    let cs = chars_of(raw);
    let out = unescape_chars(cs.as_slice(), 0, cs.len());
    assert(cs@.subrange(0, cs@.len() as int) == cs@);
    out
}

fn term_from_value(cs: &[char], classifier: Option<String>, from: usize) -> (t: SearchTerm)
    requires
        from <= cs@.len(),
    ensures
        t.spec_view() == term_for_value(
            match classifier {
                Some(c) => Some(c@),
                None => None,
            },
            cs@.subrange(from as int, cs@.len() as int),
        ),
{
    let n = cs.len();
    let ghost v = cs@.subrange(from as int, n as int);
    if n - from >= 2 && cs[from] == '\'' && cs[n - 1] == '\'' {
        let pattern = unescape_chars(cs, from + 1, n - 1);
        assert(v.subrange(1, v.len() - 1) == cs@.subrange(from + 1, n - 1));
        SearchTerm { classifier, pattern, exact: true }
    } else {
        let pattern = string_from_range(cs, from, n);
        SearchTerm { classifier, pattern, exact: false }
    }
}

/// Parses one term of a query: `classifier:value`, `classifier:'exact value'`,
/// `'exact value'` or `pattern`.
pub fn parse_search_term(term: &str) -> (t: SearchTerm)
    ensures
        t.spec_view() == parse_term_spec(term@),
{
    let cs = chars_of(term);
    let k = find_char_from(cs.as_slice(), ':', 0);
    assert(cs@.skip(0) == cs@);
    if k < cs.len() {
        let classifier = string_from_range(cs.as_slice(), 0, k);
        term_from_value(cs.as_slice(), Some(classifier), k + 1)
    } else {
        let t = term_from_value(cs.as_slice(), None, 0);
        assert(cs@.subrange(0, cs@.len() as int) == cs@);
        t
    }
}

/// Number of consecutive backslashes at the end of `s`.
pub open spec fn trailing_backslashes(s: Seq<char>) -> nat
    decreases s.len(),
{
    if s.len() > 0 && s[s.len() - 1] == '\\' {
        1 + trailing_backslashes(s.drop_last())
    } else {
        0
    }
}

/// The character at `i` is escaped: an odd number of backslashes precede it.
pub open spec fn escaped_at(q: Seq<char>, i: int) -> bool {
    trailing_backslashes(q.subrange(0, i)) % 2 == 1
}

/// Scanner state while splitting a query: the terms completed so far, where
/// the current term starts (if one is open), and whether the scanner is
/// inside a single-quoted segment.
pub struct SplitState {
    pub terms: Seq<Seq<char>>,
    pub start: Option<int>,
    pub in_quotes: bool,
}

/// A quote at `i` opens an exact segment when it starts its term or follows
/// a colon; a quote inside a segment closes it when it ends the query or is
/// followed by whitespace. Escaped quotes do neither.
pub open spec fn quote_state_after(q: Seq<char>, token_start: int, i: int, in_quotes: bool) -> bool {
    if q[i] == '\'' && !escaped_at(q, i) {
        if !in_quotes {
            token_start == i || has_suffix(q.subrange(token_start, i), seq![':'])
        } else {
            !(i + 1 >= q.len() || char_is_whitespace(q[i + 1]))
        }
    } else {
        in_quotes
    }
}

/// One step of the scanner over the character at `i`.
pub open spec fn split_step(q: Seq<char>, st: SplitState, i: int) -> SplitState {
    if char_is_whitespace(q[i]) && !st.in_quotes {
        match st.start {
            Some(ts) => SplitState { terms: st.terms.push(q.subrange(ts, i)), start: None, in_quotes: false },
            None => st,
        }
    } else {
        let ts = match st.start {
            Some(ts) => ts,
            None => i,
        };
        SplitState { terms: st.terms, start: Some(ts), in_quotes: quote_state_after(q, ts, i, st.in_quotes) }
    }
}

/// Scanner state after the first `n` characters of `q`.
pub open spec fn split_prefix(q: Seq<char>, n: int) -> SplitState
    decreases n,
{
    if n <= 0 {
        SplitState { terms: Seq::empty(), start: None, in_quotes: false }
    } else {
        split_step(q, split_prefix(q, n - 1), n - 1)
    }
}

/// The terms of a query: whitespace outside single-quoted segments separates
/// terms, and the term still open at the end is kept.
pub open spec fn split_terms(q: Seq<char>) -> Seq<Seq<char>> {
    let st = split_prefix(q, q.len() as int);
    match st.start {
        Some(ts) => st.terms.push(q.subrange(ts, q.len() as int)),
        None => st.terms,
    }
}

/// The views of a vector of strings.
pub open spec fn strings_view(v: Seq<String>) -> Seq<Seq<char>> {
    v.map_values(|s: String| s@)
}

/// Whether the character at `i` is escaped by the backslashes before it.
fn is_escaped(cs: &[char], i: usize) -> (r: bool)
    requires
        i <= cs@.len(),
    ensures
        r == escaped_at(cs@, i as int),
{
    let mut j = i;
    let mut count: usize = 0;
    while j > 0 && cs[j - 1] == '\\'
        invariant
            j <= i <= cs@.len(),
            count == i - j,
            trailing_backslashes(cs@.subrange(0, i as int)) == count + trailing_backslashes(
                cs@.subrange(0, j as int),
            ),
        decreases j,
    {
        assert(cs@.subrange(0, j as int).drop_last() == cs@.subrange(0, j - 1));
        j -= 1;
        count += 1;
    }
    count % 2 == 1
}

/// Splits a query into terms, keeping single-quoted segments (which may hold
/// spaces and apostrophes) inside their term.
pub fn split_query_terms(query: &str) -> (terms: Vec<String>)
    ensures
        strings_view(terms@) == split_terms(query@),
{
    let cs = chars_of(query);
    let n = cs.len();
    let mut terms: Vec<String> = Vec::new();
    let mut start: Option<usize> = None;
    let mut in_quotes = false;
    let mut i: usize = 0;
    while i < n
        invariant
            n == cs@.len(),
            cs@ == query@,
            0 <= i <= n,
            ({
                let st = split_prefix(cs@, i as int);
                &&& strings_view(terms@) == st.terms
                &&& st.in_quotes == in_quotes
                &&& match start {
                    Some(ts) => st.start == Some(ts as int) && ts < i,
                    None => st.start is None,
                }
            }),
        decreases n - i,
    {
        let ch = cs[i];
        let ghost st = split_prefix(cs@, i as int);
        assert(split_prefix(cs@, i + 1) == split_step(cs@, st, i as int));
        let ws = is_whitespace(ch);
        if ws && !in_quotes {
            if let Some(ts) = start {
                let t = string_from_range(cs.as_slice(), ts, i);
                let ghost old_terms = terms@;
                terms.push(t);
                assert(strings_view(terms@) =~= strings_view(old_terms).push(t@));
                start = None;
            }
        } else {
            let ts = match start {
                Some(ts) => ts,
                None => i,
            };
            start = Some(ts);
            if ch == '\'' && !is_escaped(cs.as_slice(), i) {
                if !in_quotes {
                    let ends_colon = i > ts && cs[i - 1] == ':';
                    proof {
                        let pre = cs@.subrange(ts as int, i as int);
                        if i > ts {
                            assert(pre.subrange(pre.len() - 1, pre.len() as int) =~= seq![cs@[i - 1]]);
                            if has_suffix(pre, seq![':']) {
                                assert(seq![cs@[i - 1]][0] == seq![':'][0]);
                            }
                        }
                        assert(has_suffix(pre, seq![':']) == ends_colon);
                    }
                    if ts == i || ends_colon {
                        in_quotes = true;
                    }
                } else {
                    let closes = i + 1 >= n || is_whitespace(cs[i + 1]);
                    if closes {
                        in_quotes = false;
                    }
                }
            }
            assert(in_quotes == quote_state_after(cs@, ts as int, i as int, st.in_quotes));
            assert(split_prefix(cs@, i + 1).start == Some(ts as int));
        }
        assert(split_prefix(cs@, i + 1).in_quotes == in_quotes);
        assert(strings_view(terms@) == split_prefix(cs@, i + 1).terms);
        i += 1;
    }
    if let Some(ts) = start {
        let t = string_from_range(cs.as_slice(), ts, n);
        let ghost old_terms = terms@;
        terms.push(t);
        assert(strings_view(terms@) =~= strings_view(old_terms).push(t@));
    }
    terms
}

/// The text `true` or `false`.
pub open spec fn bool_text(b: bool) -> Seq<char> {
    if b {
        seq!['t', 'r', 'u', 'e']
    } else {
        seq!['f', 'a', 'l', 's', 'e']
    }
}

/// The text `null`.
pub open spec fn null_text() -> Seq<char> {
    seq!['n', 'u', 'l', 'l']
}

/// Whether a JSON value matches a pattern. An exact match compares the
/// value's text with the pattern; otherwise the pattern must occur in the
/// value's text (lowercased for strings). Arrays and objects match when one
/// of their elements or member values does.
pub open spec fn value_matches(v: JsonValue, p: Seq<char>, exact: bool) -> bool
    decreases v,
{
    match v {
        JsonValue::Str(s) => if exact {
            s@ == p
        } else {
            has_infix(lowercase(s@), p)
        },
        JsonValue::Number(n) => if exact {
            n@ == p
        } else {
            has_infix(n@, p)
        },
        JsonValue::Bool(b) => if exact {
            bool_text(b) == p
        } else {
            has_infix(bool_text(b), p)
        },
        JsonValue::Null => if exact {
            p == null_text()
        } else {
            has_infix(null_text(), p)
        },
        JsonValue::Array(items) => any_value_matches(items@, p, exact),
        JsonValue::Object(entries) => any_member_matches(entries@, p, exact),
    }
}

/// Some element of `vs` matches.
pub open spec fn any_value_matches(vs: Seq<JsonValue>, p: Seq<char>, exact: bool) -> bool
    decreases vs,
{
    if vs.len() == 0 {
        false
    } else {
        value_matches(vs[0], p, exact) || any_value_matches(vs.drop_first(), p, exact)
    }
}

/// Some member value of `es` matches.
pub open spec fn any_member_matches(es: Seq<(String, JsonValue)>, p: Seq<char>, exact: bool) -> bool
    decreases es,
{
    if es.len() == 0 {
        false
    } else {
        value_matches(es[0].1, p, exact) || any_member_matches(es.drop_first(), p, exact)
    }
}

/// Whether the value found by following the field path `parts[k..]` from `v`
/// matches. Arrays met on the way are searched element by element with the
/// same remaining path.
pub open spec fn field_matches_at(
    v: JsonValue,
    parts: Seq<Seq<char>>,
    k: int,
    p: Seq<char>,
    exact: bool,
) -> bool
    decreases parts.len() - k, v,
{
    if k < 0 || k >= parts.len() {
        false
    } else {
        match v {
            JsonValue::Object(_) => match v.spec_get(parts[k]) {
                Some(x) => if k == parts.len() - 1 {
                    value_matches(x, p, exact)
                } else {
                    field_matches_at(x, parts, k + 1, p, exact)
                },
                None => false,
            },
            JsonValue::Array(items) => any_field_matches(items@, parts, k, p, exact),
            _ => false,
        }
    }
}

/// `field_matches_at` holds for some element of `vs`.
pub open spec fn any_field_matches(
    vs: Seq<JsonValue>,
    parts: Seq<Seq<char>>,
    k: int,
    p: Seq<char>,
    exact: bool,
) -> bool
    decreases parts.len() - k, vs,
{
    if vs.len() == 0 {
        false
    } else {
        field_matches_at(vs[0], parts, k, p, exact) || any_field_matches(
            vs.drop_first(),
            parts,
            k,
            p,
            exact,
        )
    }
}

/// `any_field_matches` holds exactly when some element satisfies `field_matches_at`.
pub proof fn lemma_any_field_matches(
    vs: Seq<JsonValue>,
    parts: Seq<Seq<char>>,
    k: int,
    p: Seq<char>,
    exact: bool,
)
    ensures
        any_field_matches(vs, parts, k, p, exact) <==> exists|i: int|
            0 <= i < vs.len() && #[trigger] field_matches_at(vs[i], parts, k, p, exact),
    decreases vs.len(),
{
    if vs.len() > 0 {
        let df = vs.drop_first();
        lemma_any_field_matches(df, parts, k, p, exact);
        if any_field_matches(vs, parts, k, p, exact) {
            if field_matches_at(vs[0], parts, k, p, exact) {
                assert(0 <= 0 < vs.len() && field_matches_at(vs[0], parts, k, p, exact));
            } else {
                let i = choose|i: int|
                    0 <= i < df.len() && #[trigger] field_matches_at(df[i], parts, k, p, exact);
                assert(df[i] == vs[i + 1]);
                assert(field_matches_at(vs[i + 1], parts, k, p, exact));
            }
        }
        if exists|i: int| 0 <= i < vs.len() && #[trigger] field_matches_at(vs[i], parts, k, p, exact) {
            let i = choose|i: int|
                0 <= i < vs.len() && #[trigger] field_matches_at(vs[i], parts, k, p, exact);
            if i > 0 {
                assert(df[i - 1] == vs[i]);
                assert(field_matches_at(df[i - 1], parts, k, p, exact));
            }
        }
    }
}

/// The pieces of `s` between occurrences of `c` (like `str::split` with a
/// character: an empty `s` gives one empty piece).
pub open spec fn split_on(s: Seq<char>, c: char) -> Seq<Seq<char>>
    decreases s.len(),
{
    let k = first_index(s, c);
    if k < s.len() {
        proof {
            lemma_first_index(s, c);
        }
        seq![s.subrange(0, k)] + split_on(s.subrange(k + 1, s.len() as int), c)
    } else {
        seq![s]
    }
}

/// Splits `s` at every occurrence of `c`.
pub fn split_on_char(s: &str, c: char) -> (parts: Vec<String>)
    ensures
        strings_view(parts@) == split_on(s@, c),
{
    let cs = chars_of(s);
    let n = cs.len();
    let mut parts: Vec<String> = Vec::new();
    let mut pos: usize = 0;
    assert(cs@.subrange(0, n as int) == cs@);
    loop
        invariant
            n == cs@.len(),
            cs@ == s@,
            pos <= n,
            strings_view(parts@) + split_on(cs@.subrange(pos as int, n as int), c) == split_on(
                s@,
                c,
            ),
        decreases n - pos,
    {
        let k = find_char_from(cs.as_slice(), c, pos);
        let ghost rest = cs@.subrange(pos as int, n as int);
        assert(cs@.skip(pos as int) == rest);
        proof {
            lemma_first_index(rest, c);
        }
        let piece = string_from_range(cs.as_slice(), pos, k);
        let ghost old_parts = parts@;
        parts.push(piece);
        assert(strings_view(parts@) =~= strings_view(old_parts).push(piece@));
        if k < n {
            assert(rest.subrange(0, k - pos) == cs@.subrange(pos as int, k as int));
            assert(rest.subrange(k - pos + 1, rest.len() as int) == cs@.subrange(k + 1, n as int));
            assert(split_on(rest, c) == seq![piece@] + split_on(cs@.subrange(k + 1, n as int), c));
            assert(strings_view(parts@) + split_on(cs@.subrange(k + 1, n as int), c) =~= strings_view(
                old_parts,
            ) + split_on(rest, c));
            pos = k + 1;
        } else {
            assert(split_on(rest, c) == seq![rest]);
            assert(strings_view(parts@) =~= strings_view(old_parts) + split_on(rest, c));
            return parts;
        }
    }
}

/// `any_value_matches` holds exactly when some element matches.
pub proof fn lemma_any_value_matches(vs: Seq<JsonValue>, p: Seq<char>, exact: bool)
    ensures
        any_value_matches(vs, p, exact) <==> exists|i: int|
            0 <= i < vs.len() && #[trigger] value_matches(vs[i], p, exact),
    decreases vs.len(),
{
    if vs.len() > 0 {
        let df = vs.drop_first();
        lemma_any_value_matches(df, p, exact);
        if any_value_matches(vs, p, exact) {
            if value_matches(vs[0], p, exact) {
                assert(0 <= 0 < vs.len() && value_matches(vs[0], p, exact));
            } else {
                let i = choose|i: int| 0 <= i < df.len() && #[trigger] value_matches(df[i], p, exact);
                assert(df[i] == vs[i + 1]);
                assert(value_matches(vs[i + 1], p, exact));
            }
        }
        if exists|i: int| 0 <= i < vs.len() && #[trigger] value_matches(vs[i], p, exact) {
            let i = choose|i: int| 0 <= i < vs.len() && #[trigger] value_matches(vs[i], p, exact);
            if i > 0 {
                assert(df[i - 1] == vs[i]);
                assert(value_matches(df[i - 1], p, exact));
            }
        }
    }
}

/// `any_member_matches` holds exactly when some member value matches.
pub proof fn lemma_any_member_matches(es: Seq<(String, JsonValue)>, p: Seq<char>, exact: bool)
    ensures
        any_member_matches(es, p, exact) <==> exists|i: int|
            0 <= i < es.len() && #[trigger] value_matches(es[i].1, p, exact),
    decreases es.len(),
{
    if es.len() > 0 {
        let df = es.drop_first();
        lemma_any_member_matches(df, p, exact);
        if any_member_matches(es, p, exact) {
            if value_matches(es[0].1, p, exact) {
                assert(0 <= 0 < es.len() && value_matches(es[0].1, p, exact));
            } else {
                let i = choose|i: int| 0 <= i < df.len() && #[trigger] value_matches(df[i].1, p, exact);
                assert(df[i] == es[i + 1]);
                assert(value_matches(es[i + 1].1, p, exact));
            }
        }
        if exists|i: int| 0 <= i < es.len() && #[trigger] value_matches(es[i].1, p, exact) {
            let i = choose|i: int| 0 <= i < es.len() && #[trigger] value_matches(es[i].1, p, exact);
            if i > 0 {
                assert(df[i - 1] == es[i]);
                assert(value_matches(df[i - 1].1, p, exact));
            }
        }
    }
}

fn text_matches(text: &[char], p: &[char], exact: bool) -> (r: bool)
    ensures
        r == if exact {
            text@ == p@
        } else {
            has_infix(text@, p@)
        },
{
    if exact {
        chars_eq(text, p)
    } else {
        contains_infix(text, p)
    }
}

fn value_matches_chars(value: &JsonValue, p: &[char], exact: bool) -> (r: bool)
    ensures
        r == value_matches(*value, p@, exact),
    decreases value,
{
    match value {
        JsonValue::Str(s) => {
            if exact {
                let t = chars_of(s.as_str());
                chars_eq(t.as_slice(), p)
            } else {
                let lower = to_lowercase(s.as_str());
                let t = chars_of(lower.as_str());
                contains_infix(t.as_slice(), p)
            }
        },
        JsonValue::Number(n) => {
            let t = chars_of(n.as_str());
            text_matches(t.as_slice(), p, exact)
        },
        JsonValue::Bool(b) => {
            let t: Vec<char> = if *b {
                vec!['t', 'r', 'u', 'e']
            } else {
                vec!['f', 'a', 'l', 's', 'e']
            };
            assert(t@ == bool_text(*b));
            text_matches(t.as_slice(), p, exact)
        },
        JsonValue::Null => {
            let t: Vec<char> = vec!['n', 'u', 'l', 'l'];
            assert(t@ == null_text());
            text_matches(t.as_slice(), p, exact)
        },
        JsonValue::Array(items) => {
            let mut i: usize = 0;
            while i < items.len()
                invariant
                    0 <= i <= items@.len(),
                    *value == JsonValue::Array(*items),
                    forall|j: int| 0 <= j < i ==> !value_matches(#[trigger] items@[j], p@, exact),
                decreases items@.len() - i,
            {
                proof {
                    let ghost vv: Vec<JsonValue> = (*value)->Array_0;
                    assert(decreases_to!(*value => vv));
                    assert(decreases_to!(vv => vv@));
                    assert(decreases_to!(vv@ => vv@[i as int]));
                }
                if value_matches_chars(&items[i], p, exact) {
                    assert(value_matches(items@[i as int], p@, exact));
                    proof {
                        lemma_any_value_matches(items@, p@, exact);
                    }
                    return true;
                }
                i += 1;
            }
            proof {
                lemma_any_value_matches(items@, p@, exact);
            }
            false
        },
        JsonValue::Object(entries) => {
            let mut i: usize = 0;
            while i < entries.len()
                invariant
                    0 <= i <= entries@.len(),
                    *value == JsonValue::Object(*entries),
                    forall|j: int|
                        0 <= j < i ==> !value_matches(#[trigger] entries@[j].1, p@, exact),
                decreases entries@.len() - i,
            {
                proof {
                    let ghost es: Vec<(String, JsonValue)> = (*value)->Object_0;
                    assert(decreases_to!(*value => es));
                    assert(decreases_to!(es => es@));
                    assert(decreases_to!(es@ => es@[i as int]));
                    assert(decreases_to!(es@[i as int] => es@[i as int].1));
                }
                if value_matches_chars(&entries[i].1, p, exact) {
                    assert(value_matches(entries@[i as int].1, p@, exact));
                    proof {
                        lemma_any_member_matches(entries@, p@, exact);
                    }
                    return true;
                }
                i += 1;
            }
            proof {
                lemma_any_member_matches(entries@, p@, exact);
            }
            false
        },
    }
}

/// Recursively checks whether a JSON value matches a pattern (see
/// [`value_matches`]). For a non-exact match the caller passes the pattern
/// in lowercase.
pub fn matches_value(value: &JsonValue, pattern: &str, exact: bool) -> (r: bool)
    ensures
        r == value_matches(*value, pattern@, exact),
{
    let p = chars_of(pattern);
    value_matches_chars(value, p.as_slice(), exact)
}

fn matches_field_parts(
    json: &JsonValue,
    parts: &Vec<String>,
    k: usize,
    p: &[char],
    exact: bool,
) -> (r: bool)
    ensures
        r == field_matches_at(*json, strings_view(parts@), k as int, p@, exact),
    decreases parts@.len() - k, json,
{
    if k >= parts.len() {
        return false;
    }
    let ghost ps = strings_view(parts@);
    assert(ps[k as int] == parts@[k as int]@);
    match json {
        JsonValue::Object(_) => {
            match json.get(parts[k].as_str()) {
                Some(x) => {
                    if k == parts.len() - 1 {
                        value_matches_chars(x, p, exact)
                    } else {
                        matches_field_parts(x, parts, k + 1, p, exact)
                    }
                },
                None => false,
            }
        },
        JsonValue::Array(items) => {
            let mut j: usize = 0;
            while j < items.len()
                invariant
                    0 <= j <= items@.len(),
                    k < parts@.len(),
                    *json == JsonValue::Array(*items),
                    forall|t: int|
                        0 <= t < j ==> !field_matches_at(
                            #[trigger] items@[t],
                            strings_view(parts@),
                            k as int,
                            p@,
                            exact,
                        ),
                decreases items@.len() - j,
            {
                proof {
                    let ghost vv: Vec<JsonValue> = (*json)->Array_0;
                    assert(decreases_to!(*json => vv));
                    assert(decreases_to!(vv => vv@));
                    assert(decreases_to!(vv@ => vv@[j as int]));
                }
                if matches_field_parts(&items[j], parts, k, p, exact) {
                    assert(field_matches_at(items@[j as int], strings_view(parts@), k as int, p@, exact));
                    proof {
                        lemma_any_field_matches(items@, strings_view(parts@), k as int, p@, exact);
                    }
                    return true;
                }
                j += 1;
            }
            proof {
                lemma_any_field_matches(items@, strings_view(parts@), k as int, p@, exact);
            }
            false
        },
        _ => false,
    }
}

/// Follows the dot-separated field path `field_name` (e.g. `bash.str_min`)
/// from `json` and checks whether a value found there matches the pattern.
/// For a non-exact match the caller passes the pattern in lowercase.
pub fn matches_field(json: &JsonValue, field_name: &str, pattern: &str, exact: bool) -> (r: bool)
    ensures
        r == field_matches_at(*json, split_on(field_name@, '.'), 0, pattern@, exact),
{
    let parts = split_on_char(field_name, '.');
    let p = chars_of(pattern);
    matches_field_parts(json, &parts, 0, p.as_slice(), exact)
}

/// The pattern as it is compared: unchanged for exact terms, lowercased otherwise.
pub open spec fn normalized_pattern(p: Seq<char>, exact: bool) -> Seq<char> {
    if exact {
        p
    } else {
        lowercase(p)
    }
}

/// The items selected by one term. `id:`/`i:`/`abstract:`, `type:`/`t:` and
/// `category:`/`c:` look the pattern up in the index; any other classifier is
/// a field path searched in every item; a term without classifier is a word
/// search, or (when exact) a search of every value of every item.
pub open spec fn term_selects(t: TermSpec, items: Seq<IndexedItem>, ix: SearchIndex, x: usize) -> bool {
    match t.classifier {
        Some(c) => if c == "id"@ || c == "abstract"@ || c == "i"@ {
            lookup_result(ix.by_id.view(), t.pattern, t.exact, x)
        } else if c == "type"@ || c == "t"@ {
            lookup_result(ix.by_type.view(), t.pattern, t.exact, x)
        } else if c == "category"@ || c == "c"@ {
            lookup_result(ix.by_category.view(), t.pattern, t.exact, x)
        } else {
            x < items.len() && field_matches_at(
                items[x as int].value,
                split_on(c, '.'),
                0,
                normalized_pattern(t.pattern, t.exact),
                t.exact,
            )
        },
        None => if t.exact {
            x < items.len() && value_matches(items[x as int].value, t.pattern, true)
        } else {
            listed_under_infix(ix.word_index.view(), lowercase(t.pattern), x)
        },
    }
}

/// The parsed terms of a query.
pub open spec fn query_terms(q: Seq<char>) -> Seq<TermSpec> {
    split_terms(q).map_values(|t: Seq<char>| parse_term_spec(t))
}

/// The items a query selects: every item for the empty query; otherwise
/// the items selected by all of its terms (none when the query has no terms).
pub open spec fn query_selects(q: Seq<char>, items: Seq<IndexedItem>, ix: SearchIndex, x: usize) -> bool {
    if q.len() == 0 {
        x < items.len()
    } else {
        let ts = query_terms(q);
        ts.len() > 0 && forall|k: int| 0 <= k < ts.len() ==> term_selects(#[trigger] ts[k], items, ix, x)
    }
}

/// The indices `0..items.len()`.
fn collect_all_indices(items: &[IndexedItem]) -> (r: Vec<usize>)
    ensures
        strictly_sorted(r@),
        forall|x: usize| r@.contains(x) <==> x < items@.len(),
{
    let mut r: Vec<usize> = Vec::new();
    let mut i: usize = 0;
    while i < items.len()
        invariant
            0 <= i <= items@.len(),
            r@.len() == i,
            forall|t: int| 0 <= t < i ==> #[trigger] r@[t] == t,
        decreases items@.len() - i,
    {
        r.push(i);
        i += 1;
    }
    assert forall|x: usize| r@.contains(x) <==> x < items@.len() by {
        if x < items@.len() {
            assert(r@[x as int] == x);
        }
    }
    r
}

/// The common elements of two strictly increasing lists.
fn intersect_sorted(a: &Vec<usize>, b: &Vec<usize>) -> (r: Vec<usize>)
    requires
        strictly_sorted(a@),
        strictly_sorted(b@),
    ensures
        strictly_sorted(r@),
        forall|x: usize| r@.contains(x) <==> (a@.contains(x) && b@.contains(x)),
{
    let mut r: Vec<usize> = Vec::new();
    let mut i: usize = 0;
    let mut j: usize = 0;
    while i < a.len() && j < b.len()
        invariant
            strictly_sorted(a@),
            strictly_sorted(b@),
            strictly_sorted(r@),
            0 <= i <= a@.len(),
            0 <= j <= b@.len(),
            forall|t: int| 0 <= t < r@.len() ==> (i < a@.len() ==> #[trigger] r@[t] < a@[i as int]) && (
            j < b@.len() ==> r@[t] < b@[j as int]),
            forall|x: usize|
                r@.contains(x) <==> (a@.subrange(0, i as int).contains(x) && b@.contains(x)) || (
                a@.contains(x) && b@.subrange(0, j as int).contains(x)),
        decreases a@.len() - i + b@.len() - j,
    {
        let ghost old_r = r@;
        let x = a[i];
        let y = b[j];
        if x < y {
            proof {
                assert forall|z: usize|
                    r@.contains(z) <==> (a@.subrange(0, i + 1).contains(z) && b@.contains(z)) || (
                    a@.contains(z) && b@.subrange(0, j as int).contains(z)) by {
                    if z == x && b@.contains(z) {
                        let t = choose|t: int| 0 <= t < b@.len() && #[trigger] b@[t] == z;
                        if t >= j {
                            assert(b@[j as int] <= b@[t]);
                        } else {
                            assert(b@.subrange(0, j as int)[t] == z);
                        }
                    }
                    lemma_subrange_push_contains(a@, i as int, z);
                }
            }
            i += 1;
        } else if y < x {
            proof {
                assert forall|z: usize|
                    r@.contains(z) <==> (a@.subrange(0, i as int).contains(z) && b@.contains(z)) || (
                    a@.contains(z) && b@.subrange(0, j + 1).contains(z)) by {
                    if z == y && a@.contains(z) {
                        let t = choose|t: int| 0 <= t < a@.len() && #[trigger] a@[t] == z;
                        if t >= i {
                            assert(a@[i as int] <= a@[t]);
                        } else {
                            assert(a@.subrange(0, i as int)[t] == z);
                        }
                    }
                    lemma_subrange_push_contains(b@, j as int, z);
                }
            }
            j += 1;
        } else {
            r.push(x);
            proof {
                assert forall|z: usize|
                    r@.contains(z) <==> (a@.subrange(0, i + 1).contains(z) && b@.contains(z)) || (
                    a@.contains(z) && b@.subrange(0, j + 1).contains(z)) by {
                    lemma_subrange_push_contains(a@, i as int, z);
                    lemma_subrange_push_contains(b@, j as int, z);
                    lemma_push_contains(old_r, x, z);
                    assert(a@.contains(x));
                    assert(b@.contains(x));
                }
                assert forall|t1: int, t2: int| 0 <= t1 < t2 < r@.len() implies r@[t1] < r@[t2] by {
                    if t2 == r@.len() - 1 {
                        assert(old_r[t1] < a@[i as int]);
                    }
                }
            }
            i += 1;
            j += 1;
        }
    }
    proof {
        assert forall|x: usize| r@.contains(x) <==> (a@.contains(x) && b@.contains(x)) by {
            if a@.contains(x) && b@.contains(x) {
                let ta = choose|t: int| 0 <= t < a@.len() && #[trigger] a@[t] == x;
                let tb = choose|t: int| 0 <= t < b@.len() && #[trigger] b@[t] == x;
                if i < a@.len() {
                    assert(j == b@.len());
                    assert(b@.subrange(0, j as int) == b@);
                } else {
                    assert(a@.subrange(0, i as int) == a@);
                }
            }
            if r@.contains(x) {
                if a@.subrange(0, i as int).contains(x) {
                    let t = choose|t: int| 0 <= t < i && #[trigger] a@.subrange(0, i as int)[t] == x;
                    assert(a@[t] == x);
                } else {
                    let t = choose|t: int| 0 <= t < j && #[trigger] b@.subrange(0, j as int)[t] == x;
                    assert(b@[t] == x);
                }
            }
        }
    }
    r
}

proof fn lemma_subrange_push_contains(s: Seq<usize>, i: int, z: usize)
    requires
        0 <= i < s.len(),
    ensures
        s.subrange(0, i + 1).contains(z) <==> (s.subrange(0, i).contains(z) || s[i] == z),
{
    assert(s.subrange(0, i + 1) == s.subrange(0, i).push(s[i]));
    lemma_push_contains(s.subrange(0, i), s[i], z);
}

proof fn lemma_push_contains(s: Seq<usize>, v: usize, z: usize)
    ensures
        s.push(v).contains(z) <==> (s.contains(z) || v == z),
{
    if s.push(v).contains(z) {
        let t = choose|t: int| 0 <= t < s.push(v).len() && #[trigger] s.push(v)[t] == z;
        if t < s.len() {
            assert(s[t] == z);
        }
    }
    if s.contains(z) {
        let t = choose|t: int| 0 <= t < s.len() && #[trigger] s[t] == z;
        assert(s.push(v)[t] == z);
    }
    if v == z {
        assert(s.push(v)[s.len() as int] == z);
    }
}

/// Items whose field path `classifier` holds a value matching the pattern
/// (lowercased unless exact).
fn slow_search_classifier(items: &[IndexedItem], classifier: &str, pattern: &str, exact: bool) -> (r: Vec<usize>)
    ensures
        strictly_sorted(r@),
        forall|x: usize|
            r@.contains(x) <==> (x < items@.len() && field_matches_at(
                items@[x as int].value,
                split_on(classifier@, '.'),
                0,
                normalized_pattern(pattern@, exact),
                exact,
            )),
{
    let pattern_owned = if exact {
        crate::model::owned(pattern)
    } else {
        to_lowercase(pattern)
    };
    let p = chars_of(pattern_owned.as_str());
    let parts = split_on_char(classifier, '.');
    let mut r: Vec<usize> = Vec::new();
    let mut i: usize = 0;
    while i < items.len()
        invariant
            0 <= i <= items@.len(),
            p@ == normalized_pattern(pattern@, exact),
            strings_view(parts@) == split_on(classifier@, '.'),
            strictly_sorted(r@),
            forall|t: int| 0 <= t < r@.len() ==> #[trigger] r@[t] < i,
            forall|x: usize|
                r@.contains(x) <==> (x < i && field_matches_at(
                    items@[x as int].value,
                    split_on(classifier@, '.'),
                    0,
                    p@,
                    exact,
                )),
        decreases items@.len() - i,
    {
        let ghost old_r = r@;
        let hit = matches_field_parts(&items[i].value, &parts, 0, p.as_slice(), exact);
        if hit {
            r.push(i);
        }
        proof {
            assert forall|z: usize| r@.contains(z) <==> (old_r.contains(z) || (hit && z == i)) by {
                lemma_push_contains(old_r, i, z);
                if z == i && old_r.contains(z) {
                    let t = choose|t: int| 0 <= t < old_r.len() && #[trigger] old_r[t] == z;
                }
            }
            assert(hit == field_matches_at(
                items@[i as int].value,
                split_on(classifier@, '.'),
                0,
                p@,
                exact,
            ));
            assert forall|x: usize| r@.contains(x) <==> (x < i + 1 && field_matches_at(items@[x as int].value, split_on(classifier@, '.'), 0, p@, exact)) by {
                assert(old_r.contains(x) <==> (x < i && field_matches_at(items@[x as int].value, split_on(classifier@, '.'), 0, p@, exact)));
                assert(r@.contains(x) <==> (old_r.contains(x) || (hit && x == i)));
                if x == i {
                    assert(hit == field_matches_at(items@[x as int].value, split_on(classifier@, '.'), 0, p@, exact));
                }
            }
        }
        i += 1;
    }
    r
}

/// Items having some value (anywhere inside) that matches the pattern
/// (lowercased unless exact).
fn slow_search_no_classifier(items: &[IndexedItem], pattern: &str, exact: bool) -> (r: Vec<usize>)
    ensures
        strictly_sorted(r@),
        forall|x: usize|
            r@.contains(x) <==> (x < items@.len() && value_matches(
                items@[x as int].value,
                normalized_pattern(pattern@, exact),
                exact,
            )),
{
    let pattern_owned = if exact {
        crate::model::owned(pattern)
    } else {
        to_lowercase(pattern)
    };
    let p = chars_of(pattern_owned.as_str());
    let mut r: Vec<usize> = Vec::new();
    let mut i: usize = 0;
    while i < items.len()
        invariant
            0 <= i <= items@.len(),
            p@ == normalized_pattern(pattern@, exact),
            strictly_sorted(r@),
            forall|t: int| 0 <= t < r@.len() ==> #[trigger] r@[t] < i,
            forall|x: usize|
                r@.contains(x) <==> (x < i && value_matches(items@[x as int].value, p@, exact)),
        decreases items@.len() - i,
    {
        let ghost old_r = r@;
        let hit = value_matches_chars(&items[i].value, p.as_slice(), exact);
        if hit {
            r.push(i);
        }
        proof {
            assert forall|z: usize| r@.contains(z) <==> (old_r.contains(z) || (hit && z == i)) by {
                lemma_push_contains(old_r, i, z);
                if z == i && old_r.contains(z) {
                    let t = choose|t: int| 0 <= t < old_r.len() && #[trigger] old_r[t] == z;
                }
            }
            assert(hit == value_matches(items@[i as int].value, p@, exact));
            assert forall|x: usize| r@.contains(x) <==> (x < i + 1 && value_matches(items@[x as int].value, p@, exact)) by {
                assert(old_r.contains(x) <==> (x < i && value_matches(items@[x as int].value, p@, exact)));
                assert(r@.contains(x) <==> (old_r.contains(x) || (hit && x == i)));
                if x == i {
                    assert(hit == value_matches(items@[x as int].value, p@, exact));
                }
            }
        }
        i += 1;
    }
    r
}

/// The items selected by one parsed term, in increasing order.
fn term_matches(term: &SearchTerm, items: &[IndexedItem], search_index: &SearchIndex) -> (r: Vec<usize>)
    requires
        search_index.wf(),
    ensures
        strictly_sorted(r@),
        forall|x: usize| r@.contains(x) <==> term_selects(term.spec_view(), items@, *search_index, x),
{
    match &term.classifier {
        Some(classifier) => {
            let c = classifier.as_str();
            if str_eq(c, "id") || str_eq(c, "abstract") || str_eq(c, "i") {
                search_index.lookup_field(&search_index.by_id, term.pattern.as_str(), term.exact)
            } else if str_eq(c, "type") || str_eq(c, "t") {
                search_index.lookup_field(&search_index.by_type, term.pattern.as_str(), term.exact)
            } else if str_eq(c, "category") || str_eq(c, "c") {
                search_index.lookup_field(&search_index.by_category, term.pattern.as_str(), term.exact)
            } else {
                slow_search_classifier(items, c, term.pattern.as_str(), term.exact)
            }
        },
        None => {
            if term.exact {
                slow_search_no_classifier(items, term.pattern.as_str(), true)
            } else {
                search_index.search_words(term.pattern.as_str())
            }
        },
    }
}

/// An index built from the items only selects items that exist.
pub proof fn lemma_selects_in_range(q: Seq<char>, items: Seq<IndexedItem>, ix: SearchIndex, x: usize)
    requires
        indexes(ix, items, items.len() as int),
        query_selects(q, items, ix, x),
    ensures
        x < items.len(),
{
    if q.len() > 0 {
        let ts = query_terms(q);
        let t = ts[0];
        assert(term_selects(t, items, ix, x));
        match t.classifier {
            Some(c) => {
                if c == "id"@ || c == "abstract"@ || c == "i"@ {
                    if t.exact {
                        assert(listed(ix.by_id.view(), lowercase(t.pattern), x));
                    } else {
                        let k = choose|k: Seq<char>| #[trigger] listed(ix.by_id.view(), k, x) && has_infix(k, lowercase(t.pattern));
                        assert(listed(ix.by_id.view(), k, x));
                    }
                } else if c == "type"@ || c == "t"@ {
                    if t.exact {
                        assert(listed(ix.by_type.view(), lowercase(t.pattern), x));
                    } else {
                        let k = choose|k: Seq<char>| #[trigger] listed(ix.by_type.view(), k, x) && has_infix(k, lowercase(t.pattern));
                        assert(listed(ix.by_type.view(), k, x));
                    }
                } else if c == "category"@ || c == "c"@ {
                    if t.exact {
                        assert(listed(ix.by_category.view(), lowercase(t.pattern), x));
                    } else {
                        let k = choose|k: Seq<char>| #[trigger] listed(ix.by_category.view(), k, x) && has_infix(k, lowercase(t.pattern));
                        assert(listed(ix.by_category.view(), k, x));
                    }
                }
            },
            None => {
                if !t.exact {
                    let k = choose|k: Seq<char>| #[trigger] listed(ix.word_index.view(), k, x) && has_infix(k, lowercase(t.pattern));
                    assert(listed(ix.word_index.view(), k, x));
                }
            },
        }
    }
}

/// The matching indices lie below the number of items, so there are at most that many.
pub proof fn lemma_matching_in_range(q: Seq<char>, items: Seq<IndexedItem>, ix: SearchIndex, r: Seq<usize>)
    requires
        indexes(ix, items, items.len() as int),
        strictly_sorted(r),
        forall|x: usize| r.contains(x) <==> query_selects(q, items, ix, x),
    ensures
        forall|i: int| 0 <= i < r.len() ==> r[i] < items.len(),
        r.len() <= items.len(),
{
    assert forall|i: int| 0 <= i < r.len() implies r[i] < items.len() by {
        assert(r.contains(r[i]));
        lemma_selects_in_range(q, items, ix, r[i]);
    }
    lemma_sorted_len_bound(r, items.len() as int);
}

/// The indices of the items a query selects, in increasing order.
pub open spec fn matching(q: Seq<char>, items: Seq<IndexedItem>, ix: SearchIndex) -> Seq<usize> {
    choose|s: Seq<usize>|
        strictly_sorted(s) && forall|x: usize| s.contains(x) <==> query_selects(q, items, ix, x)
}

/// A strictly increasing list of exactly the selected items is `matching`.
pub proof fn lemma_matching(q: Seq<char>, items: Seq<IndexedItem>, ix: SearchIndex, r: Seq<usize>)
    requires
        strictly_sorted(r),
        forall|x: usize| r.contains(x) <==> query_selects(q, items, ix, x),
    ensures
        matching(q, items, ix) == r,
{
    let s = matching(q, items, ix);
    assert(strictly_sorted(s) && forall|x: usize| s.contains(x) <==> query_selects(q, items, ix, x));
    lemma_sorted_unique(s, r);
}

/// Searches the items with a query and returns the indices of the matching
/// items in increasing order. The empty query selects every item; otherwise
/// every term of the query must select an item (AND logic).
pub fn find_matches(query: &str, items: &[IndexedItem], search_index: &SearchIndex) -> (r: Vec<usize>)
    requires
        search_index.wf(),
    ensures
        r@ == matching(query@, items@, *search_index),
        strictly_sorted(r@),
        forall|x: usize| r@.contains(x) <==> query_selects(query@, items@, *search_index, x),
{
    let r = find_sorted_matches(query, items, search_index);
    proof {
        lemma_matching(query@, items@, *search_index, r@);
    }
    r
}

fn find_sorted_matches(query: &str, items: &[IndexedItem], search_index: &SearchIndex) -> (r: Vec<usize>)
    requires
        search_index.wf(),
    ensures
        strictly_sorted(r@),
        forall|x: usize| r@.contains(x) <==> query_selects(query@, items@, *search_index, x),
{
    if query.is_empty() {
        return collect_all_indices(items);
    }
    let terms = split_query_terms(query);
    let ghost ts = query_terms(query@);
    assert(ts.len() == terms@.len());
    let mut results: Option<Vec<usize>> = None;
    let mut k: usize = 0;
    while k < terms.len()
        invariant
            search_index.wf(),
            query@.len() > 0,
            strings_view(terms@) == split_terms(query@),
            ts == query_terms(query@),
            ts.len() == terms@.len(),
            0 <= k <= terms@.len(),
            results is None <==> k == 0,
            results matches Some(r) ==> strictly_sorted(r@) && forall|x: usize|
                r@.contains(x) <==> forall|j: int| 0 <= j < k ==> term_selects(#[trigger] ts[j], items@, *search_index, x),
        decreases terms@.len() - k,
    {
        let term = parse_search_term(terms[k].as_str());
        assert(ts[k as int] == term.spec_view()) by {
            assert(strings_view(terms@)[k as int] == terms@[k as int]@);
        }
        let matches = term_matches(&term, items, search_index);
        let next = match results {
            None => matches,
            Some(prev) => intersect_sorted(&prev, &matches),
        };
        proof {
            assert forall|x: usize|
                next@.contains(x) <==> forall|j: int| 0 <= j < k + 1 ==> term_selects(#[trigger] ts[j], items@, *search_index, x) by {
                if forall|j: int| 0 <= j < k + 1 ==> term_selects(#[trigger] ts[j], items@, *search_index, x) {
                    assert(term_selects(ts[k as int], items@, *search_index, x));
                }
            }
        }
        if next.len() == 0 {
            proof {
                assert forall|x: usize| !query_selects(query@, items@, *search_index, x) by {
                    assert(!next@.contains(x));
                    if ts.len() > 0 && forall|j: int| 0 <= j < ts.len() ==> term_selects(#[trigger] ts[j], items@, *search_index, x) {
                        assert forall|j: int| 0 <= j < k + 1 implies term_selects(#[trigger] ts[j], items@, *search_index, x) by {}
                    }
                }
            }
            return Vec::new();
        }
        results = Some(next);
        k += 1;
    }
    match results {
        Some(r) => r,
        None => Vec::new(),
    }
}

} // verus!
